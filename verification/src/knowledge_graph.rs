//! The graph of knowledge that is not deprecated and has full confidence:
//! a node for every subject and object, an edge for every record.

use crate::clock::now_rfc3339;
use crate::evidence::CONFIDENCE_ONE;
use crate::knowledge::{KnowledgeRecord, KnowledgeStore, KnowledgeView, Status};
use crate::text::{
    contains_text, lowercase_of, occurs_in, remove_char, replace_char, replaced, same_text,
    to_lowercase, without,
};
use vstd::prelude::*;
use vstd::string::*;

verus! {

/// When a graph was made.
#[derive(Debug)]
pub struct GraphMeta {
    pub generated_at: String,
}

/// One node of the graph.
#[derive(Debug)]
pub struct GraphNode {
    pub id: String,
    pub label: String,
    pub node_type: String,
}

/// One edge of the graph.
#[derive(Debug)]
pub struct GraphEdge {
    pub from: String,
    pub to: String,
    pub predicate: String,
    pub confidence: u32,
}

/// The graph of knowledge.
#[derive(Debug)]
pub struct GraphModel {
    pub meta: GraphMeta,
    pub nodes: Vec<GraphNode>,
    pub edges: Vec<GraphEdge>,
}

/// The mathematical content of a `GraphNode`.
pub struct NodeView {
    pub id: Seq<char>,
    pub label: Seq<char>,
    pub node_type: Seq<char>,
}

/// The mathematical content of a `GraphEdge`.
pub struct EdgeView {
    pub from: Seq<char>,
    pub to: Seq<char>,
    pub predicate: Seq<char>,
    pub confidence: u32,
}

impl View for GraphNode {
    type V = NodeView;

    open spec fn view(&self) -> NodeView {
        NodeView { id: self.id@, label: self.label@, node_type: self.node_type@ }
    }
}

impl View for GraphEdge {
    type V = EdgeView;

    open spec fn view(&self) -> EdgeView {
        EdgeView {
            from: self.from@,
            to: self.to@,
            predicate: self.predicate@,
            confidence: self.confidence,
        }
    }
}

/// The views of a sequence of nodes.
pub open spec fn node_views(ns: Seq<GraphNode>) -> Seq<NodeView> {
    ns.map_values(|n: GraphNode| n@)
}

/// The views of a sequence of edges.
pub open spec fn edge_views(es: Seq<GraphEdge>) -> Seq<EdgeView> {
    es.map_values(|e: GraphEdge| e@)
}

/// The id of the node for `value` of the type `typ`: the type in lowercase,
/// a colon, and the value in lowercase with `-` for each space and without
/// `,` and `.`.
pub open spec fn node_id_of(typ: Seq<char>, value: Seq<char>) -> Seq<char> {
    lowercase_of(typ) + ":"@ + without(without(replaced(lowercase_of(value), ' ', '-'), ','), '.')
}

/// The type that the object of a record is taken to have: an organization
/// where its name holds `GmbH`, `AG` or `Logic`; else an event where the
/// subject is one; else an entity.
pub open spec fn object_type_of(r: KnowledgeView) -> Seq<char> {
    if occurs_in("GmbH"@, r.object_value) || occurs_in("AG"@, r.object_value) || occurs_in(
        "Logic"@,
        r.object_value,
    ) {
        "organization"@
    } else if r.subject_type == "event"@ {
        "event"@
    } else {
        "entity"@
    }
}

/// Whether a record is shown in the graph.
pub open spec fn is_shown(r: KnowledgeView) -> bool {
    r.status != Status::Deprecated && r.confidence >= CONFIDENCE_ONE
}

/// The node for the subject of a record.
pub open spec fn subject_node(r: KnowledgeView) -> NodeView {
    NodeView {
        id: node_id_of(r.subject_type, r.subject_value),
        label: r.subject_value,
        node_type: r.subject_type,
    }
}

/// The node for the object of a record.
pub open spec fn object_node(r: KnowledgeView) -> NodeView {
    NodeView {
        id: node_id_of("object"@, r.object_value),
        label: r.object_value,
        node_type: object_type_of(r),
    }
}

/// The edge for a record.
pub open spec fn edge_of(r: KnowledgeView) -> EdgeView {
    EdgeView {
        from: node_id_of(r.subject_type, r.subject_value),
        to: node_id_of("object"@, r.object_value),
        predicate: r.predicate,
        confidence: r.confidence,
    }
}

/// Whether `nodes` holds a node with the id `id`.
pub open spec fn has_node(nodes: Seq<NodeView>, id: Seq<char>) -> bool {
    exists|i: int| 0 <= i < nodes.len() && (#[trigger] nodes[i]).id == id
}

/// `nodes` with `n` appended unless a node with its id is there.
pub open spec fn with_node(nodes: Seq<NodeView>, n: NodeView) -> Seq<NodeView> {
    if has_node(nodes, n.id) {
        nodes
    } else {
        nodes.push(n)
    }
}

/// The nodes of the records that are shown: for each record its subject and
/// its object, a node only where none with its id came before.
pub open spec fn nodes_of(records: Seq<KnowledgeView>) -> Seq<NodeView>
    decreases records.len(),
{
    if records.len() == 0 {
        Seq::empty()
    } else if is_shown(records.last()) {
        with_node(
            with_node(nodes_of(records.drop_last()), subject_node(records.last())),
            object_node(records.last()),
        )
    } else {
        nodes_of(records.drop_last())
    }
}

/// The edges of the records that are shown, in the order of the records.
pub open spec fn edges_of(records: Seq<KnowledgeView>) -> Seq<EdgeView>
    decreases records.len(),
{
    if records.len() == 0 {
        Seq::empty()
    } else if is_shown(records.last()) {
        edges_of(records.drop_last()).push(edge_of(records.last()))
    } else {
        edges_of(records.drop_last())
    }
}

/// Whether no two nodes of `nodes` share an id.
pub open spec fn distinct_nodes(nodes: Seq<NodeView>) -> bool {
    forall|i: int, j: int| 0 <= i < j < nodes.len() ==> (#[trigger] nodes[i]).id != (#[trigger] nodes[j]).id
}

/// Adding a node keeps the ids distinct.
proof fn lemma_with_node(nodes: Seq<NodeView>, n: NodeView)
    requires
        distinct_nodes(nodes),
    ensures
        distinct_nodes(with_node(nodes, n)),
{
    let after = with_node(nodes, n);
    if !has_node(nodes, n.id) {
        assert forall|i: int, j: int| 0 <= i < j < after.len() implies (#[trigger] after[i]).id != (
        #[trigger] after[j]).id by {
            if j < nodes.len() {
                assert(nodes[i].id != nodes[j].id);
            } else {
                assert(nodes[i].id != n.id);
            }
        }
    }
}

/// No two nodes of a graph share an id.
pub proof fn lemma_nodes_distinct(records: Seq<KnowledgeView>)
    ensures
        distinct_nodes(nodes_of(records)),
    decreases records.len(),
{
    if records.len() > 0 {
        lemma_nodes_distinct(records.drop_last());
        if is_shown(records.last()) {
            let first = with_node(nodes_of(records.drop_last()), subject_node(records.last()));
            lemma_with_node(nodes_of(records.drop_last()), subject_node(records.last()));
            lemma_with_node(first, object_node(records.last()));
        }
    }
}

/// The id of the node for `value` of the type `typ`.
pub fn node_id(typ: &str, value: &str) -> (r: String)
    ensures
        r@ == node_id_of(typ@, value@),
{
    let lower = to_lowercase(value);
    let dashed = replace_char(lower.as_str(), ' ', '-');
    let no_commas = remove_char(dashed.as_str(), ',');
    let no_dots = remove_char(no_commas.as_str(), '.');
    let mut id = to_lowercase(typ);
    id.append(":");
    id.append(no_dots.as_str());
    id
}

/// The type that the object of `r` is taken to have.
pub fn infer_object_type(r: &KnowledgeRecord) -> (t: String)
    ensures
        t@ == object_type_of(r@),
{
    let object = r.object_value.as_str();
    if contains_text(object, "GmbH") || contains_text(object, "AG") || contains_text(object, "Logic") {
        "organization".to_owned()
    } else if same_text(r.subject_type.as_str(), "event") {
        "event".to_owned()
    } else {
        "entity".to_owned()
    }
}

/// Appends `node` to `nodes` unless a node with its id is there.
fn add_node(nodes: &mut Vec<GraphNode>, node: GraphNode)
    ensures
        node_views(final(nodes)@) == with_node(node_views(old(nodes)@), node@),
{
    let mut i: usize = 0;
    while i < nodes.len()
        invariant
            i <= nodes.len(),
            nodes@ == old(nodes)@,
            forall|j: int| 0 <= j < i ==> (#[trigger] node_views(nodes@)[j]).id != node@.id,
        decreases nodes.len() - i,
    {
        if nodes[i].id == node.id {
            assert(node_views(nodes@)[i as int].id == node@.id);
            return ;
        }
        i += 1;
    }
    nodes.push(node);
    assert(node_views(nodes@) =~= node_views(old(nodes)@).push(node@));
}

/// The graph, made at `generated_at`, of the records of `knowledge` that
/// are shown.
pub fn get_knowledge_graph_at(knowledge: &KnowledgeStore, generated_at: &str) -> (g: GraphModel)
    ensures
        g.meta.generated_at@ == generated_at@,
        node_views(g.nodes@) == nodes_of(knowledge@),
        edge_views(g.edges@) == edges_of(knowledge@),
        distinct_nodes(node_views(g.nodes@)),
{
    proof {
        lemma_nodes_distinct(knowledge@);
    }
    let records = knowledge.all();
    let mut nodes: Vec<GraphNode> = Vec::new();
    let mut edges: Vec<GraphEdge> = Vec::new();
    let mut i: usize = 0;
    assert(knowledge@.take(0) =~= Seq::<KnowledgeView>::empty());
    assert(node_views(nodes@) =~= Seq::<NodeView>::empty());
    assert(edge_views(edges@) =~= Seq::<EdgeView>::empty());
    while i < records.len()
        invariant
            i <= records.len(),
            records@.len() == knowledge@.len(),
            forall|j: int| 0 <= j < records@.len() ==> (#[trigger] records@[j])@ == knowledge@[j],
            node_views(nodes@) == nodes_of(knowledge@.take(i as int)),
            edge_views(edges@) == edges_of(knowledge@.take(i as int)),
        decreases records.len() - i,
    {
        let r = records[i];
        proof {
            let next = knowledge@.take(i + 1);
            assert(next.drop_last() == knowledge@.take(i as int));
            assert(next.last() == r@);
        }
        if r.status != Status::Deprecated && r.confidence >= CONFIDENCE_ONE {
            let subject_id = node_id(r.subject_type.as_str(), r.subject_value.as_str());
            let object_id = node_id("object", r.object_value.as_str());
            add_node(
                &mut nodes,
                GraphNode {
                    id: subject_id.clone(),
                    label: r.subject_value.clone(),
                    node_type: r.subject_type.clone(),
                },
            );
            add_node(
                &mut nodes,
                GraphNode {
                    id: object_id.clone(),
                    label: r.object_value.clone(),
                    node_type: infer_object_type(r),
                },
            );
            let ghost before = edge_views(edges@);
            edges.push(
                GraphEdge {
                    from: subject_id,
                    to: object_id,
                    predicate: r.predicate.clone(),
                    confidence: r.confidence,
                },
            );
            assert(edge_views(edges@) =~= before.push(edge_of(r@)));
        }
        i += 1;
    }
    assert(knowledge@.take(knowledge@.len() as int) == knowledge@);
    GraphModel { meta: GraphMeta { generated_at: generated_at.to_owned() }, nodes, edges }
}

/// The graph, made now, of the records of `knowledge` that are shown.
pub fn get_knowledge_graph(knowledge: &KnowledgeStore) -> (g: GraphModel)
    ensures
        node_views(g.nodes@) == nodes_of(knowledge@),
        edge_views(g.edges@) == edges_of(knowledge@),
        distinct_nodes(node_views(g.nodes@)),
{
    let now = now_rfc3339();
    get_knowledge_graph_at(knowledge, now.as_str())
}

} // verus!
