//! The resolver for organizations: it groups the spellings under which
//! organizations occur in the knowledge store by their normal form and makes
//! a cluster of every group with at least two spellings. The clusters of the
//! store are replaced as a whole on every pass.

use crate::clock::now_rfc3339;
use crate::knowledge::{
    ClusterView, KnowledgeClusters, KnowledgeStore, KnowledgeView, OrganizationCluster, Status,
};
use crate::sets::{add_text, texts, with_member};
use crate::sorting::{lemma_ascending_unique, sorted_set};
use crate::text::{
    lemma_lex_irreflexive, lex_lt, lowercase_of, remove_char, replace_char, replaced, same_text, squeeze, squeezed,
    to_lowercase, without,
};
use vstd::prelude::*;
use vstd::string::*;

verus! {

/// The confidence of every cluster that this resolver makes: 0.9, in millionths.
pub const CLUSTER_CONFIDENCE: u32 = 900_000;

/// The resolver for organizations.
pub struct OrgIdentityResolver;

/// The normal form of an organization's name: in lowercase, without `.` and
/// `,`, with `-` read as a space, and its words joined by single spaces.
pub open spec fn org_normal_form(s: Seq<char>) -> Seq<char> {
    squeezed(replaced(without(without(lowercase_of(s), '.'), ','), '-', ' '))
}

/// The names of organizations that one record mentions: its subject where
/// that is an organization, and its object where the record says that
/// something is associated with it.
pub open spec fn mentioned(r: KnowledgeView) -> Seq<Seq<char>> {
    (if r.subject_type == "organization"@ {
        seq![r.subject_value]
    } else {
        Seq::empty()
    }) + (if r.predicate == "associated_with"@ {
        seq![r.object_value]
    } else {
        Seq::empty()
    })
}

/// The names of organizations that the records mention, record after record.
pub open spec fn names_of(records: Seq<KnowledgeView>) -> Seq<Seq<char>>
    decreases records.len(),
{
    if records.len() == 0 {
        Seq::empty()
    } else {
        names_of(records.drop_last()) + mentioned(records.last())
    }
}

/// Whether `c` is the cluster, made at `now`, of the spellings among `names`
/// with the normal form `c.normalized`: at least two of them, each once, in
/// ascending order.
pub open spec fn is_cluster_of(c: ClusterView, names: Seq<Seq<char>>, now: Seq<char>) -> bool {
    &&& c.variants.len() >= 2
    &&& forall|a: int, b: int|
        0 <= a < b < c.variants.len() ==> lex_lt(#[trigger] c.variants[a], #[trigger] c.variants[b])
    &&& forall|v: Seq<char>| #[trigger]
        c.variants.contains(v) <==> names.contains(v) && org_normal_form(v) == c.normalized
    &&& c.cluster_id == "org:"@ + c.normalized
    &&& c.confidence == CLUSTER_CONFIDENCE
    &&& c.status == Status::Candidate
    &&& c.source_agent == "ORG_IDENTITY_RESOLVER"@
    &&& c.created_at == now
    &&& c.updated_at is None
}

/// Whether `cs` holds a cluster with the normal form `norm`.
pub open spec fn has_cluster(cs: Seq<ClusterView>, norm: Seq<char>) -> bool {
    exists|i: int| 0 <= i < cs.len() && (#[trigger] cs[i]).normalized == norm
}

/// Whether `cs` are the clusters of `names` made at `now`: one for each
/// normal form that two different spellings share, and no other.
pub open spec fn clusters_of(cs: Seq<ClusterView>, names: Seq<Seq<char>>, now: Seq<char>) -> bool {
    &&& forall|i: int| 0 <= i < cs.len() ==> is_cluster_of(#[trigger] cs[i], names, now)
    &&& forall|i: int, j: int|
        0 <= i < j < cs.len() ==> (#[trigger] cs[i]).normalized != (#[trigger] cs[j]).normalized
    &&& forall|x: Seq<char>, y: Seq<char>|
        #![trigger names.contains(x), names.contains(y)]
        names.contains(x) && names.contains(y) && x != y && org_normal_form(x) == org_normal_form(y)
            ==> has_cluster(cs, org_normal_form(x))
}

/// Clustering depends on the set of names alone: two lists with the same
/// names, in whatever order and however often, give the same clusters, up
/// to the order of the clusters.
pub proof fn lemma_clusters_determined(
    first: Seq<ClusterView>,
    second: Seq<ClusterView>,
    names: Seq<Seq<char>>,
    others: Seq<Seq<char>>,
    now: Seq<char>,
)
    requires
        clusters_of(first, names, now),
        clusters_of(second, others, now),
        forall|v: Seq<char>| #[trigger] names.contains(v) <==> others.contains(v),
    ensures
        forall|i: int| 0 <= i < first.len() ==> second.contains(#[trigger] first[i]),
        forall|i: int| 0 <= i < second.len() ==> first.contains(#[trigger] second[i]),
{
    lemma_clusters_included(first, second, names, others, now);
    lemma_clusters_included(second, first, others, names, now);
}

/// Every cluster of one list of names is a cluster of any list with the
/// same names.
proof fn lemma_clusters_included(
    first: Seq<ClusterView>,
    second: Seq<ClusterView>,
    names: Seq<Seq<char>>,
    others: Seq<Seq<char>>,
    now: Seq<char>,
)
    requires
        clusters_of(first, names, now),
        clusters_of(second, others, now),
        forall|v: Seq<char>| #[trigger] names.contains(v) <==> others.contains(v),
    ensures
        forall|i: int| 0 <= i < first.len() ==> second.contains(#[trigger] first[i]),
{
    assert forall|i: int| 0 <= i < first.len() implies second.contains(#[trigger] first[i]) by {
        let c = first[i];
        assert(is_cluster_of(c, names, now));
        let x = c.variants[0];
        let y = c.variants[1];
        assert(lex_lt(x, y));
        lemma_lex_irreflexive(x);
        assert(c.variants.contains(x) && c.variants.contains(y));
        assert(others.contains(x) && others.contains(y));
        assert(has_cluster(second, org_normal_form(x)));
        let k = choose|k: int| 0 <= k < second.len() && (#[trigger] second[k]).normalized == org_normal_form(x);
        let d = second[k];
        assert(is_cluster_of(d, others, now));
        assert forall|v: Seq<char>| #[trigger] c.variants.contains(v) <==> d.variants.contains(v) by {
        }
        lemma_ascending_unique(c.variants, d.variants);
        assert(c == d);
    }
}

/// The spellings seen so far of one normal form.
struct Group {
    norm: String,
    variants: Vec<String>,
}

/// Whether `g` holds each spelling among `names` with its normal form once.
spec fn is_group_of(g: Group, names: Seq<Seq<char>>) -> bool {
    &&& texts(g.variants@).no_duplicates()
    &&& forall|v: Seq<char>| #[trigger]
        texts(g.variants@).contains(v) <==> names.contains(v) && org_normal_form(v) == g.norm@
}

/// Whether `gs` holds a group with the normal form `norm`.
spec fn has_group(gs: Seq<Group>, norm: Seq<char>) -> bool {
    exists|i: int| 0 <= i < gs.len() && (#[trigger] gs[i]).norm@ == norm
}

/// Whether `gs` holds a group with the normal form `norm` at `from` or later.
spec fn has_group_from(gs: Seq<Group>, from: int, norm: Seq<char>) -> bool {
    exists|k: int| from <= k < gs.len() && (#[trigger] gs[k]).norm@ == norm
}

/// Whether `gs` are the groups of `names`: one for each normal form.
spec fn groups_of(gs: Seq<Group>, names: Seq<Seq<char>>) -> bool {
    &&& forall|i: int| 0 <= i < gs.len() ==> is_group_of(#[trigger] gs[i], names)
    &&& forall|i: int, j: int| 0 <= i < j < gs.len() ==> (#[trigger] gs[i]).norm@ != (#[trigger] gs[j]).norm@
    &&& forall|x: Seq<char>| #[trigger] names.contains(x) ==> has_group(gs, org_normal_form(x))
}

/// The normal form of an organization's name.
pub fn normalize_org_name(s: &str) -> (r: String)
    ensures
        r@ == org_normal_form(s@),
{
    let lower = to_lowercase(s);
    let no_dots = remove_char(lower.as_str(), '.');
    let no_commas = remove_char(no_dots.as_str(), ',');
    let spaced = replace_char(no_commas.as_str(), '-', ' ');
    squeeze(spaced.as_str())
}

/// The names of organizations that the records of `knowledge` mention.
pub fn organization_names(knowledge: &KnowledgeStore) -> (r: Vec<String>)
    ensures
        texts(r@) == names_of(knowledge@),
{
    let records = knowledge.all();
    let mut names: Vec<String> = Vec::new();
    let mut i: usize = 0;
    assert(knowledge@.take(0) =~= Seq::<KnowledgeView>::empty());
    assert(texts(names@) =~= Seq::<Seq<char>>::empty());
    while i < records.len()
        invariant
            i <= records.len(),
            records@.len() == knowledge@.len(),
            forall|j: int| 0 <= j < records@.len() ==> (#[trigger] records@[j])@ == knowledge@[j],
            texts(names@) == names_of(knowledge@.take(i as int)),
        decreases records.len() - i,
    {
        let record = records[i];
        proof {
            let next = knowledge@.take(i + 1);
            assert(next.drop_last() == knowledge@.take(i as int));
            assert(next.last() == record@);
        }
        let ghost before = texts(names@);
        if same_text(record.subject_type.as_str(), "organization") {
            names.push(record.subject_value.clone());
            assert(texts(names@) =~= before + seq![record@.subject_value]);
        } else {
            assert(texts(names@) =~= before + Seq::<Seq<char>>::empty());
        }
        let ghost middle = texts(names@);
        if same_text(record.predicate.as_str(), "associated_with") {
            names.push(record.object_value.clone());
            assert(texts(names@) =~= middle + seq![record@.object_value]);
        } else {
            assert(texts(names@) =~= middle + Seq::<Seq<char>>::empty());
        }
        assert(texts(names@) =~= before + mentioned(record@));
        i += 1;
    }
    assert(knowledge@.take(knowledge@.len() as int) == knowledge@);
    names
}

/// The groups of `names`, in the order in which the normal forms first appear.
fn group(names: &Vec<String>) -> (gs: Vec<Group>)
    ensures
        groups_of(gs@, texts(names@)),
{
    let mut gs: Vec<Group> = Vec::new();
    let ghost all = texts(names@);
    let mut j: usize = 0;
    assert(all.take(0) =~= Seq::<Seq<char>>::empty());
    assert(groups_of(gs@, all.take(0)));
    while j < names.len()
        invariant
            j <= names.len(),
            all == texts(names@),
            groups_of(gs@, all.take(j as int)),
        decreases names.len() - j,
    {
        let name = names[j].clone();
        let norm = normalize_org_name(name.as_str());
        let ghost prev = all.take(j as int);
        let ghost next = all.take(j + 1);
        let ghost before = gs@;
        proof {
            assert(next == prev.push(name@));
            assert forall|v: Seq<char>| #[trigger] next.contains(v) <==> prev.contains(v) || v == name@ by {
                if prev.contains(v) {
                    let k = choose|k: int| 0 <= k < prev.len() && prev[k] == v;
                    assert(next[k] == v);
                }
                if v == name@ {
                    assert(next[j as int] == v);
                }
                if next.contains(v) {
                    let k = choose|k: int| 0 <= k < next.len() && next[k] == v;
                    if k < j {
                        assert(prev[k] == v);
                    }
                }
            }
        }
        let mut at: usize = 0;
        while at < gs.len() && gs[at].norm != norm
            invariant
                at <= gs.len(),
                forall|i: int| 0 <= i < at ==> (#[trigger] gs@[i]).norm@ != norm@,
            decreases gs.len() - at,
        {
            at += 1;
        }
        if at < gs.len() {
            let _ = add_text(&mut gs[at].variants, name);
            proof {
                assert forall|i: int| 0 <= i < gs@.len() implies is_group_of(#[trigger] gs@[i], next) by {
                    if i != at {
                        assert(gs@[i] == before[i]);
                        assert(is_group_of(before[i], prev));
                        if i < at {
                            assert(before[i].norm@ != before[at as int].norm@);
                        } else {
                            assert(before[at as int].norm@ != before[i].norm@);
                        }
                    } else {
                        assert(is_group_of(before[at as int], prev));
                        let old_v = texts(before[at as int].variants@);
                        let new_v = texts(gs@[at as int].variants@);
                        assert(new_v == with_member(old_v, name@));
                        assert forall|v: Seq<char>| #[trigger]
                            new_v.contains(v) <==> old_v.contains(v) || v == name@ by {
                            if old_v.contains(v) {
                                let k = choose|k: int| 0 <= k < old_v.len() && old_v[k] == v;
                                assert(new_v[k] == v);
                            }
                            if v == name@ && !old_v.contains(v) {
                                assert(new_v[old_v.len() as int] == v);
                            }
                            if new_v.contains(v) {
                                let k = choose|k: int| 0 <= k < new_v.len() && new_v[k] == v;
                                if k < old_v.len() {
                                    assert(old_v[k] == v);
                                }
                            }
                        }
                    }
                }
                assert forall|i: int, k: int| 0 <= i < k < gs@.len() implies (#[trigger] gs@[i]).norm@ != (
                #[trigger] gs@[k]).norm@ by {
                    assert(before[i].norm@ != before[k].norm@);
                }
                assert forall|x: Seq<char>| #[trigger] next.contains(x) implies has_group(
                    gs@,
                    org_normal_form(x),
                ) by {
                    if prev.contains(x) {
                        assert(has_group(before, org_normal_form(x)));
                        let i = choose|i: int|
                            0 <= i < before.len() && (#[trigger] before[i]).norm@ == org_normal_form(x);
                        assert(gs@[i].norm@ == org_normal_form(x));
                    } else {
                        assert(gs@[at as int].norm@ == org_normal_form(x));
                    }
                }
            }
        } else {
            let mut variants: Vec<String> = Vec::new();
            variants.push(name);
            assert(texts(variants@) =~= seq![name@]);
            gs.push(Group { norm, variants });
            proof {
                let n = before.len() as int;
                assert forall|i: int| 0 <= i < gs@.len() implies is_group_of(#[trigger] gs@[i], next) by {
                    if i < n {
                        assert(gs@[i] == before[i]);
                        assert(is_group_of(before[i], prev));
                    } else {
                        let new_v = texts(gs@[n].variants@);
                        assert(new_v =~= seq![name@]);
                        assert forall|v: Seq<char>| #[trigger]
                            new_v.contains(v) <==> next.contains(v) && org_normal_form(v) == norm@ by {
                            if v == name@ {
                                assert(new_v[0] == v);
                            }
                            if prev.contains(v) && org_normal_form(v) == norm@ {
                                assert(has_group(before, org_normal_form(v)));
                                let i = choose|i: int|
                                    0 <= i < before.len() && (#[trigger] before[i]).norm@
                                        == org_normal_form(v);
                                assert(false);
                            }
                        }
                    }
                }
                assert forall|i: int, k: int| 0 <= i < k < gs@.len() implies (#[trigger] gs@[i]).norm@ != (
                #[trigger] gs@[k]).norm@ by {
                    if k < n {
                        assert(before[i].norm@ != before[k].norm@);
                    } else {
                        assert(gs@[i] == before[i]);
                    }
                }
                assert forall|x: Seq<char>| #[trigger] next.contains(x) implies has_group(
                    gs@,
                    org_normal_form(x),
                ) by {
                    if prev.contains(x) {
                        assert(has_group(before, org_normal_form(x)));
                        let i = choose|i: int|
                            0 <= i < before.len() && (#[trigger] before[i]).norm@ == org_normal_form(x);
                        assert(gs@[i] == before[i]);
                    } else {
                        assert(gs@[n].norm@ == org_normal_form(x));
                    }
                }
            }
        }
        j += 1;
    }
    assert(all.take(names@.len() as int) == all);
    gs
}

/// The cluster, made at `now`, of a group with at least two spellings.
fn cluster_of(g: Group, now: &str, Ghost(names): Ghost<Seq<Seq<char>>>) -> (c: OrganizationCluster)
    requires
        is_group_of(g, names),
        g.variants@.len() >= 2,
    ensures
        is_cluster_of(c@, names, now@),
        c@.normalized == g.norm@,
{
    let variants = sorted_set(&g.variants);
    proof {
        assert(texts(variants@).len() >= 2);
    }
    let mut cluster_id = "org:".to_owned();
    cluster_id.append(g.norm.as_str());
    OrganizationCluster {
        cluster_id,
        normalized: g.norm,
        variants,
        confidence: CLUSTER_CONFIDENCE,
        status: Status::Candidate,
        source_agent: "ORG_IDENTITY_RESOLVER".to_owned(),
        created_at: now.to_owned(),
        updated_at: None,
    }
}

impl OrgIdentityResolver {
    /// The name of the resolver.
    pub fn name() -> (r: &'static str)
        ensures
            r@ == "ORG_IDENTITY_RESOLVER"@,
    {
        "ORG_IDENTITY_RESOLVER"
    }

    /// The clusters, made at `now`, of the spellings in `names`.
    pub fn cluster_names(names: &Vec<String>, now: &str) -> (r: KnowledgeClusters)
        ensures
            clusters_of(r@, texts(names@), now@),
    {
        let mut groups = group(names);
        let ghost all = texts(names@);
        let ghost gs = groups@;
        let mut organizations: Vec<OrganizationCluster> = Vec::new();
        while groups.len() > 0
            invariant
                groups_of(gs, all),
                groups@.len() <= gs.len(),
                groups@ == gs.take(groups@.len() as int),
                forall|i: int|
                    0 <= i < organizations@.len() ==> is_cluster_of(
                        (#[trigger] organizations@[i])@,
                        all,
                        now@,
                    ),
                forall|i: int|
                    0 <= i < organizations@.len() ==> has_group_from(
                        gs,
                        groups@.len() as int,
                        (#[trigger] organizations@[i])@.normalized,
                    ),
                forall|i: int, j: int|
                    0 <= i < j < organizations@.len() ==> (#[trigger] organizations@[i])@.normalized != (
                    #[trigger] organizations@[j])@.normalized,
                forall|k: int|
                    groups@.len() <= k < gs.len() && (#[trigger] gs[k]).variants@.len() >= 2
                        ==> has_cluster(crate::knowledge::cluster_views(organizations@), gs[k].norm@),
            decreases groups.len(),
        {
            let ghost n = groups@.len() - 1;
            let ghost done = organizations@;
            let g = groups.pop().unwrap();
            assert(g == gs[n]);
            assert(is_group_of(gs[n], all));
            if g.variants.len() >= 2 {
                let c = cluster_of(g, now, Ghost(all));
                organizations.push(c);
                proof {
                    let cv = crate::knowledge::cluster_views(organizations@);
                    assert forall|i: int| 0 <= i < organizations@.len() implies has_group_from(
                        gs,
                        n,
                        (#[trigger] organizations@[i])@.normalized,
                    ) by {
                        if i < done.len() {
                            assert(organizations@[i] == done[i]);
                            assert(has_group_from(gs, n + 1, done[i]@.normalized));
                            let k = choose|k: int|
                                n + 1 <= k < gs.len() && (#[trigger] gs[k]).norm@
                                    == done[i]@.normalized;
                            assert(n <= k < gs.len() && gs[k].norm@ == organizations@[i]@.normalized);
                        } else {
                            assert(gs[n].norm@ == organizations@[i]@.normalized);
                        }
                    }
                    assert forall|i: int, j: int| 0 <= i < j < organizations@.len() implies (
                    #[trigger] organizations@[i])@.normalized != (
                    #[trigger] organizations@[j])@.normalized by {
                        if j < done.len() {
                            assert(done[i]@.normalized != done[j]@.normalized);
                        } else {
                            assert(organizations@[i] == done[i]);
                            assert(has_group_from(gs, n + 1, done[i]@.normalized));
                            let k = choose|k: int|
                                n + 1 <= k < gs.len() && (#[trigger] gs[k]).norm@
                                    == done[i]@.normalized;
                            assert(gs[n].norm@ != gs[k].norm@);
                        }
                    }
                    assert forall|k: int|
                        n <= k < gs.len() && (#[trigger] gs[k]).variants@.len() >= 2 implies has_cluster(
                        cv,
                        gs[k].norm@,
                    ) by {
                        if k == n {
                            assert(cv[done.len() as int].normalized == gs[k].norm@);
                        } else {
                            assert(has_cluster(crate::knowledge::cluster_views(done), gs[k].norm@));
                            let i = choose|i: int|
                                0 <= i < done.len() && (#[trigger] crate::knowledge::cluster_views(
                                    done,
                                )[i]).normalized == gs[k].norm@;
                            assert(cv[i].normalized == gs[k].norm@);
                        }
                    }
                    assert forall|i: int| 0 <= i < organizations@.len() implies is_cluster_of(
                        (#[trigger] organizations@[i])@,
                        all,
                        now@,
                    ) by {
                        if i < done.len() {
                            assert(organizations@[i] == done[i]);
                        }
                    }
                }
            } else {
                proof {
                    assert forall|i: int| 0 <= i < organizations@.len() implies has_group_from(
                        gs,
                        n,
                        (#[trigger] organizations@[i])@.normalized,
                    ) by {
                        assert(has_group_from(gs, n + 1, organizations@[i]@.normalized));
                        let k = choose|k: int|
                            n + 1 <= k < gs.len() && (#[trigger] gs[k]).norm@
                                == organizations@[i]@.normalized;
                        assert(n <= k < gs.len() && gs[k].norm@ == organizations@[i]@.normalized);
                    }
                }
            }
        }
        let r = KnowledgeClusters { organizations };
        proof {
            let cs = r@;
            assert forall|i: int| 0 <= i < cs.len() implies is_cluster_of(#[trigger] cs[i], all, now@) by {
                assert(is_cluster_of(r.organizations@[i]@, all, now@));
            }
            assert forall|i: int, j: int| 0 <= i < j < cs.len() implies (#[trigger] cs[i]).normalized != (
            #[trigger] cs[j]).normalized by {
                assert(r.organizations@[i]@.normalized != r.organizations@[j]@.normalized);
            }
            assert forall|x: Seq<char>, y: Seq<char>|
                #![trigger all.contains(x), all.contains(y)]
                all.contains(x) && all.contains(y) && x != y && org_normal_form(x)
                    == org_normal_form(y) implies has_cluster(cs, org_normal_form(x)) by {
                assert(has_group(gs, org_normal_form(x)));
                let k = choose|k: int| 0 <= k < gs.len() && (#[trigger] gs[k]).norm@ == org_normal_form(x);
                assert(is_group_of(gs[k], all));
                let v = texts(gs[k].variants@);
                assert(v.contains(x) && v.contains(y));
                let a = choose|a: int| 0 <= a < v.len() && v[a] == x;
                let b = choose|b: int| 0 <= b < v.len() && v[b] == y;
                assert(a != b);
                assert(gs[k].variants@.len() >= 2);
            }
        }
        r
    }

    /// Replaces the clusters of `knowledge` by the clusters, made at `now`,
    /// of the names of organizations that its records mention.
    pub fn resolve_at(knowledge: &mut KnowledgeStore, now: &str)
        ensures
            clusters_of(final(knowledge).cluster_view(), names_of(old(knowledge)@), now@),
            final(knowledge)@ == old(knowledge)@,
            final(knowledge).location() == old(knowledge).location(),
    {
        let names = organization_names(knowledge);
        let clusters = Self::cluster_names(&names, now);
        knowledge.replace_clusters(clusters);
    }

    /// Replaces the clusters of `knowledge` by the clusters, made now, of the
    /// names of organizations that its records mention.
    pub fn resolve(knowledge: &mut KnowledgeStore)
        ensures
            exists|now: Seq<char>| #[trigger]
                clusters_of(final(knowledge).cluster_view(), names_of(old(knowledge)@), now),
            final(knowledge)@ == old(knowledge)@,
            final(knowledge).location() == old(knowledge).location(),
    {
        let now = now_rfc3339();
        Self::resolve_at(knowledge, now.as_str());
    }
}

} // verus!
