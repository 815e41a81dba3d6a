//! What the entity extraction keeps of a model's answer that groups names
//! by kind, such as `{ "persons": [..], "organizations": [..] }`: one
//! entity for each name, of the kind that the group's key names.

use crate::sets::texts;
use crate::text::{chars_of, drop_suffixes, strip_suffixes};
use vstd::prelude::*;
use vstd::string::*;

verus! {

/// The step that asks a model for the entities of a document.
pub struct EntityExtractionStep {
    pub openai_api_key: String,
}

/// The names that an answer lists under one key.
#[derive(Debug)]
pub struct EntityGroup {
    pub key: String,
    pub texts: Vec<String>,
}

/// One entity as the step writes it down.
#[derive(Debug)]
pub struct ExtractedEntity {
    pub entity_type: String,
    pub text: String,
    pub source: String,
    pub status: String,
}

/// The mathematical content of an `EntityGroup`.
pub struct GroupView {
    pub key: Seq<char>,
    pub texts: Seq<Seq<char>>,
}

/// The mathematical content of an `ExtractedEntity`.
pub struct ExtractedView {
    pub entity_type: Seq<char>,
    pub text: Seq<char>,
    pub source: Seq<char>,
    pub status: Seq<char>,
}

impl View for EntityGroup {
    type V = GroupView;

    open spec fn view(&self) -> GroupView {
        GroupView { key: self.key@, texts: texts(self.texts@) }
    }
}

impl View for ExtractedEntity {
    type V = ExtractedView;

    open spec fn view(&self) -> ExtractedView {
        ExtractedView {
            entity_type: self.entity_type@,
            text: self.text@,
            source: self.source@,
            status: self.status@,
        }
    }
}

/// The views of a sequence of groups.
pub open spec fn group_views(gs: Seq<EntityGroup>) -> Seq<GroupView> {
    gs.map_values(|g: EntityGroup| g@)
}

/// The views of a sequence of extracted entities.
pub open spec fn extracted_views(es: Seq<ExtractedEntity>) -> Seq<ExtractedView> {
    es.map_values(|e: ExtractedEntity| e@)
}

/// The kind that a group's key names: the key without any `s` at its end.
pub open spec fn kind_of(key: Seq<char>) -> Seq<char> {
    strip_suffixes(key, "s"@)
}

/// The entity for a name of the kind `kind`, marked as a suggestion of the model.
pub open spec fn suggested(kind: Seq<char>, text: Seq<char>) -> ExtractedView {
    ExtractedView { entity_type: kind, text, source: "openai"@, status: "suggested"@ }
}

/// The entities for the names `names` of the kind `kind`, in order.
pub open spec fn of_names(kind: Seq<char>, names: Seq<Seq<char>>) -> Seq<ExtractedView> {
    Seq::new(names.len(), |i: int| suggested(kind, names[i]))
}

/// The entities of all groups, group after group.
pub open spec fn of_groups(gs: Seq<GroupView>) -> Seq<ExtractedView>
    decreases gs.len(),
{
    if gs.len() == 0 {
        Seq::empty()
    } else {
        of_groups(gs.drop_last()) + of_names(kind_of(gs.last().key), gs.last().texts)
    }
}

impl EntityExtractionStep {
    /// The name of the step in run records.
    pub fn name() -> (r: &'static str)
        ensures
            r@ == "entity-extraction"@,
    {
        "entity-extraction"
    }

    /// The kind that a group's key names.
    pub fn kind(key: &str) -> (r: &str)
        ensures
            r@ == kind_of(key@),
    {
        let cs = chars_of(key);
        let s = chars_of("s");
        proof {
            reveal_strlit("s");
            assert(cs@.subrange(0, cs@.len() as int) == cs@);
        }
        let end = drop_suffixes(&cs, 0, cs.len(), &s);
        key.substring_char(0, end)
    }

    /// The entities that an answer grouped by kind stands for.
    pub fn from_groups(groups: &Vec<EntityGroup>) -> (r: Vec<ExtractedEntity>)
        ensures
            extracted_views(r@) == of_groups(group_views(groups@)),
    {
        let mut out: Vec<ExtractedEntity> = Vec::new();
        let ghost all = group_views(groups@);
        let mut i: usize = 0;
        assert(all.take(0) =~= Seq::<GroupView>::empty());
        assert(extracted_views(out@) =~= Seq::<ExtractedView>::empty());
        while i < groups.len()
            invariant
                i <= groups.len(),
                all == group_views(groups@),
                extracted_views(out@) == of_groups(all.take(i as int)),
            decreases groups.len() - i,
        {
            let g = &groups[i];
            let kind = Self::kind(g.key.as_str());
            let ghost before = extracted_views(out@);
            let ghost names = texts(g.texts@);
            proof {
                let next = all.take(i + 1);
                assert(next.drop_last() == all.take(i as int));
                assert(next.last() == g@);
            }
            let mut k: usize = 0;
            assert(extracted_views(out@) =~= before + of_names(kind@, names.take(0)));
            while k < g.texts.len()
                invariant
                    k <= g.texts.len(),
                    names == texts(g.texts@),
                    extracted_views(out@) == before + of_names(kind@, names.take(k as int)),
                decreases g.texts.len() - k,
            {
                let ghost sofar = extracted_views(out@);
                out.push(
                    ExtractedEntity {
                        entity_type: kind.to_owned(),
                        text: g.texts[k].clone(),
                        source: "openai".to_owned(),
                        status: "suggested".to_owned(),
                    },
                );
                assert(extracted_views(out@) =~= sofar.push(suggested(kind@, names[k as int])));
                k += 1;
                assert(extracted_views(out@) =~= before + of_names(kind@, names.take(k as int)));
            }
            assert(names.take(names.len() as int) == names);
            i += 1;
        }
        assert(all.take(groups@.len() as int) == all);
        out
    }
}

} // verus!
