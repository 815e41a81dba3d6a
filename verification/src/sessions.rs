//! Sessions: one summary for each processed document, the latest first.

use crate::pipeline::ProcessingFile;
use crate::signals::Entity;
use crate::sets::texts;
use crate::sorting::{arrange, by_text, ranks_texts};
use crate::text::{first_line, first_line_of, prefix, prefix_of};
use vstd::prelude::*;
use vstd::string::*;

verus! {

/// One entity of a session.
#[derive(Debug)]
pub struct SessionEntity {
    pub entity_type: String,
    pub value: String,
}

/// The summary of one processed document.
#[derive(Debug)]
pub struct SessionSummary {
    pub id: String,
    pub date: String,
    pub title: String,
    pub raw: String,
    pub entities: Vec<SessionEntity>,
}

/// The mathematical content of a `SessionEntity`.
pub struct SessionEntityView {
    pub entity_type: Seq<char>,
    pub value: Seq<char>,
}

/// The mathematical content of a `SessionSummary`.
pub struct SessionView {
    pub id: Seq<char>,
    pub date: Seq<char>,
    pub title: Seq<char>,
    pub raw: Seq<char>,
    pub entities: Seq<SessionEntityView>,
}

impl View for SessionEntity {
    type V = SessionEntityView;

    open spec fn view(&self) -> SessionEntityView {
        SessionEntityView { entity_type: self.entity_type@, value: self.value@ }
    }
}

/// The views of a sequence of session entities.
pub open spec fn entity_views(es: Seq<SessionEntity>) -> Seq<SessionEntityView> {
    es.map_values(|e: SessionEntity| e@)
}

impl View for SessionSummary {
    type V = SessionView;

    open spec fn view(&self) -> SessionView {
        SessionView {
            id: self.id@,
            date: self.date@,
            title: self.title@,
            raw: self.raw@,
            entities: entity_views(self.entities@),
        }
    }
}

/// The views of a sequence of summaries.
pub open spec fn session_views(ss: Seq<SessionSummary>) -> Seq<SessionView> {
    ss.map_values(|s: SessionSummary| s@)
}

/// The entities that an extraction reported, as session entities.
pub open spec fn reported(es: Seq<Entity>) -> Seq<SessionEntityView> {
    es.map_values(|e: Entity| SessionEntityView { entity_type: e.entity_type@, value: e.text@ })
}

/// The title of a session with the text `raw`: the first 80 characters of
/// its first line, or `Session` where the text is empty.
pub open spec fn title_of(raw: Seq<char>) -> Seq<char> {
    match first_line_of(raw) {
        Some(line) => prefix_of(line, 80),
        None => prefix_of("Session"@, 80),
    }
}

/// The entities of `es`, each pair of type and value once, in the order in
/// which they first appear.
pub open spec fn distinct(es: Seq<SessionEntityView>) -> Seq<SessionEntityView>
    decreases es.len(),
{
    if es.len() == 0 {
        es
    } else if distinct(es.drop_last()).contains(es.last()) {
        distinct(es.drop_last())
    } else {
        distinct(es.drop_last()).push(es.last())
    }
}

/// The dates of a sequence of summaries.
pub open spec fn session_dates(ss: Seq<SessionView>) -> Seq<Seq<char>> {
    Seq::new(ss.len(), |i: int| ss[i].date)
}

/// Whether `out` holds the summaries of `given` from the latest date to the
/// earliest, summaries of one date in the order they had.
pub open spec fn latest_first(out: Seq<SessionSummary>, given: Seq<SessionSummary>) -> bool {
    exists|p: Seq<usize>|
        #![trigger ranks_texts(p, session_dates(session_views(given)), true)]
        ranks_texts(p, session_dates(session_views(given)), true) && out.len() == given.len()
            && forall|i: int| 0 <= i < out.len() ==> #[trigger] out[i] == given[p[i] as int]
}

/// The title of a session with the text `raw`.
pub fn session_title(raw: &str) -> (r: String)
    ensures
        r@ == title_of(raw@),
{
    let line = match first_line(raw) {
        Some(l) => l,
        None => "Session",
    };
    prefix(line, 80).to_owned()
}

/// The summary of the document with the run record `processing`, the text
/// `raw` and the extracted entities `entities`.
pub fn summarize(processing: &ProcessingFile, raw: String, entities: &Vec<Entity>) -> (r:
    SessionSummary)
    ensures
        r@.id == processing@.doc_id,
        r@.date == processing@.started_at,
        r@.title == title_of(raw@),
        r@.raw == raw@,
        r@.entities == distinct(reported(entities@)),
{
    let mut found: Vec<SessionEntity> = Vec::new();
    let ghost all = reported(entities@);
    let mut i: usize = 0;
    assert(all.take(0) =~= Seq::<SessionEntityView>::empty());
    assert(entity_views(found@) =~= Seq::<SessionEntityView>::empty());
    while i < entities.len()
        invariant
            i <= entities.len(),
            all == reported(entities@),
            entity_views(found@) == distinct(all.take(i as int)),
        decreases entities.len() - i,
    {
        let e = &entities[i];
        proof {
            let next = all.take(i + 1);
            assert(next.drop_last() == all.take(i as int));
            assert(next.last() == all[i as int]);
        }
        let ghost ev = SessionEntityView { entity_type: e.entity_type@, value: e.text@ };
        let ghost before = entity_views(found@);
        let mut known = false;
        let mut k: usize = 0;
        while k < found.len() && !known
            invariant
                k <= found.len(),
                before == entity_views(found@),
                ev.entity_type == e.entity_type@,
                ev.value == e.text@,
                known ==> before.contains(ev),
                !known ==> forall|j: int| 0 <= j < k ==> #[trigger] before[j] != ev,
            decreases found.len() - k + (if known { 0int } else { 1int }),
        {
            assert(before[k as int] == found@[k as int]@);
            if found[k].entity_type == e.entity_type && found[k].value == e.text {
                assert(before[k as int] == ev);
                known = true;
            } else {
                k += 1;
            }
        }
        if !known {
            found.push(SessionEntity { entity_type: e.entity_type.clone(), value: e.text.clone() });
            assert(entity_views(found@) =~= before.push(ev));
        }
        i += 1;
    }
    assert(all.take(entities@.len() as int) == all);
    SessionSummary {
        id: processing.doc_id.clone(),
        date: processing.started_at.clone(),
        title: session_title(raw.as_str()),
        raw,
        entities: found,
    }
}

/// The summaries of all sessions, the latest first.
pub fn list_sessions(sessions: Vec<SessionSummary>) -> (r: Vec<SessionSummary>)
    ensures
        latest_first(r@, sessions@),
{
    let mut dates: Vec<String> = Vec::new();
    let mut i: usize = 0;
    let ghost all = session_dates(session_views(sessions@));
    assert(texts(dates@) =~= all.take(0));
    while i < sessions.len()
        invariant
            i <= sessions.len(),
            all == session_dates(session_views(sessions@)),
            texts(dates@) == all.take(i as int),
        decreases sessions.len() - i,
    {
        let ghost before = texts(dates@);
        dates.push(sessions[i].date.clone());
        assert(all[i as int] == sessions@[i as int]@.date);
        assert(texts(dates@) =~= before.push(all[i as int]));
        assert(all.take(i + 1) =~= all.take(i as int).push(all[i as int]));
        i += 1;
    }
    assert(all.take(sessions@.len() as int) == all);
    let order = by_text(&dates, true);
    let out = arrange(sessions, &order);
    assert(ranks_texts(order@, session_dates(session_views(sessions@)), true));
    out
}

} // verus!
