//! Signals: how often each entity is mentioned across the whole corpus, and
//! in which documents, ranked by frequency. A ranking is always computed
//! anew from all mentions.

use crate::sets::{add_text, joined, lemma_with_member_is_joined, texts, with_member};
use crate::sorting::{arrange, by_count_desc, is_arrangement, ranks_counts};
use crate::text::{lowercase_of, remove_char, to_lowercase, trim, trimmed, without};
use vstd::prelude::*;
use vstd::string::*;

verus! {

/// One entity as an extraction pass reports it.
#[derive(Debug)]
pub struct Entity {
    pub text: String,
    pub entity_type: String,
}

/// The mathematical content of an `Entity`.
pub struct EntityView {
    pub text: Seq<char>,
    pub entity_type: Seq<char>,
}

impl View for Entity {
    type V = EntityView;

    open spec fn view(&self) -> EntityView {
        EntityView { text: self.text@, entity_type: self.entity_type@ }
    }
}

/// The views of a sequence of entities.
pub open spec fn entity_views(es: Seq<Entity>) -> Seq<EntityView> {
    es.map_values(|e: Entity| e@)
}

/// One entity found in one document.
#[derive(Debug)]
pub struct EntityMention {
    pub doc_id: String,
    pub entity_type: String,
    pub text: String,
}

/// The mathematical content of an `EntityMention`.
pub struct MentionView {
    pub doc_id: Seq<char>,
    pub entity_type: Seq<char>,
    pub text: Seq<char>,
}

impl View for EntityMention {
    type V = MentionView;

    open spec fn view(&self) -> MentionView {
        MentionView { doc_id: self.doc_id@, entity_type: self.entity_type@, text: self.text@ }
    }
}

/// The frequency of one entity across the corpus.
#[derive(Debug)]
pub struct Signal {
    pub key: String,
    pub signal_type: String,
    pub value: String,
    pub count: usize,
    pub documents: Vec<String>,
}

/// The mathematical content of a `Signal`.
pub struct SignalView {
    pub key: Seq<char>,
    pub signal_type: Seq<char>,
    pub value: Seq<char>,
    pub count: nat,
    pub documents: Seq<Seq<char>>,
}

impl View for Signal {
    type V = SignalView;

    open spec fn view(&self) -> SignalView {
        SignalView {
            key: self.key@,
            signal_type: self.signal_type@,
            value: self.value@,
            count: self.count as nat,
            documents: texts(self.documents@),
        }
    }
}

/// The step that rebuilds the ranking of signals.
pub struct SignalsPipeline;

/// The views of a sequence of mentions.
pub open spec fn mention_views(ms: Seq<EntityMention>) -> Seq<MentionView> {
    ms.map_values(|m: EntityMention| m@)
}

/// The views of a sequence of signals.
pub open spec fn signal_views(ss: Seq<Signal>) -> Seq<SignalView> {
    ss.map_values(|s: Signal| s@)
}

/// The counts of a sequence of signals.
pub open spec fn counts_of(ss: Seq<Signal>) -> Seq<usize> {
    ss.map_values(|s: Signal| s.count)
}

/// The normal form of an entity's text: trimmed, in lowercase, without `.`
/// and `,`.
pub open spec fn normal_form(s: Seq<char>) -> Seq<char> {
    without(without(lowercase_of(trimmed(s)), '.'), ',')
}

/// The key under which a mention is counted: its type in lowercase, a colon,
/// and the normal form of its text.
pub open spec fn key_of(m: MentionView) -> Seq<char> {
    lowercase_of(m.entity_type) + ":"@ + normal_form(m.text)
}

/// The test that a mention is counted under `key`.
pub open spec fn counted_under(key: Seq<char>) -> spec_fn(MentionView) -> bool {
    |m: MentionView| key_of(m) == key
}

/// The mentions that are counted under `key`, in order.
pub open spec fn mentions_of(ms: Seq<MentionView>, key: Seq<char>) -> Seq<MentionView> {
    ms.filter(counted_under(key))
}

/// The documents of a sequence of mentions, one for each mention.
pub open spec fn doc_ids(ms: Seq<MentionView>) -> Seq<Seq<char>> {
    Seq::new(ms.len(), |i: int| ms[i].doc_id)
}

/// Whether `s` sums up the mentions counted under its key: it counts them,
/// lists their documents once each in order of first appearance, and shows
/// the spelling and the type of the first of them.
pub open spec fn summarizes(s: SignalView, ms: Seq<MentionView>) -> bool {
    let hits = mentions_of(ms, s.key);
    &&& hits.len() > 0
    &&& s.count == hits.len()
    &&& s.value == hits[0].text
    &&& s.signal_type == lowercase_of(hits[0].entity_type)
    &&& s.documents == joined(Seq::empty(), doc_ids(hits))
}

/// Whether `t` holds a signal with the key `key`.
pub open spec fn has_signal(t: Seq<SignalView>, key: Seq<char>) -> bool {
    exists|i: int| 0 <= i < t.len() && (#[trigger] t[i]).key == key
}

/// Whether `t` holds exactly one signal for each key under which a mention
/// of `ms` is counted, each summing up the mentions of its key.
pub open spec fn tallies(t: Seq<SignalView>, ms: Seq<MentionView>) -> bool {
    &&& forall|i: int, j: int| 0 <= i < j < t.len() ==> (#[trigger] t[i]).key != (#[trigger] t[j]).key
    &&& forall|i: int| 0 <= i < t.len() ==> summarizes(#[trigger] t[i], ms)
    &&& forall|j: int| 0 <= j < ms.len() ==> has_signal(t, key_of(#[trigger] ms[j]))
}

/// Whether the counts of `t` do not rise from one place to the next.
pub open spec fn descending(t: Seq<SignalView>) -> bool {
    forall|a: int, b: int| 0 <= a < b < t.len() ==> (#[trigger] t[a]).count >= (#[trigger] t[b]).count
}

/// What one more mention does to the mentions counted under a key.
proof fn lemma_mentions_push(ms: Seq<MentionView>, m: MentionView, key: Seq<char>)
    ensures
        mentions_of(ms.push(m), key) == if key_of(m) == key {
            mentions_of(ms, key).push(m)
        } else {
            mentions_of(ms, key)
        },
        mentions_of(ms, key).len() <= ms.len(),
        mentions_of(ms, key).len() > 0 ==> exists|j: int|
            0 <= j < ms.len() && key_of(#[trigger] ms[j]) == key,
{
    ms.lemma_filter_push(m, counted_under(key));
    ms.lemma_filter_len(counted_under(key));
    let hits = mentions_of(ms, key);
    if hits.len() > 0 {
        ms.lemma_filter_pred(counted_under(key), 0);
        assert(hits[0] == hits[0] && hits.contains(hits[0]));
        ms.lemma_filter_contains_rev(counted_under(key), hits[0]);
        assert(ms.contains(hits[0]));
        let j = choose|j: int| 0 <= j < ms.len() && ms[j] == hits[0];
        assert(key_of(ms[j]) == key);
    }
}

/// Reading a tally in another order gives a tally.
pub proof fn lemma_arranged_tally(
    t: Seq<SignalView>,
    out: Seq<SignalView>,
    p: Seq<usize>,
    ms: Seq<MentionView>,
)
    requires
        tallies(t, ms),
        is_arrangement(p, t.len()),
        t.len() <= usize::MAX,
        out.len() == t.len(),
        forall|i: int| 0 <= i < out.len() ==> #[trigger] out[i] == t[p[i] as int],
    ensures
        tallies(out, ms),
{
    assert forall|i: int, j: int| 0 <= i < j < out.len() implies (#[trigger] out[i]).key != (
    #[trigger] out[j]).key by {
        let a = p[i] as int;
        let b = p[j] as int;
        if a < b {
            assert(t[a].key != t[b].key);
        } else {
            assert(t[b].key != t[a].key);
        }
    }
    assert forall|i: int| 0 <= i < out.len() implies summarizes(#[trigger] out[i], ms) by {
        assert(summarizes(t[p[i] as int], ms));
    }
    assert forall|j: int| 0 <= j < ms.len() implies has_signal(out, key_of(#[trigger] ms[j])) by {
        assert(has_signal(t, key_of(ms[j])));
        let i = choose|i: int| 0 <= i < t.len() && (#[trigger] t[i]).key == key_of(ms[j]);
        assert(p.contains(i as usize));
        let a = choose|a: int| 0 <= a < p.len() && p[a] == i as usize;
        assert(out[a].key == key_of(ms[j]));
    }
}

/// The normal form of an entity's text.
pub fn normalize(s: &str) -> (r: String)
    ensures
        r@ == normal_form(s@),
{
    let lower = to_lowercase(trim(s));
    let no_dots = remove_char(lower.as_str(), '.');
    remove_char(no_dots.as_str(), ',')
}

impl SignalsPipeline {
    /// The name of the step in run records.
    pub fn name() -> (r: &'static str)
        ensures
            r@ == "signals"@,
    {
        "signals"
    }

    /// The key under which `mention` is counted.
    pub fn signal_key(mention: &EntityMention) -> (r: String)
        ensures
            r@ == key_of(mention@),
    {
        let mut key = to_lowercase(mention.entity_type.as_str());
        key.append(":");
        key.append(normalize(mention.text.as_str()).as_str());
        key
    }

    /// One signal for each key under which a mention is counted, in the
    /// order in which the keys first appear.
    pub fn tally(mentions: &Vec<EntityMention>) -> (r: Vec<Signal>)
        ensures
            tallies(signal_views(r@), mention_views(mentions@)),
    {
        let mut out: Vec<Signal> = Vec::new();
        let ghost ms = mention_views(mentions@);
        let mut j: usize = 0;
        assert(ms.take(0) =~= Seq::<MentionView>::empty());
        assert(tallies(signal_views(out@), ms.take(0)));
        while j < mentions.len()
            invariant
                j <= mentions.len(),
                ms == mention_views(mentions@),
                tallies(signal_views(out@), ms.take(j as int)),
            decreases mentions.len() - j,
        {
            let mention = &mentions[j];
            let key = Self::signal_key(mention);
            let ghost prev = ms.take(j as int);
            let ghost next = ms.take(j + 1);
            let ghost before = signal_views(out@);
            let ghost m = mention@;
            proof {
                assert(next == prev.push(m));
                assert forall|k: Seq<char>| #[trigger]
                    mentions_of(next, k) == if key_of(m) == k {
                        mentions_of(prev, k).push(m)
                    } else {
                        mentions_of(prev, k)
                    } by {
                    lemma_mentions_push(prev, m, k);
                }
                lemma_mentions_push(prev, m, key@);
            }
            let mut at: usize = 0;
            while at < out.len() && out[at].key != key
                invariant
                    at <= out.len(),
                    forall|i: int| 0 <= i < at ==> (#[trigger] signal_views(out@)[i]).key != key@,
                decreases out.len() - at,
            {
                at += 1;
            }
            if at < out.len() {
                proof {
                    let hits = mentions_of(prev, key@);
                    assert(summarizes(before[at as int], prev));
                    assert(doc_ids(hits.push(m)).drop_last() == doc_ids(hits));
                    assert(doc_ids(hits.push(m)).last() == m.doc_id);
                }
                out[at].count = out[at].count + 1;
                let _ = add_text(&mut out[at].documents, mention.doc_id.clone());
                proof {
                    let after = signal_views(out@);
                    assert forall|i: int| 0 <= i < after.len() implies summarizes(
                        #[trigger] after[i],
                        next,
                    ) by {
                        if i != at {
                            assert(after[i] == before[i]);
                            assert(summarizes(before[i], prev));
                            if i < at {
                                assert(before[i].key != before[at as int].key);
                            } else {
                                assert(before[at as int].key != before[i].key);
                            }
                        }
                    }
                    assert forall|i: int, k: int| 0 <= i < k < after.len() implies (
                    #[trigger] after[i]).key != (#[trigger] after[k]).key by {
                        assert(before[i].key != before[k].key);
                    }
                    assert forall|q: int| 0 <= q < next.len() implies has_signal(
                        after,
                        key_of(#[trigger] next[q]),
                    ) by {
                        if q < j {
                            assert(prev[q] == next[q]);
                            assert(has_signal(before, key_of(prev[q])));
                            let i = choose|i: int|
                                0 <= i < before.len() && (#[trigger] before[i]).key == key_of(
                                    prev[q],
                                );
                            assert(after[i].key == key_of(next[q]));
                        } else {
                            assert(after[at as int].key == key_of(next[q]));
                        }
                    }
                }
            } else {
                proof {
                    let hits = mentions_of(prev, key@);
                    if hits.len() > 0 {
                        let q = choose|q: int| 0 <= q < prev.len() && key_of(#[trigger] prev[q]) == key@;
                        assert(has_signal(before, key_of(prev[q])));
                        let i = choose|i: int|
                            0 <= i < before.len() && (#[trigger] before[i]).key == key_of(prev[q]);
                        assert(false);
                    }
                    assert(hits.push(m) =~= seq![m]);
                    assert(doc_ids(seq![m]) =~= seq![m.doc_id]);
                    lemma_with_member_is_joined(Seq::<Seq<char>>::empty(), m.doc_id);
                    assert(with_member(Seq::<Seq<char>>::empty(), m.doc_id) =~= seq![m.doc_id]);
                }
                let mut documents: Vec<String> = Vec::new();
                documents.push(mention.doc_id.clone());
                assert(texts(documents@) =~= seq![m.doc_id]);
                let signal = Signal {
                    key,
                    signal_type: to_lowercase(mention.entity_type.as_str()),
                    value: mention.text.clone(),
                    count: 1,
                    documents,
                };
                out.push(signal);
                proof {
                    let after = signal_views(out@);
                    assert forall|i: int| 0 <= i < after.len() implies summarizes(
                        #[trigger] after[i],
                        next,
                    ) by {
                        if i < before.len() {
                            assert(after[i] == before[i]);
                            assert(summarizes(before[i], prev));
                        }
                    }
                    assert forall|i: int, k: int| 0 <= i < k < after.len() implies (
                    #[trigger] after[i]).key != (#[trigger] after[k]).key by {
                        if k < before.len() {
                            assert(before[i].key != before[k].key);
                        } else {
                            assert(after[i] == before[i]);
                        }
                    }
                    assert forall|q: int| 0 <= q < next.len() implies has_signal(
                        after,
                        key_of(#[trigger] next[q]),
                    ) by {
                        if q < j {
                            assert(prev[q] == next[q]);
                            assert(has_signal(before, key_of(prev[q])));
                            let i = choose|i: int|
                                0 <= i < before.len() && (#[trigger] before[i]).key == key_of(
                                    prev[q],
                                );
                            assert(after[i] == before[i]);
                        } else {
                            assert(after[before.len() as int].key == key_of(next[q]));
                        }
                    }
                }
            }
            j += 1;
        }
        assert(ms.take(mentions@.len() as int) == ms);
        out
    }

    /// `signals` from the greatest count to the least, signals of equal
    /// count in the order they had.
    pub fn rank(signals: Vec<Signal>) -> (r: Vec<Signal>)
        ensures
            r@.len() == signals@.len(),
            descending(signal_views(r@)),
            exists|p: Seq<usize>|
                #![trigger ranks_counts(p, counts_of(signals@))]
                ranks_counts(p, counts_of(signals@)) && forall|i: int|
                    0 <= i < r@.len() ==> #[trigger] r@[i] == signals@[p[i] as int],
    {
        let mut counts: Vec<usize> = Vec::new();
        let mut i: usize = 0;
        while i < signals.len()
            invariant
                i <= signals.len(),
                counts@ == counts_of(signals@).take(i as int),
            decreases signals.len() - i,
        {
            counts.push(signals[i].count);
            i += 1;
            assert(counts@ =~= counts_of(signals@).take(i as int));
        }
        assert(counts_of(signals@).take(signals@.len() as int) == counts_of(signals@));
        let order = by_count_desc(&counts);
        let ghost given = signals@;
        let out = arrange(signals, &order);
        proof {
            assert forall|a: int, b: int| 0 <= a < b < out@.len() implies (#[trigger] signal_views(
                out@,
            )[a]).count >= (#[trigger] signal_views(out@)[b]).count by {
                assert(out@[a] == given[order@[a] as int]);
                assert(out@[b] == given[order@[b] as int]);
                assert(counts@[order@[a] as int] >= counts@[order@[b] as int]);
            }
            assert(ranks_counts(order@, counts_of(given)));
        }
        out
    }

    /// The ranking of signals for a corpus: one signal for each key under
    /// which a mention is counted, from the most frequent to the least.
    pub fn aggregate(mentions: &Vec<EntityMention>) -> (r: Vec<Signal>)
        ensures
            tallies(signal_views(r@), mention_views(mentions@)),
            descending(signal_views(r@)),
    {
        let tally = Self::tally(mentions);
        let ghost t = signal_views(tally@);
        let ghost given = tally@;
        assert(t.len() == tally.len());
        let out = Self::rank(tally);
        proof {
            let p = choose|p: Seq<usize>|
                #![trigger ranks_counts(p, counts_of(given))]
                ranks_counts(p, counts_of(given)) && forall|i: int|
                    0 <= i < out@.len() ==> #[trigger] out@[i] == given[p[i] as int];
            assert forall|i: int| 0 <= i < out@.len() implies #[trigger] signal_views(out@)[i]
                == t[p[i] as int] by {
                assert(out@[i] == given[p[i] as int]);
            }
            lemma_arranged_tally(t, signal_views(out@), p, mention_views(mentions@));
        }
        out
    }
}

} // verus!
