//! The window query: which entries were updated within a trailing number of
//! hours, grouped by feed, in an order that depends on nothing but the feeds.

use vstd::prelude::*;
use vstd::seq_lib::to_multiset_insert;
use crate::identity::{
    identity_less,
    identity_precedes,
    lemma_identity_less_irreflexive,
    lemma_identity_less_total,
    lemma_identity_less_transitive,
};
use crate::model::{entries_view, Entry, EntryView, Feed, FeedView};
use crate::store::{distinct_identities, holds_identity, lemma_mapping_at, mapping_of, position_of};
use crate::time::Timestamp;
use crate::unique::lemma_selection_unique;

verus! {

/// The instant at which an entry was updated, for an entry that has one.
pub open spec fn instant_of(entry: EntryView) -> Timestamp {
    match entry.updated {
        Some(instant) => instant,
        None => Timestamp { seconds: 0, nanos: 0 },
    }
}

/// The entry has an `updated` instant, and that instant is strictly later
/// than `hours` hours before `now`.
pub open spec fn is_recent(entry: EntryView, now: Timestamp, hours: nat) -> bool {
    match entry.updated {
        Some(instant) => instant.within_window(now, hours),
        None => false,
    }
}

/// The entries of a feed that a window keeps, in the order of delivery.
pub open spec fn recent_entries(entries: Seq<EntryView>, now: Timestamp, hours: nat) -> Seq<
    EntryView,
> {
    entries.filter(|entry: EntryView| is_recent(entry, now, hours))
}

/// Every entry has an `updated` instant, and no entry stands before one that
/// was updated earlier.
pub open spec fn ascending_by_updated(entries: Seq<EntryView>) -> bool {
    &&& forall|i: int| 0 <= i < entries.len() ==> (#[trigger] entries[i]).updated is Some
    &&& forall|i: int, j: int|
        0 <= i < j < entries.len() ==> instant_of(entries[i]).at_most(instant_of(entries[j]))
}

/// `origin` names, for each entry of `picked`, a place of `entries` at which
/// that entry was delivered: no place twice, and of two entries updated at
/// the same instant the one delivered first stands first.
pub open spec fn keeps_delivery_order(
    picked: Seq<EntryView>,
    entries: Seq<EntryView>,
    origin: Seq<int>,
) -> bool {
    &&& origin.len() == picked.len()
    &&& forall|k: int|
        0 <= k < picked.len() ==> 0 <= #[trigger] origin[k] < entries.len() && picked[k]
            == entries[origin[k]]
    &&& forall|k: int, l: int|
        0 <= k < l < picked.len() ==> #[trigger] origin[k] != #[trigger] origin[l] && (instant_of(
            picked[k],
        ) == instant_of(picked[l]) ==> origin[k] < origin[l])
}

/// `picked` holds exactly the entries of `entries` that the window keeps,
/// each as often as it is delivered, ascending by their `updated` instants;
/// entries updated at the same instant stand in the order of delivery.
pub open spec fn is_selection(
    picked: Seq<EntryView>,
    entries: Seq<EntryView>,
    now: Timestamp,
    hours: nat,
) -> bool {
    &&& picked.to_multiset() == recent_entries(entries, now, hours).to_multiset()
    &&& ascending_by_updated(picked)
    &&& exists|origin: Seq<int>| keeps_delivery_order(picked, entries, origin)
}

/// What an answer holds: each feed with the entries picked from it.
pub open spec fn answer_view(answer: Seq<(Feed, Vec<Entry>)>) -> Seq<(FeedView, Seq<EntryView>)> {
    answer.map_values(|pair: (Feed, Vec<Entry>)| (pair.0@, entries_view(pair.1@)))
}

/// `answer` is the answer of the window query over `store`:
/// each of its feeds is a feed of the store, unchanged;
/// beside each feed stands a selection of that feed's entries, never empty;
/// the feeds are strictly ascending by identity;
/// and no feed of the store of which the window keeps an entry is missing.
pub open spec fn is_window_answer(
    store: Map<Seq<char>, FeedView>,
    now: Timestamp,
    hours: nat,
    answer: Seq<(FeedView, Seq<EntryView>)>,
) -> bool {
    &&& forall|i: int|
        0 <= i < answer.len() ==> store.contains_pair((#[trigger] answer[i]).0.id, answer[i].0)
    &&& forall|i: int|
        0 <= i < answer.len() ==> (#[trigger] answer[i]).1.len() > 0 && is_selection(
            answer[i].1,
            answer[i].0.entries,
            now,
            hours,
        )
    &&& forall|i: int, j: int|
        0 <= i < j < answer.len() ==> identity_less(
            (#[trigger] answer[i]).0.id,
            (#[trigger] answer[j]).0.id,
        )
    &&& forall|id: Seq<char>|
        #![trigger store.contains_key(id)]
        store.contains_key(id) && recent_entries(store[id].entries, now, hours).len() > 0
            ==> exists|i: int| 0 <= i < answer.len() && (#[trigger] answer[i]).0.id == id
}

/// Every entry of a selection lies within the window, and is one of the
/// entries from which the selection was made.
pub proof fn lemma_selected_is_recent(
    picked: Seq<EntryView>,
    entries: Seq<EntryView>,
    now: Timestamp,
    hours: nat,
    k: int,
)
    requires
        is_selection(picked, entries, now, hours),
        0 <= k < picked.len(),
    ensures
        picked[k].updated is Some,
        is_recent(picked[k], now, hours),
        entries.contains(picked[k]),
{
    let entry = picked[k];
    let keep = |entry: EntryView| is_recent(entry, now, hours);
    let kept = recent_entries(entries, now, hours);
    assert(kept == entries.filter(keep));
    assert(picked.contains(entry));
    picked.to_multiset_ensures();
    kept.to_multiset_ensures();
    assert(picked.to_multiset().count(entry) > 0);
    assert(kept.to_multiset().count(entry) > 0);
    assert(kept.contains(entry));
    let at = choose|at: int| 0 <= at < kept.len() && kept[at] == entry;
    entries.lemma_filter_pred(keep, at);
    entries.lemma_filter_contains_rev(keep, entry);
}

/// Every entry of an answer has an `updated` instant that lies within the
/// window, and is an entry of the feed beside which it stands. So an entry
/// without an `updated` instant is part of no answer, whatever the window.
pub proof fn lemma_answer_entries_recent(
    store: Map<Seq<char>, FeedView>,
    now: Timestamp,
    hours: nat,
    answer: Seq<(FeedView, Seq<EntryView>)>,
    i: int,
    k: int,
)
    requires
        is_window_answer(store, now, hours, answer),
        0 <= i < answer.len(),
        0 <= k < answer[i].1.len(),
    ensures
        answer[i].1[k].updated is Some,
        is_recent(answer[i].1[k], now, hours),
        answer[i].0.entries.contains(answer[i].1[k]),
{
    assert(is_selection(answer[i].1, answer[i].0.entries, now, hours));
    lemma_selected_is_recent(answer[i].1, answer[i].0.entries, now, hours, k);
}

/// No feed of an answer stands beside an empty list of entries.
pub proof fn lemma_answer_lists_not_empty(
    store: Map<Seq<char>, FeedView>,
    now: Timestamp,
    hours: nat,
    answer: Seq<(FeedView, Seq<EntryView>)>,
    i: int,
)
    requires
        is_window_answer(store, now, hours, answer),
        0 <= i < answer.len(),
    ensures
        answer[i].1.len() > 0,
{
}

/// An answer ascends by feed identity, and the entries beside each feed
/// ascend by their `updated` instants.
pub proof fn lemma_answer_ascending(
    store: Map<Seq<char>, FeedView>,
    now: Timestamp,
    hours: nat,
    answer: Seq<(FeedView, Seq<EntryView>)>,
)
    requires
        is_window_answer(store, now, hours, answer),
    ensures
        forall|i: int, j: int|
            0 <= i < j < answer.len() ==> identity_less(
                (#[trigger] answer[i]).0.id,
                (#[trigger] answer[j]).0.id,
            ),
        forall|i: int, a: int, b: int|
            0 <= i < answer.len() && 0 <= a < b < answer[i].1.len() ==> instant_of(
                #[trigger] answer[i].1[a],
            ).at_most(instant_of(#[trigger] answer[i].1[b])),
{
    assert forall|i: int, a: int, b: int|
        0 <= i < answer.len() && 0 <= a < b < answer[i].1.len() implies instant_of(
        #[trigger] answer[i].1[a],
    ).at_most(instant_of(#[trigger] answer[i].1[b])) by {
        assert(is_selection(answer[i].1, answer[i].0.entries, now, hours));
    }
}

/// Every entry of the store that lies within the window is part of the
/// answer, beside its feed.
pub proof fn lemma_recent_entry_answered(
    store: Map<Seq<char>, FeedView>,
    now: Timestamp,
    hours: nat,
    answer: Seq<(FeedView, Seq<EntryView>)>,
    id: Seq<char>,
    k: int,
)
    requires
        is_window_answer(store, now, hours, answer),
        store.contains_key(id),
        0 <= k < store[id].entries.len(),
        is_recent(store[id].entries[k], now, hours),
    ensures
        exists|i: int|
            0 <= i < answer.len() && (#[trigger] answer[i]).0 == store[id] && answer[i].1.contains(
                store[id].entries[k],
            ),
{
    let entry = store[id].entries[k];
    let keep = |entry: EntryView| is_recent(entry, now, hours);
    let kept = recent_entries(store[id].entries, now, hours);
    assert(kept == store[id].entries.filter(keep));
    store[id].entries.lemma_filter_contains(keep, k);
    assert(kept.contains(entry));
    assert(kept.len() > 0);
    let i = choose|i: int| 0 <= i < answer.len() && (#[trigger] answer[i]).0.id == id;
    assert(store.contains_pair(answer[i].0.id, answer[i].0));
    assert(is_selection(answer[i].1, answer[i].0.entries, now, hours));
    kept.to_multiset_ensures();
    answer[i].1.to_multiset_ensures();
    assert(kept.to_multiset().count(entry) > 0);
    assert(answer[i].1.to_multiset().count(entry) > 0);
    assert(answer[i].1.contains(entry));
}

/// The feed at a place of an answer is a feed of the store of which the
/// window keeps an entry.
proof fn lemma_answer_feed_has_recent(
    store: Map<Seq<char>, FeedView>,
    now: Timestamp,
    hours: nat,
    answer: Seq<(FeedView, Seq<EntryView>)>,
    i: int,
)
    requires
        is_window_answer(store, now, hours, answer),
        0 <= i < answer.len(),
    ensures
        store.contains_key(answer[i].0.id),
        store[answer[i].0.id] == answer[i].0,
        recent_entries(answer[i].0.entries, now, hours).len() > 0,
{
    assert(store.contains_pair(answer[i].0.id, answer[i].0));
    assert(is_selection(answer[i].1, answer[i].0.entries, now, hours));
    answer[i].1.to_multiset_ensures();
    recent_entries(answer[i].0.entries, now, hours).to_multiset_ensures();
}

/// Two answers to one query hold the same feed at each place that both have.
proof fn lemma_answers_agree_at(
    store: Map<Seq<char>, FeedView>,
    now: Timestamp,
    hours: nat,
    a: Seq<(FeedView, Seq<EntryView>)>,
    b: Seq<(FeedView, Seq<EntryView>)>,
    i: int,
)
    requires
        is_window_answer(store, now, hours, a),
        is_window_answer(store, now, hours, b),
        0 <= i < a.len(),
        i < b.len(),
    ensures
        a[i].0 == b[i].0,
    decreases i,
{
    lemma_answer_feed_has_recent(store, now, hours, a, i);
    lemma_answer_feed_has_recent(store, now, hours, b, i);
    let x = a[i].0.id;
    let y = b[i].0.id;
    if x != y {
        lemma_identity_less_total(x, y);
        if identity_less(x, y) {
            let j = choose|j: int| 0 <= j < b.len() && (#[trigger] b[j]).0.id == x;
            if j < i {
                lemma_answers_agree_at(store, now, hours, a, b, j);
                assert(identity_less(a[j].0.id, a[i].0.id));
            } else {
                assert(identity_less(b[i].0.id, b[j].0.id));
                lemma_identity_less_transitive(x, y, x);
            }
        } else {
            let j = choose|j: int| 0 <= j < a.len() && (#[trigger] a[j]).0.id == y;
            if j < i {
                lemma_answers_agree_at(store, now, hours, a, b, j);
                assert(identity_less(b[j].0.id, b[i].0.id));
            } else {
                assert(identity_less(a[i].0.id, a[j].0.id));
                lemma_identity_less_transitive(y, x, y);
            }
        }
        lemma_identity_less_irreflexive(x);
        lemma_identity_less_irreflexive(y);
    }
}

/// An answer has no place beyond the end of another answer to the same query.
proof fn lemma_answer_not_longer(
    store: Map<Seq<char>, FeedView>,
    now: Timestamp,
    hours: nat,
    a: Seq<(FeedView, Seq<EntryView>)>,
    b: Seq<(FeedView, Seq<EntryView>)>,
)
    requires
        is_window_answer(store, now, hours, a),
        is_window_answer(store, now, hours, b),
    ensures
        b.len() <= a.len(),
{
    if a.len() < b.len() {
        let n = a.len() as int;
        lemma_answer_feed_has_recent(store, now, hours, b, n);
        let y = b[n].0.id;
        let j = choose|j: int| 0 <= j < a.len() && (#[trigger] a[j]).0.id == y;
        lemma_answers_agree_at(store, now, hours, a, b, j);
        assert(identity_less(b[j].0.id, b[n].0.id));
        lemma_identity_less_irreflexive(y);
    }
}

/// The answer to a query depends on nothing but the store, the instant and
/// the window: it does not depend on the order in which the feeds came in,
/// nor on anything else. Two answers to one query are the same answer.
pub proof fn lemma_answer_determined(
    store: Map<Seq<char>, FeedView>,
    now: Timestamp,
    hours: nat,
    a: Seq<(FeedView, Seq<EntryView>)>,
    b: Seq<(FeedView, Seq<EntryView>)>,
)
    requires
        is_window_answer(store, now, hours, a),
        is_window_answer(store, now, hours, b),
    ensures
        a == b,
{
    lemma_answer_not_longer(store, now, hours, a, b);
    lemma_answer_not_longer(store, now, hours, b, a);
    assert forall|i: int| 0 <= i < a.len() implies a[i] == b[i] by {
        lemma_answers_agree_at(store, now, hours, a, b, i);
        assert(is_selection(a[i].1, a[i].0.entries, now, hours));
        assert(is_selection(b[i].1, b[i].0.entries, now, hours));
        lemma_selection_unique(a[i].1, b[i].1, a[i].0.entries, now, hours);
    }
    assert(a =~= b);
}

/// Decides whether an entry is one that the window keeps.
pub fn entry_is_recent(entry: &Entry, now: &Timestamp, hours: usize) -> (r: bool)
    ensures
        r == is_recent(entry@, *now, hours as nat),
{
    match &entry.updated {
        Some(instant) => instant.is_within_window(now, hours),
        None => false,
    }
}

/// Where `entry` goes in `picked` so that the list stays ascending: behind
/// every entry that was not updated later than it.
fn slot_for_entry(picked: &Vec<Entry>, instant: &Timestamp) -> (at: usize)
    requires
        ascending_by_updated(entries_view(picked@)),
    ensures
        at <= picked.len(),
        forall|k: int| 0 <= k < at ==> instant_of(picked[k]@).at_most(*instant),
        forall|k: int| at <= k < picked.len() ==> instant_of(picked[k]@).later_than(*instant),
{
    let ghost views = entries_view(picked@);
    let mut at: usize = picked.len();
    while at > 0
        invariant
            at <= picked.len(),
            views == entries_view(picked@),
            ascending_by_updated(views),
            forall|k: int| at <= k < picked.len() ==> instant_of(picked[k]@).later_than(*instant),
        decreases at,
    {
        let later = match &picked[at - 1].updated {
            Some(other) => other.is_later_than(instant),
            None => false,
        };
        assert(views[at - 1] == picked[at - 1]@);
        assert(views[at - 1].updated is Some);
        if !later {
            assert forall|k: int| 0 <= k < at implies instant_of(picked[k]@).at_most(*instant) by {
                assert(views[k] == picked[k]@);
                if k < at - 1 {
                    assert(instant_of(views[k]).at_most(instant_of(views[at - 1])));
                }
            }
            return at;
        }
        at -= 1;
    }
    at
}

/// The entries of `entries` that were updated within the last `hours` hours
/// before `now`, ascending by their `updated` instants. Entries updated at
/// the same instant keep the order in which they were delivered.
pub fn recent_sorted(entries: &Vec<Entry>, now: &Timestamp, hours: usize) -> (picked: Vec<Entry>)
    ensures
        is_selection(entries_view(picked@), entries_view(entries@), *now, hours as nat),
{
    let ghost all = entries_view(entries@);
    let ghost keep = |entry: EntryView| is_recent(entry, *now, hours as nat);
    let ghost mut origin: Seq<int> = Seq::empty();
    let mut picked: Vec<Entry> = Vec::new();
    let mut i: usize = 0;
    proof {
        assert(all.take(0) =~= Seq::<EntryView>::empty());
        assert(all.take(0).filter(keep) =~= Seq::<EntryView>::empty()) by {
            reveal(Seq::filter);
        }
        assert(entries_view(picked@) =~= Seq::<EntryView>::empty());
    }
    while i < entries.len()
        invariant
            i <= entries.len(),
            all == entries_view(entries@),
            keep == (|entry: EntryView| is_recent(entry, *now, hours as nat)),
            entries_view(picked@).to_multiset() == all.take(i as int).filter(keep).to_multiset(),
            ascending_by_updated(entries_view(picked@)),
            keeps_delivery_order(entries_view(picked@), all, origin),
            forall|k: int| 0 <= k < origin.len() ==> #[trigger] origin[k] < i,
        decreases entries.len() - i,
    {
        let entry = &entries[i];
        proof {
            assert(all[i as int] == entry@);
            assert(all.take(i + 1) =~= all.take(i as int).push(entry@));
            all.take(i as int).lemma_filter_push(entry@, keep);
        }
        if entry_is_recent(entry, now, hours) {
            let ghost before = entries_view(picked@);
            let ghost origin_before = origin;
            let instant = match &entry.updated {
                Some(instant) => *instant,
                None => Timestamp::new(0, 0),
            };
            let at = slot_for_entry(&picked, &instant);
            let copy = entry.clone();
            picked.insert(at, copy);
            proof {
                let after = entries_view(picked@);
                assert(after =~= before.insert(at as int, entry@));
                to_multiset_insert(before, at as int, entry@);
                all.take(i as int).filter(keep).to_multiset_ensures();
                assert forall|a: int, b: int| 0 <= a < b < after.len() implies instant_of(
                    after[a],
                ).at_most(instant_of(after[b])) by {
                    if b < at {
                        assert(after[a] == before[a] && after[b] == before[b]);
                    } else if b == at {
                        assert(after[a] == before[a]);
                    } else if a < at {
                        assert(after[a] == before[a] && after[b] == before[b - 1]);
                    } else if a == at {
                        assert(after[b] == before[b - 1]);
                    } else {
                        assert(after[a] == before[a - 1] && after[b] == before[b - 1]);
                    }
                }
                assert forall|a: int| 0 <= a < after.len() implies (#[trigger] after[a]).updated
                    is Some by {
                    if a < at {
                        assert(after[a] == before[a]);
                    } else if a > at {
                        assert(after[a] == before[a - 1]);
                    }
                }
                origin = origin_before.insert(at as int, i as int);
                assert forall|k: int| 0 <= k < after.len() implies 0 <= #[trigger] origin[k]
                    < all.len() && after[k] == all[origin[k]] && origin[k] < i + 1 by {
                    if k < at {
                        assert(after[k] == before[k] && origin[k] == origin_before[k]);
                    } else if k > at {
                        assert(after[k] == before[k - 1] && origin[k] == origin_before[k - 1]);
                    }
                }
                assert forall|k: int, l: int| 0 <= k < l < after.len() implies #[trigger] origin[k]
                    != #[trigger] origin[l] && (instant_of(after[k]) == instant_of(after[l])
                    ==> origin[k] < origin[l]) by {
                    if l < at {
                        assert(after[k] == before[k] && after[l] == before[l]);
                        assert(origin[k] == origin_before[k] && origin[l] == origin_before[l]);
                    } else if l == at {
                        assert(after[k] == before[k] && origin[k] == origin_before[k]);
                    } else if k < at {
                        assert(after[k] == before[k] && after[l] == before[l - 1]);
                        assert(origin[k] == origin_before[k] && origin[l] == origin_before[l - 1]);
                    } else if k == at {
                        assert(after[l] == before[l - 1] && origin[l] == origin_before[l - 1]);
                        assert(instant_of(before[l - 1]).later_than(instant));
                    } else {
                        assert(after[k] == before[k - 1] && after[l] == before[l - 1]);
                        assert(origin[k] == origin_before[k - 1] && origin[l] == origin_before[l
                            - 1]);
                    }
                }
            }
        }
        i += 1;
    }
    proof {
        assert(all.take(i as int) =~= all);
    }
    picked
}

/// Where a feed with the identity `id` goes in `answer` so that the feeds
/// stay ascending by identity: behind every feed whose identity comes first.
fn slot_for_feed(answer: &Vec<(Feed, Vec<Entry>)>, id: &String) -> (at: usize)
    ensures
        at <= answer.len(),
        forall|k: int| 0 <= k < at ==> identity_less(answer[k].0.id@, id@),
        at < answer.len() ==> !identity_less(answer[at as int].0.id@, id@),
{
    let mut at: usize = 0;
    while at < answer.len()
        invariant
            at <= answer.len(),
            forall|k: int| 0 <= k < at ==> identity_less(answer[k].0.id@, id@),
        decreases answer.len() - at,
    {
        if !identity_precedes(&answer[at].0.id, id) {
            return at;
        }
        at += 1;
    }
    at
}

/// The feed `feed` is one of the first `n` feeds of the list.
pub open spec fn among_first(feeds: Seq<Feed>, n: int, feed: FeedView) -> bool {
    exists|j: int| 0 <= j < n && j < feeds.len() && #[trigger] feeds[j]@ == feed
}

/// The answer of the window query over a list of feeds that holds no
/// identity twice.
pub fn window_over(feeds: &Vec<Feed>, now: &Timestamp, hours: usize) -> (answer: Vec<
    (Feed, Vec<Entry>),
>)
    requires
        distinct_identities(feeds@),
    ensures
        is_window_answer(mapping_of(feeds@), *now, hours as nat, answer_view(answer@)),
{
    let mut answer: Vec<(Feed, Vec<Entry>)> = Vec::new();
    let mut i: usize = 0;
    while i < feeds.len()
        invariant
            i <= feeds.len(),
            distinct_identities(feeds@),
            forall|k: int|
                0 <= k < answer.len() ==> among_first(feeds@, i as int, (#[trigger] answer[k]).0@),
            forall|k: int|
                0 <= k < answer.len() ==> (#[trigger] answer[k]).1.len() > 0 && is_selection(
                    entries_view(answer[k].1@),
                    answer[k].0@.entries,
                    *now,
                    hours as nat,
                ),
            forall|a: int, b: int|
                0 <= a < b < answer.len() ==> identity_less(
                    (#[trigger] answer[a]).0.id@,
                    (#[trigger] answer[b]).0.id@,
                ),
            forall|j: int|
                0 <= j < i && recent_entries((#[trigger] feeds[j])@.entries, *now, hours as nat).len()
                    > 0 ==> exists|k: int|
                    0 <= k < answer.len() && (#[trigger] answer[k]).0.id@ == feeds[j].id@,
        decreases feeds.len() - i,
    {
        let feed = &feeds[i];
        let picked = recent_sorted(&feed.entries, now, hours);
        proof {
            entries_view(picked@).to_multiset_ensures();
            recent_entries(feed@.entries, *now, hours as nat).to_multiset_ensures();
        }
        if picked.len() > 0 {
            let ghost before = answer@;
            let at = slot_for_feed(&answer, &feed.id);
            let copy = feed.clone();
            proof {
                assert forall|k: int| 0 <= k < before.len() implies before[k].0.id@
                    != feed.id@ by {
                    assert(among_first(feeds@, i as int, before[k].0@));
                    let j = choose|j: int|
                        0 <= j < i && j < feeds.len() && #[trigger] feeds[j]@ == before[k].0@;
                    assert(feeds[j].id@ != feeds[i as int].id@);
                }
                assert forall|k: int| at <= k < before.len() implies identity_less(
                    feed.id@,
                    before[k].0.id@,
                ) by {
                    lemma_identity_less_total(feed.id@, before[at as int].0.id@);
                    if k > at {
                        lemma_identity_less_transitive(
                            feed.id@,
                            before[at as int].0.id@,
                            before[k].0.id@,
                        );
                    }
                }
            }
            answer.insert(at, (copy, picked));
            proof {
                assert forall|k: int| 0 <= k < answer.len() implies among_first(
                    feeds@,
                    i + 1,
                    (#[trigger] answer[k]).0@,
                ) by {
                    if k < at {
                        assert(answer[k] == before[k]);
                        assert(among_first(feeds@, i as int, before[k].0@));
                    } else if k == at {
                        assert(feeds[i as int]@ == answer[k].0@);
                    } else {
                        assert(answer[k] == before[k - 1]);
                        assert(among_first(feeds@, i as int, before[k - 1].0@));
                    }
                }
                assert forall|k: int| 0 <= k < answer.len() implies (#[trigger] answer[k]).1.len()
                    > 0 && is_selection(
                    entries_view(answer[k].1@),
                    answer[k].0@.entries,
                    *now,
                    hours as nat,
                ) by {
                    if k < at {
                        assert(answer[k] == before[k]);
                    } else if k > at {
                        assert(answer[k] == before[k - 1]);
                    }
                }
                assert forall|a: int, b: int| 0 <= a < b < answer.len() implies identity_less(
                    (#[trigger] answer[a]).0.id@,
                    (#[trigger] answer[b]).0.id@,
                ) by {
                    if b < at {
                        assert(answer[a] == before[a] && answer[b] == before[b]);
                    } else if b == at {
                        assert(answer[a] == before[a]);
                    } else if a < at {
                        assert(answer[a] == before[a] && answer[b] == before[b - 1]);
                    } else if a == at {
                        assert(answer[b] == before[b - 1]);
                    } else {
                        assert(answer[a] == before[a - 1] && answer[b] == before[b - 1]);
                    }
                }
                assert forall|j: int|
                    0 <= j < i + 1 && recent_entries(
                        (#[trigger] feeds[j])@.entries,
                        *now,
                        hours as nat,
                    ).len() > 0 implies exists|k: int|
                    0 <= k < answer.len() && (#[trigger] answer[k]).0.id@ == feeds[j].id@ by {
                    if j < i {
                        let k0 = choose|k: int|
                            0 <= k < before.len() && (#[trigger] before[k]).0.id@ == feeds[j].id@;
                        if k0 < at {
                            assert(answer[k0] == before[k0]);
                        } else {
                            assert(answer[k0 + 1] == before[k0]);
                        }
                    } else {
                        assert(answer[at as int].0.id@ == feeds[j].id@);
                    }
                }
            }
        } else {
            proof {
                assert forall|k: int| 0 <= k < answer.len() implies among_first(
                    feeds@,
                    i + 1,
                    (#[trigger] answer[k]).0@,
                ) by {
                    assert(among_first(feeds@, i as int, answer[k].0@));
                }
            }
        }
        i += 1;
    }
    proof {
        let store = mapping_of(feeds@);
        let views = answer_view(answer@);
        assert forall|k: int| 0 <= k < views.len() implies store.contains_pair(
            (#[trigger] views[k]).0.id,
            views[k].0,
        ) by {
            assert(among_first(feeds@, i as int, answer[k].0@));
            let j = choose|j: int|
                0 <= j < i && j < feeds.len() && #[trigger] feeds[j]@ == answer[k].0@;
            lemma_mapping_at(feeds@, j);
        }
        assert forall|id: Seq<char>|
            #![trigger store.contains_key(id)]
            store.contains_key(id) && recent_entries(store[id].entries, *now, hours as nat).len()
                > 0 implies exists|k: int|
            0 <= k < views.len() && (#[trigger] views[k]).0.id == id by {
            assert(holds_identity(feeds@, id));
            let j = position_of(feeds@, id);
            lemma_mapping_at(feeds@, j);
            let k = choose|k: int|
                0 <= k < answer.len() && (#[trigger] answer[k]).0.id@ == feeds[j].id@;
            assert(views[k].0.id == id);
        }
    }
    answer
}

} // verus!
