//! Why a window query has one answer: a selection of a feed's entries is
//! fixed by the entries, the instant and the window.

use vstd::prelude::*;
use vstd::seq_lib::seq_to_set_is_finite;
use vstd::set_lib::lemma_subset_equality;
use crate::model::EntryView;
use crate::query::{
    ascending_by_updated,
    instant_of,
    is_recent,
    is_selection,
    keeps_delivery_order,
    lemma_selected_is_recent,
    recent_entries,
};
use crate::time::Timestamp;

verus! {

/// The places of `entries` at which an entry stands that the window keeps.
pub open spec fn recent_places(entries: Seq<EntryView>, now: Timestamp, hours: nat) -> Set<int> {
    Set::new(|j: int| 0 <= j < entries.len() && is_recent(entries[j], now, hours))
}

/// The entry at place `x` goes before the entry at place `y` in a selection:
/// it was updated earlier, or at the same instant and delivered earlier.
pub open spec fn goes_before(entries: Seq<EntryView>, x: int, y: int) -> bool {
    let a = instant_of(entries[x]);
    let b = instant_of(entries[y]);
    b.later_than(a) || (a == b && x < y)
}

/// There are as many places that the window keeps as entries that it keeps.
pub proof fn lemma_recent_places_len(entries: Seq<EntryView>, now: Timestamp, hours: nat)
    ensures
        recent_places(entries, now, hours).finite(),
        recent_places(entries, now, hours).len() == recent_entries(entries, now, hours).len(),
    decreases entries.len(),
{
    broadcast use vstd::set::group_set_axioms;

    let keep = |entry: EntryView| is_recent(entry, now, hours);
    if entries.len() == 0 {
        assert(recent_places(entries, now, hours) =~= Set::<int>::empty());
        assert(entries.filter(keep).len() == 0) by {
            reveal(Seq::filter);
        }
    } else {
        let front = entries.drop_last();
        let last = entries.last();
        lemma_recent_places_len(front, now, hours);
        assert(front.push(last) =~= entries);
        front.lemma_filter_push(last, keep);
        let place = entries.len() - 1;
        assert forall|j: int| 0 <= j < front.len() implies front[j] == entries[j] by {}
        if is_recent(last, now, hours) {
            assert(recent_places(entries, now, hours) =~= recent_places(front, now, hours).insert(
                place,
            ));
            assert(!recent_places(front, now, hours).contains(place));
        } else {
            assert(recent_places(entries, now, hours) =~= recent_places(front, now, hours));
        }
    }
}

/// The places from which a selection was picked are all the places that the
/// window keeps.
proof fn lemma_origin_covers(
    picked: Seq<EntryView>,
    entries: Seq<EntryView>,
    now: Timestamp,
    hours: nat,
    origin: Seq<int>,
)
    requires
        is_selection(picked, entries, now, hours),
        keeps_delivery_order(picked, entries, origin),
    ensures
        origin.to_set() == recent_places(entries, now, hours),
{
    let places = recent_places(entries, now, hours);
    lemma_recent_places_len(entries, now, hours);
    picked.to_multiset_ensures();
    recent_entries(entries, now, hours).to_multiset_ensures();
    assert(origin.len() == places.len());
    assert forall|x: int| origin.to_set().contains(x) implies places.contains(x) by {
        let k = choose|k: int| 0 <= k < origin.len() && origin[k] == x;
        lemma_selected_is_recent(picked, entries, now, hours, k);
        assert(picked[k] == entries[origin[k]]);
    }
    assert(origin.no_duplicates()) by {
        assert forall|i: int, j: int|
            0 <= i < origin.len() && 0 <= j < origin.len() && i != j implies origin[i]
            != origin[j] by {
            if i < j {
                assert(origin[i] != origin[j]);
            } else {
                assert(origin[j] != origin[i]);
            }
        }
    }
    origin.unique_seq_to_set();
    seq_to_set_is_finite(origin);
    lemma_subset_equality(origin.to_set(), places);
}

/// In a selection, an entry goes before every entry that stands behind it.
proof fn lemma_selection_in_order(
    picked: Seq<EntryView>,
    entries: Seq<EntryView>,
    origin: Seq<int>,
    k: int,
    l: int,
)
    requires
        ascending_by_updated(picked),
        keeps_delivery_order(picked, entries, origin),
        0 <= k < l < picked.len(),
    ensures
        goes_before(entries, origin[k], origin[l]),
        origin[k] != origin[l],
{
    assert(picked[k] == entries[origin[k]]);
    assert(picked[l] == entries[origin[l]]);
    assert(instant_of(picked[k]).at_most(instant_of(picked[l])));
}

/// Two selections from the same entries were picked from the same places,
/// place by place.
proof fn lemma_origins_agree_at(
    entries: Seq<EntryView>,
    p: Seq<EntryView>,
    q: Seq<EntryView>,
    op: Seq<int>,
    oq: Seq<int>,
    i: int,
)
    requires
        ascending_by_updated(p),
        ascending_by_updated(q),
        keeps_delivery_order(p, entries, op),
        keeps_delivery_order(q, entries, oq),
        op.to_set() == oq.to_set(),
        0 <= i < p.len(),
        i < q.len(),
    ensures
        op[i] == oq[i],
    decreases i,
{
    let x = op[i];
    let y = oq[i];
    if x != y {
        assert(op.contains(x));
        assert(oq.contains(y));
        assert(op.to_set().contains(x));
        assert(oq.to_set().contains(y));
        let j = choose|j: int| 0 <= j < oq.len() && oq[j] == x;
        let m = choose|m: int| 0 <= m < op.len() && op[m] == y;
        if j < i {
            lemma_origins_agree_at(entries, p, q, op, oq, j);
            lemma_selection_in_order(p, entries, op, j, i);
        } else if m < i {
            lemma_origins_agree_at(entries, p, q, op, oq, m);
            lemma_selection_in_order(q, entries, oq, m, i);
        } else {
            lemma_selection_in_order(q, entries, oq, i, j);
            lemma_selection_in_order(p, entries, op, i, m);
        }
    }
}

/// Two selections from the same entries, for the same instant and window,
/// are the same list.
pub proof fn lemma_selection_unique(
    p: Seq<EntryView>,
    q: Seq<EntryView>,
    entries: Seq<EntryView>,
    now: Timestamp,
    hours: nat,
)
    requires
        is_selection(p, entries, now, hours),
        is_selection(q, entries, now, hours),
    ensures
        p == q,
{
    let op = choose|origin: Seq<int>| keeps_delivery_order(p, entries, origin);
    let oq = choose|origin: Seq<int>| keeps_delivery_order(q, entries, origin);
    lemma_origin_covers(p, entries, now, hours, op);
    lemma_origin_covers(q, entries, now, hours, oq);
    p.to_multiset_ensures();
    q.to_multiset_ensures();
    assert(p.len() == q.len());
    assert forall|i: int| 0 <= i < p.len() implies p[i] == q[i] by {
        lemma_origins_agree_at(entries, p, q, op, oq, i);
        assert(p[i] == entries[op[i]]);
        assert(q[i] == entries[oq[i]]);
    }
    assert(p =~= q);
}

} // verus!
