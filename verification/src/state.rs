//! One aggregation run: from the outcomes of the fetches to the snapshot
//! that the queries read.

use std::sync::Arc;
use vstd::prelude::*;
use crate::fetch::{FetchError, FetchOutcome};
use crate::model::{Entry, Feed, FeedView};
use crate::query::{answer_view, is_window_answer};
use crate::store::FeedStore;
use crate::time::{current_time, Timestamp};

verus! {

/// The mapping that a run of outcomes leaves behind, taken in the order in
/// which the fetches completed: each feed goes under its identity, a later
/// feed replaces an earlier one of the same identity, and a skip adds nothing.
pub open spec fn store_after(outcomes: Seq<FetchOutcome>) -> Map<Seq<char>, FeedView>
    decreases outcomes.len(),
{
    if outcomes.len() == 0 {
        Map::empty()
    } else {
        let earlier = store_after(outcomes.drop_last());
        match outcomes.last() {
            FetchOutcome::Feed(feed) => earlier.insert(feed.id@, feed@),
            _ => earlier,
        }
    }
}

/// No outcome of the run is a hard failure.
pub open spec fn no_failure(outcomes: Seq<FetchOutcome>) -> bool {
    forall|i: int| 0 <= i < outcomes.len() ==> !((#[trigger] outcomes[i]) is HardFailure)
}

/// Outcome `i` is the first hard failure of the run.
pub open spec fn is_first_failure(outcomes: Seq<FetchOutcome>, i: int) -> bool {
    &&& 0 <= i < outcomes.len()
    &&& outcomes[i] is HardFailure
    &&& no_failure(outcomes.take(i))
}

/// The outcome is a feed that reports the identity `id`.
pub open spec fn reports(outcome: FetchOutcome, id: Seq<char>) -> bool {
    match outcome {
        FetchOutcome::Feed(feed) => feed.id@ == id,
        _ => false,
    }
}

/// The mapping that a run leaves behind holds an identity exactly if some
/// feed of the run reports it.
pub proof fn lemma_store_holds_reported(outcomes: Seq<FetchOutcome>, id: Seq<char>)
    ensures
        store_after(outcomes).contains_key(id) <==> exists|i: int|
            0 <= i < outcomes.len() && reports(#[trigger] outcomes[i], id),
    decreases outcomes.len(),
{
    if outcomes.len() > 0 {
        let earlier = outcomes.drop_last();
        lemma_store_holds_reported(earlier, id);
        if store_after(outcomes).contains_key(id) {
            if reports(outcomes.last(), id) {
                assert(reports(outcomes[outcomes.len() - 1], id));
            } else {
                let i = choose|i: int| 0 <= i < earlier.len() && reports(#[trigger] earlier[i], id);
                assert(reports(outcomes[i], id));
            }
        }
        if exists|i: int| 0 <= i < outcomes.len() && reports(#[trigger] outcomes[i], id) {
            let i = choose|i: int| 0 <= i < outcomes.len() && reports(#[trigger] outcomes[i], id);
            if i < earlier.len() {
                assert(reports(earlier[i], id));
            }
        }
    }
}

/// Where several feeds of a run report one identity, the mapping holds one
/// feed under it: the one that completed last.
pub proof fn lemma_last_report_wins(outcomes: Seq<FetchOutcome>, i: int, feed: Feed)
    requires
        0 <= i < outcomes.len(),
        outcomes[i] == FetchOutcome::Feed(feed),
        forall|j: int| i < j < outcomes.len() ==> !reports(#[trigger] outcomes[j], feed.id@),
    ensures
        store_after(outcomes).contains_pair(feed.id@, feed@),
    decreases outcomes.len(),
{
    let earlier = outcomes.drop_last();
    if i < outcomes.len() - 1 {
        assert(earlier[i] == outcomes[i]);
        assert forall|j: int| i < j < earlier.len() implies !reports(
            #[trigger] earlier[j],
            feed.id@,
        ) by {
            assert(earlier[j] == outcomes[j]);
        }
        lemma_last_report_wins(earlier, i, feed);
        assert(!reports(outcomes[outcomes.len() - 1], feed.id@));
    }
}

/// A run of one fetch that ended with a feed leaves exactly that feed behind,
/// under its identity and with everything it holds.
pub proof fn lemma_single_feed_kept(feed: Feed)
    ensures
        store_after(seq![FetchOutcome::Feed(feed)]) == Map::<Seq<char>, FeedView>::empty().insert(
            feed.id@,
            feed@,
        ),
{
    let run = seq![FetchOutcome::Feed(feed)];
    assert(run.drop_last() =~= Seq::<FetchOutcome>::empty());
    assert(run.last() == FetchOutcome::Feed(feed));
    reveal_with_fuel(store_after, 2);
}

/// The feeds gathered so far in a run that has not failed.
pub struct FeedAggregator {
    store: FeedStore,
}

impl View for FeedAggregator {
    type V = Map<Seq<char>, FeedView>;

    closed spec fn view(&self) -> Map<Seq<char>, FeedView> {
        self.store@
    }
}

impl FeedAggregator {
    /// The start of a run: nothing gathered yet.
    pub fn new() -> (aggregator: FeedAggregator)
        ensures
            aggregator@ == Map::<Seq<char>, FeedView>::empty(),
    {
        FeedAggregator { store: FeedStore::new() }
    }

    /// Takes in the outcome of one fetch. A feed goes under its identity,
    /// in place of any feed gathered under that identity before. A skip
    /// changes nothing. A hard failure ends the run: what was gathered is
    /// given up, and the failure is handed back.
    pub fn absorb(self, outcome: FetchOutcome) -> (r: Result<FeedAggregator, FetchError>)
        ensures
            match outcome {
                FetchOutcome::Feed(feed) => r matches Ok(next) && next@ == self@.insert(
                    feed.id@,
                    feed@,
                ),
                FetchOutcome::Skip => r matches Ok(next) && next@ == self@,
                FetchOutcome::HardFailure(error) => r == Err::<FeedAggregator, FetchError>(error),
            },
    {
        match outcome {
            FetchOutcome::Feed(feed) => Ok(FeedAggregator { store: self.store.insert(feed) }),
            FetchOutcome::Skip => Ok(self),
            FetchOutcome::HardFailure(error) => Err(error),
        }
    }

    /// Ends a run that has not failed, and publishes what was gathered.
    pub fn finish(self) -> (state: FeedState)
        ensures
            state@ == self@,
    {
        FeedState { feeds: Arc::new(self.store) }
    }
}

/// The snapshot of one aggregation run: every feed that was fetched and
/// parsed, under its identity. It is built once and never changes; copies
/// share the same feeds.
#[derive(Clone)]
pub struct FeedState {
    feeds: Arc<FeedStore>,
}

impl View for FeedState {
    type V = Map<Seq<char>, FeedView>;

    closed spec fn view(&self) -> Map<Seq<char>, FeedView> {
        (*self.feeds)@
    }
}

impl FeedState {
    /// Builds the snapshot from the outcomes of all fetches, in the order in
    /// which they completed. The run is all or nothing: if any outcome is a
    /// hard failure, the first of them is the error and there is no
    /// snapshot; else the snapshot is `store_after` of the outcomes.
    pub fn new(outcomes: Vec<FetchOutcome>) -> (r: Result<FeedState, FetchError>)
        ensures
            (exists|i: int| 0 <= i < outcomes@.len() && (#[trigger] outcomes@[i]) is HardFailure)
                ==> r is Err,
            match r {
                Ok(state) => no_failure(outcomes@) && state@ == store_after(outcomes@),
                Err(error) => exists|i: int|
                    is_first_failure(outcomes@, i) && outcomes@[i] == FetchOutcome::HardFailure(
                        error,
                    ),
            },
    {
        let ghost all = outcomes@;
        let mut aggregator = FeedAggregator::new();
        for outcome in it: outcomes.into_iter()
            invariant
                it.seq() == all,
                aggregator@ == store_after(all.take(it.index() as int)),
                no_failure(all.take(it.index() as int)),
        {
            let ghost i = it.index() as int;
            proof {
                assert(all.take(i + 1).drop_last() =~= all.take(i));
                assert(all.take(i + 1).last() == outcome);
            }
            match aggregator.absorb(outcome) {
                Ok(next) => {
                    aggregator = next;
                    proof {
                        assert forall|k: int| 0 <= k < i + 1 implies !((#[trigger] all.take(
                            i + 1,
                        )[k]) is HardFailure) by {
                            if k < i {
                                assert(all.take(i)[k] == all[k]);
                            }
                        }
                    }
                },
                Err(error) => {
                    proof {
                        assert(is_first_failure(all, i));
                    }
                    return Err(error);
                },
            }
        }
        proof {
            assert(all.take(all.len() as int) =~= all);
        }
        Ok(aggregator.finish())
    }

    /// How many feeds the snapshot holds.
    pub fn len(&self) -> (n: usize)
        ensures
            self@.dom().finite(),
            n == self@.len(),
    {
        self.feeds.len()
    }

    /// Whether the snapshot holds no feed.
    pub fn is_empty(&self) -> (r: bool)
        ensures
            r == (self@ == Map::<Seq<char>, FeedView>::empty()),
    {
        self.feeds.is_empty()
    }

    /// The feed under the identity `id`, if the snapshot holds one.
    pub fn get(&self, id: &str) -> (r: Option<&Feed>)
        ensures
            match r {
                Some(feed) => self@.contains_pair(id@, feed@),
                None => !self@.contains_key(id@),
            },
    {
        self.feeds.get(id)
    }

    /// The window query at a given instant: for each feed that has an entry
    /// updated within the last `hours` hours before `now`, the feed and
    /// those entries. The entries of a feed ascend by their `updated`
    /// instants; the feeds ascend by identity.
    pub fn last_hours_at(&self, now: &Timestamp, hours: usize) -> (answer: Vec<(Feed, Vec<Entry>)>)
        ensures
            is_window_answer(self@, *now, hours as nat, answer_view(answer@)),
    {
        self.feeds.window(now, hours)
    }

    /// The window query at the present instant: reads the clock once, and
    /// answers as `last_hours_at` does for the instant read.
    pub fn last_hours(&self, hours: usize) -> (answer: Vec<(Feed, Vec<Entry>)>)
        ensures
            exists|now: Timestamp| is_window_answer(self@, now, hours as nat, answer_view(answer@)),
    {
        let now = current_time();
        self.last_hours_at(&now, hours)
    }
}

} // verus!
