//! The mapping from feed identity to feed.

use vstd::prelude::*;
use crate::model::{Entry, Feed, FeedView};
use crate::query::{answer_view, is_window_answer, window_over};
use crate::time::Timestamp;

verus! {

/// No two feeds of the list report the same identity.
pub open spec fn distinct_identities(feeds: Seq<Feed>) -> bool {
    forall|i: int, j: int| 0 <= i < j < feeds.len() ==> feeds[i].id@ != feeds[j].id@
}

/// Some feed of the list reports the identity `id`.
pub open spec fn holds_identity(feeds: Seq<Feed>, id: Seq<char>) -> bool {
    exists|i: int| 0 <= i < feeds.len() && feeds[i].id@ == id
}

/// Where in the list a feed with the identity `id` stands.
pub open spec fn position_of(feeds: Seq<Feed>, id: Seq<char>) -> int {
    choose|i: int| 0 <= i < feeds.len() && feeds[i].id@ == id
}

/// The mapping that a list of feeds stands for.
pub open spec fn mapping_of(feeds: Seq<Feed>) -> Map<Seq<char>, FeedView> {
    Map::new(|id: Seq<char>| holds_identity(feeds, id), |id: Seq<char>| feeds[position_of(feeds, id)]@)
}

/// In a list without repeated identities, each feed is what the mapping
/// holds under its identity.
pub proof fn lemma_mapping_at(feeds: Seq<Feed>, i: int)
    requires
        distinct_identities(feeds),
        0 <= i < feeds.len(),
    ensures
        mapping_of(feeds).contains_key(feeds[i].id@),
        mapping_of(feeds)[feeds[i].id@] == feeds[i]@,
        position_of(feeds, feeds[i].id@) == i,
{
    let id = feeds[i].id@;
    assert(holds_identity(feeds, id));
    let p = position_of(feeds, id);
    assert(p == i) by {
        if p < i {
            assert(feeds[p].id@ != feeds[i].id@);
        } else if i < p {
            assert(feeds[i].id@ != feeds[p].id@);
        }
    }
}

/// Appending a feed with a new identity adds one pair to the mapping.
pub proof fn lemma_mapping_push(feeds: Seq<Feed>, feed: Feed)
    requires
        distinct_identities(feeds),
        !holds_identity(feeds, feed.id@),
    ensures
        distinct_identities(feeds.push(feed)),
        mapping_of(feeds.push(feed)) == mapping_of(feeds).insert(feed.id@, feed@),
{
    let after = feeds.push(feed);
    assert(distinct_identities(after)) by {
        assert forall|i: int, j: int| 0 <= i < j < after.len() implies after[i].id@
            != after[j].id@ by {
            if j == feeds.len() {
                assert(feeds[i].id@ == after[i].id@);
            }
        }
    }
    assert forall|id: Seq<char>| #[trigger]
        mapping_of(after).contains_key(id) <==> mapping_of(feeds).insert(
            feed.id@,
            feed@,
        ).contains_key(id) by {
        if holds_identity(feeds, id) {
            let i = position_of(feeds, id);
            assert(after[i].id@ == id);
        }
        if id == feed.id@ {
            assert(after[feeds.len() as int].id@ == id);
        }
        if holds_identity(after, id) {
            let i = position_of(after, id);
            if i < feeds.len() {
                assert(feeds[i].id@ == id);
            }
        }
    }
    assert forall|id: Seq<char>| #[trigger]
        mapping_of(after).contains_key(id) implies mapping_of(after)[id] == mapping_of(
            feeds,
        ).insert(feed.id@, feed@)[id] by {
        let i = position_of(after, id);
        lemma_mapping_at(after, i);
        if i < feeds.len() {
            lemma_mapping_at(feeds, i);
        }
    }
    assert(mapping_of(after) =~= mapping_of(feeds).insert(feed.id@, feed@));
}

/// Replacing a feed by one of the same identity replaces its pair in the mapping.
pub proof fn lemma_mapping_update(feeds: Seq<Feed>, at: int, feed: Feed)
    requires
        distinct_identities(feeds),
        0 <= at < feeds.len(),
        feeds[at].id@ == feed.id@,
    ensures
        distinct_identities(feeds.update(at, feed)),
        mapping_of(feeds.update(at, feed)) == mapping_of(feeds).insert(feed.id@, feed@),
{
    let after = feeds.update(at, feed);
    assert(distinct_identities(after)) by {
        assert forall|i: int, j: int| 0 <= i < j < after.len() implies after[i].id@
            != after[j].id@ by {
            assert(after[i].id@ == feeds[i].id@);
            assert(after[j].id@ == feeds[j].id@);
        }
    }
    assert forall|id: Seq<char>| #[trigger]
        mapping_of(after).contains_key(id) <==> mapping_of(feeds).insert(
            feed.id@,
            feed@,
        ).contains_key(id) by {
        if holds_identity(feeds, id) {
            let i = position_of(feeds, id);
            assert(after[i].id@ == id);
        }
        if id == feed.id@ {
            assert(after[at].id@ == id);
        }
        if holds_identity(after, id) {
            let i = position_of(after, id);
            assert(feeds[i].id@ == id);
        }
    }
    assert forall|id: Seq<char>| #[trigger]
        mapping_of(after).contains_key(id) implies mapping_of(after)[id] == mapping_of(
            feeds,
        ).insert(feed.id@, feed@)[id] by {
        let i = position_of(after, id);
        lemma_mapping_at(after, i);
        lemma_mapping_at(feeds, i);
    }
    assert(mapping_of(after) =~= mapping_of(feeds).insert(feed.id@, feed@));
}

/// A list without repeated identities stands for a finite mapping with as
/// many pairs as the list has feeds.
pub proof fn lemma_mapping_len(feeds: Seq<Feed>)
    requires
        distinct_identities(feeds),
    ensures
        mapping_of(feeds).dom().finite(),
        mapping_of(feeds).len() == feeds.len(),
    decreases feeds.len(),
{
    if feeds.len() == 0 {
        assert(mapping_of(feeds) =~= Map::empty());
    } else {
        let front = feeds.drop_last();
        let last = feeds.last();
        assert(distinct_identities(front));
        assert(!holds_identity(front, last.id@)) by {
            if holds_identity(front, last.id@) {
                let i = position_of(front, last.id@);
                assert(feeds[i].id@ != feeds[feeds.len() - 1].id@);
            }
        }
        lemma_mapping_len(front);
        lemma_mapping_push(front, last);
        assert(front.push(last) =~= feeds);
        assert(!mapping_of(front).contains_key(last.id@));
    }
}

/// An identity-keyed collection of feeds. Under each identity it holds at
/// most one feed: the one inserted last.
pub struct FeedStore {
    feeds: Vec<Feed>,
}

impl View for FeedStore {
    type V = Map<Seq<char>, FeedView>;

    closed spec fn view(&self) -> Map<Seq<char>, FeedView> {
        mapping_of(self.feeds@)
    }
}

impl FeedStore {
    #[verifier::type_invariant]
    spec fn well_formed(&self) -> bool {
        distinct_identities(self.feeds@)
    }

    /// The store without any feed.
    pub fn new() -> (store: FeedStore)
        ensures
            store@ == Map::<Seq<char>, FeedView>::empty(),
    {
        let store = FeedStore { feeds: Vec::new() };
        assert(store@ =~= Map::<Seq<char>, FeedView>::empty());
        store
    }

    /// How many feeds the store holds.
    pub fn len(&self) -> (n: usize)
        ensures
            self@.dom().finite(),
            n == self@.len(),
    {
        proof {
            use_type_invariant(self);
            lemma_mapping_len(self.feeds@);
        }
        self.feeds.len()
    }

    /// Whether the store holds no feed.
    pub fn is_empty(&self) -> (r: bool)
        ensures
            r == (self@ == Map::<Seq<char>, FeedView>::empty()),
    {
        proof {
            use_type_invariant(self);
            lemma_mapping_len(self.feeds@);
            if self.feeds@.len() == 0 {
                assert(self@ =~= Map::<Seq<char>, FeedView>::empty());
            }
        }
        self.feeds.len() == 0
    }

    /// Where the feed with the identity `id` stands, if the store holds one.
    fn find(&self, id: &String) -> (r: Option<usize>)
        ensures
            match r {
                Some(i) => i < self.feeds@.len() && self.feeds@[i as int].id@ == id@,
                None => !holds_identity(self.feeds@, id@),
            },
    {
        let mut i: usize = 0;
        while i < self.feeds.len()
            invariant
                i <= self.feeds@.len(),
                forall|k: int| 0 <= k < i ==> self.feeds@[k].id@ != id@,
            decreases self.feeds@.len() - i,
        {
            if self.feeds[i].id == *id {
                return Some(i);
            }
            i += 1;
        }
        None
    }

    /// The feed under the identity `id`, if the store holds one.
    pub fn get(&self, id: &str) -> (r: Option<&Feed>)
        ensures
            match r {
                Some(feed) => self@.contains_pair(id@, feed@),
                None => !self@.contains_key(id@),
            },
    {
        proof {
            use_type_invariant(self);
        }
        let key = id.to_owned();
        match self.find(&key) {
            Some(i) => {
                proof {
                    lemma_mapping_at(self.feeds@, i as int);
                }
                Some(&self.feeds[i])
            },
            None => None,
        }
    }

    /// The store with `feed` put under its identity. A feed that the store
    /// held under that identity is replaced; every other feed stays.
    pub fn insert(self, feed: Feed) -> (store: FeedStore)
        ensures
            store@ == self@.insert(feed.id@, feed@),
    {
        proof {
            use_type_invariant(&self);
        }
        let found = self.find(&feed.id);
        let mut feeds = self.feeds;
        match found {
            Some(i) => {
                proof {
                    lemma_mapping_update(feeds@, i as int, feed);
                }
                feeds.set(i, feed);
            },
            None => {
                proof {
                    lemma_mapping_push(feeds@, feed);
                }
                feeds.push(feed);
            },
        }
        FeedStore { feeds }
    }

    /// The window query over the feeds of the store, at the instant `now`.
    pub fn window(&self, now: &Timestamp, hours: usize) -> (answer: Vec<(Feed, Vec<Entry>)>)
        ensures
            is_window_answer(self@, *now, hours as nat, answer_view(answer@)),
    {
        proof {
            use_type_invariant(self);
        }
        window_over(&self.feeds, now, hours)
    }
}

} // verus!
