use feeds::fetch::{FetchError, FetchOutcome, TransportStage};
use feeds::model::{copy_entries, copy_image, copy_text, copy_texts, Entry, Feed, Image};
use feeds::query::{entry_is_recent, recent_sorted, window_over};
use feeds::state::{FeedAggregator, FeedState};
use feeds::store::FeedStore;
use feeds::time::Timestamp;

const NOW: i64 = 1_700_000_000;
const HOUR: i64 = 3600;

fn now() -> Timestamp {
    Timestamp::new(NOW, 0)
}

fn entry(id: &str, updated: Option<i64>) -> Entry {
    Entry {
        id: id.to_string(),
        title: Some(format!("title of {}", id)),
        links: vec![format!("https://example.org/{}", id)],
        updated: updated.map(|seconds| Timestamp::new(seconds, 0)),
        content: None,
    }
}

fn feed(id: &str, entries: Vec<Entry>) -> Feed {
    Feed { id: id.to_string(), title: Some(format!("feed {}", id)), icon: None, logo: None, entries }
}

fn ids(entries: &[Entry]) -> Vec<String> {
    entries.iter().map(|e| e.id.clone()).collect()
}

fn feed_ids(answer: &[(Feed, Vec<Entry>)]) -> Vec<String> {
    answer.iter().map(|(f, _)| f.id.clone()).collect()
}

fn state_of(feeds: Vec<Feed>) -> FeedState {
    FeedState::new(feeds.into_iter().map(FetchOutcome::Feed).collect()).unwrap()
}

fn transport_failure(url: &str) -> FetchError {
    FetchError::Transport { url: url.to_string(), stage: TransportStage::Request }
}

#[test]
fn entry_without_updated_is_never_recent() {
    let e = entry("e", None);
    assert!(!entry_is_recent(&e, &now(), 0));
    assert!(!entry_is_recent(&e, &now(), 24));
    assert!(!entry_is_recent(&e, &now(), usize::MAX));
}

#[test]
fn entry_is_recent_within_the_window_only() {
    assert!(entry_is_recent(&entry("e", Some(NOW - HOUR)), &now(), 24));
    assert!(!entry_is_recent(&entry("e", Some(NOW - 30 * HOUR)), &now(), 24));
    assert!(!entry_is_recent(&entry("e", Some(NOW - 24 * HOUR)), &now(), 24));
    assert!(entry_is_recent(&entry("e", Some(NOW - 24 * HOUR + 1)), &now(), 24));
    assert!(entry_is_recent(&entry("e", Some(NOW + 1000 * HOUR)), &now(), 24));
}

#[test]
fn recent_sorted_filters_and_sorts() {
    let entries = vec![
        entry("c", Some(NOW - HOUR)),
        entry("old", Some(NOW - 100 * HOUR)),
        entry("a", Some(NOW - 3 * HOUR)),
        entry("none", None),
        entry("b", Some(NOW - 2 * HOUR)),
        entry("future", Some(NOW + HOUR)),
    ];
    let picked = recent_sorted(&entries, &now(), 24);
    assert_eq!(ids(&picked), vec!["a", "b", "c", "future"]);
    assert_eq!(picked[0], entries[2]);
    assert_eq!(picked[3], entries[5]);
}

#[test]
fn recent_sorted_keeps_delivery_order_among_equal_instants() {
    let entries = vec![
        entry("x", Some(NOW - HOUR)),
        entry("y", Some(NOW - 2 * HOUR)),
        entry("z", Some(NOW - HOUR)),
        entry("w", Some(NOW - HOUR)),
    ];
    let picked = recent_sorted(&entries, &now(), 24);
    assert_eq!(ids(&picked), vec!["y", "x", "z", "w"]);
}

#[test]
fn recent_sorted_keeps_repeated_entries() {
    let entries = vec![entry("x", Some(NOW - HOUR)), entry("x", Some(NOW - HOUR))];
    assert_eq!(recent_sorted(&entries, &now(), 1).len(), 0);
    assert_eq!(recent_sorted(&entries, &now(), 2).len(), 2);
}

#[test]
fn recent_sorted_orders_by_nanoseconds_too() {
    let mut late = entry("late", Some(NOW));
    late.updated = Some(Timestamp::new(NOW, 2));
    let mut early = entry("early", Some(NOW));
    early.updated = Some(Timestamp::new(NOW, 1));
    let picked = recent_sorted(&vec![late, early], &now(), 1);
    assert_eq!(ids(&picked), vec!["early", "late"]);
}

#[test]
fn window_query_of_two_feeds() {
    let a = feed("A", vec![entry("a1", Some(NOW - HOUR)), entry("a30", Some(NOW - 30 * HOUR))]);
    let b = feed("B", vec![entry("b200", Some(NOW - 200 * HOUR)), entry("b300", Some(NOW - 300 * HOUR))]);
    let state = state_of(vec![a.clone(), b]);
    let answer = state.last_hours_at(&now(), 24);
    assert_eq!(answer, vec![(a, vec![entry("a1", Some(NOW - HOUR))])]);
}

#[test]
fn window_query_omits_feeds_without_recent_entries() {
    let state = state_of(vec![
        feed("empty", vec![]),
        feed("undated", vec![entry("u", None)]),
        feed("old", vec![entry("o", Some(NOW - 1000 * HOUR))]),
        feed("fresh", vec![entry("f", Some(NOW - 1))]),
    ]);
    let answer = state.last_hours_at(&now(), 24);
    assert_eq!(feed_ids(&answer), vec!["fresh"]);
    for (_, entries) in answer.iter() {
        assert!(!entries.is_empty());
    }
    assert_eq!(state.last_hours_at(&now(), 0), vec![]);
}

#[test]
fn window_query_excludes_undated_entries_for_every_window() {
    let state = state_of(vec![feed(
        "F",
        vec![entry("dated", Some(NOW - HOUR)), entry("undated", None)],
    )]);
    for hours in [0usize, 1, 2, 24, 1_000_000, usize::MAX] {
        for (_, entries) in state.last_hours_at(&now(), hours) {
            for e in entries {
                assert!(e.updated.is_some());
                assert_ne!(e.id, "undated");
            }
        }
    }
    let all = state.last_hours_at(&now(), usize::MAX);
    assert_eq!(ids(&all[0].1), vec!["dated"]);
}

#[test]
fn window_query_is_sorted_by_identity_then_by_instant() {
    let state = state_of(vec![
        feed("m", vec![entry("m2", Some(NOW - 2)), entry("m1", Some(NOW - 5))]),
        feed("b", vec![entry("b1", Some(NOW - 1))]),
        feed("z", vec![entry("z3", Some(NOW - 1)), entry("z1", Some(NOW - 9)), entry("z2", Some(NOW - 4))]),
        feed("B", vec![entry("B1", Some(NOW - 1))]),
        feed("a", vec![entry("a1", Some(NOW - 1))]),
    ]);
    let answer = state.last_hours_at(&now(), 1);
    assert_eq!(feed_ids(&answer), vec!["B", "a", "b", "m", "z"]);
    assert_eq!(ids(&answer[3].1), vec!["m1", "m2"]);
    assert_eq!(ids(&answer[4].1), vec!["z1", "z2", "z3"]);
    for pair in answer.windows(2) {
        assert!(pair[0].0.id < pair[1].0.id);
    }
    for (_, entries) in answer.iter() {
        for pair in entries.windows(2) {
            let x = pair[0].updated.unwrap();
            let y = pair[1].updated.unwrap();
            assert!(!x.is_later_than(&y));
        }
    }
}

#[test]
fn window_query_does_not_depend_on_completion_order() {
    let feeds = vec![
        feed("one", vec![entry("1", Some(NOW - 10))]),
        feed("two", vec![entry("2", Some(NOW - 20)), entry("3", Some(NOW - 30))]),
        feed("three", vec![entry("4", None)]),
        feed("four", vec![entry("5", Some(NOW - 50))]),
    ];
    let forward = state_of(feeds.clone());
    let mut reversed = feeds.clone();
    reversed.reverse();
    let backward = state_of(reversed);
    let mut rotated = feeds;
    rotated.rotate_left(2);
    let around = state_of(rotated);
    let expected = forward.last_hours_at(&now(), 1);
    assert_eq!(feed_ids(&expected), vec!["four", "one", "two"]);
    assert_eq!(backward.last_hours_at(&now(), 1), expected);
    assert_eq!(around.last_hours_at(&now(), 1), expected);
}

#[test]
fn window_query_returns_the_stored_feed_unchanged() {
    let f = feed("F", vec![entry("old", Some(NOW - 90 * HOUR)), entry("new", Some(NOW - HOUR)), entry("none", None)]);
    let state = state_of(vec![f.clone()]);
    let answer = state.last_hours_at(&now(), 24);
    assert_eq!(answer.len(), 1);
    assert_eq!(answer[0].0, f);
    assert_eq!(answer[0].1, vec![f.entries[1].clone()]);
}

#[test]
fn window_over_a_list_of_feeds() {
    let feeds = vec![
        feed("b", vec![entry("b1", Some(NOW - 1))]),
        feed("a", vec![entry("a1", Some(NOW - 1))]),
    ];
    let answer = window_over(&feeds, &now(), 1);
    assert_eq!(feed_ids(&answer), vec!["a", "b"]);
    assert_eq!(window_over(&Vec::new(), &now(), 1), vec![]);
}

#[test]
fn last_hours_reads_the_clock() {
    let present = chrono::Utc::now().timestamp();
    let state = state_of(vec![
        feed("A", vec![entry("a1", Some(present - HOUR)), entry("a30", Some(present - 30 * HOUR))]),
        feed("B", vec![entry("b200", Some(present - 200 * HOUR))]),
    ]);
    let answer = state.last_hours(24);
    assert_eq!(feed_ids(&answer), vec!["A"]);
    assert_eq!(ids(&answer[0].1), vec!["a1"]);
    let wide = state.last_hours(5 * 24);
    assert_eq!(feed_ids(&wide), vec!["A"]);
    assert_eq!(ids(&wide[0].1), vec!["a30", "a1"]);
    let widest = state.last_hours(300);
    assert_eq!(feed_ids(&widest), vec!["A", "B"]);
}

#[test]
fn identity_collision_leaves_one_feed() {
    let first = feed("X", vec![entry("from-first", Some(NOW))]);
    let second = feed("X", vec![entry("from-second", Some(NOW))]);
    let state = FeedState::new(vec![
        FetchOutcome::Feed(first.clone()),
        FetchOutcome::Feed(second.clone()),
    ])
    .unwrap();
    assert_eq!(state.len(), 1);
    let held = state.get("X").unwrap();
    assert!(*held == first || *held == second);
    assert_eq!(*held, second);
    let other = FeedState::new(vec![FetchOutcome::Feed(second), FetchOutcome::Feed(first.clone())])
        .unwrap();
    assert_eq!(other.len(), 1);
    assert_eq!(*other.get("X").unwrap(), first);
}

#[test]
fn single_source_round_trips_into_the_state() {
    let f = feed("only", vec![entry("1", Some(NOW)), entry("2", None)]);
    let state = FeedState::new(vec![FetchOutcome::Feed(f.clone())]).unwrap();
    assert_eq!(state.len(), 1);
    let held = state.get("only").unwrap();
    assert_eq!(held.id, "only");
    assert_eq!(held.title, f.title);
    assert_eq!(held.entries.len(), 2);
    assert_eq!(*held, f);
}

#[test]
fn one_hard_failure_fails_the_whole_run() {
    for at in 0..4 {
        let mut outcomes: Vec<FetchOutcome> = (0..3)
            .map(|i| FetchOutcome::Feed(feed(&format!("f{}", i), vec![entry("e", Some(NOW))])))
            .collect();
        outcomes.insert(at, FetchOutcome::HardFailure(transport_failure("https://bad.example/")));
        match FeedState::new(outcomes) {
            Ok(_) => panic!("the run must fail"),
            Err(error) => assert_eq!(error, transport_failure("https://bad.example/")),
        }
    }
}

#[test]
fn the_first_hard_failure_is_the_error() {
    let outcomes = vec![
        FetchOutcome::Skip,
        FetchOutcome::HardFailure(FetchError::Parse { url: "u1".to_string(), body: "b".to_string() }),
        FetchOutcome::HardFailure(transport_failure("u2")),
        FetchOutcome::HardFailure(FetchError::Join),
    ];
    match FeedState::new(outcomes) {
        Ok(_) => panic!("the run must fail"),
        Err(error) => {
            assert_eq!(error, FetchError::Parse { url: "u1".to_string(), body: "b".to_string() })
        }
    }
    match FeedState::new(vec![FetchOutcome::HardFailure(FetchError::Join)]) {
        Ok(_) => panic!("the run must fail"),
        Err(error) => assert_eq!(error, FetchError::Join),
    }
}

#[test]
fn skips_add_nothing() {
    let state = FeedState::new(vec![FetchOutcome::Skip, FetchOutcome::Skip]).unwrap();
    assert!(state.is_empty());
    assert_eq!(state.len(), 0);
    assert_eq!(state.last_hours_at(&now(), 24), vec![]);
    let empty = FeedState::new(Vec::new()).unwrap();
    assert!(empty.is_empty());
    let mixed = FeedState::new(vec![
        FetchOutcome::Skip,
        FetchOutcome::Feed(feed("a", vec![])),
        FetchOutcome::Skip,
    ])
    .unwrap();
    assert_eq!(mixed.len(), 1);
    assert!(!mixed.is_empty());
    assert!(mixed.get("a").is_some());
    assert!(mixed.get("b").is_none());
}

#[test]
fn copies_of_the_state_share_the_feeds() {
    let state = state_of(vec![feed("a", vec![entry("1", Some(NOW - 1))])]);
    let copy = state.clone();
    assert_eq!(copy.len(), 1);
    assert_eq!(copy.last_hours_at(&now(), 1), state.last_hours_at(&now(), 1));
}

#[test]
fn aggregator_absorbs_outcomes_one_by_one() {
    let aggregator = FeedAggregator::new();
    let aggregator = aggregator.absorb(FetchOutcome::Feed(feed("a", vec![]))).ok().unwrap();
    let aggregator = aggregator.absorb(FetchOutcome::Skip).ok().unwrap();
    let aggregator = aggregator.absorb(FetchOutcome::Feed(feed("b", vec![]))).ok().unwrap();
    match aggregator.absorb(FetchOutcome::HardFailure(FetchError::Join)) {
        Ok(_) => panic!("a hard failure ends the run"),
        Err(error) => assert_eq!(error, FetchError::Join),
    }
    let again = FeedAggregator::new().absorb(FetchOutcome::Feed(feed("a", vec![]))).ok().unwrap();
    let state = again.finish();
    assert_eq!(state.len(), 1);
    assert_eq!(*state.get("a").unwrap(), feed("a", vec![]));
}

#[test]
fn store_insert_replaces_under_the_same_identity() {
    let store = FeedStore::new();
    assert!(store.is_empty());
    assert_eq!(store.len(), 0);
    let store = store.insert(feed("a", vec![]));
    let store = store.insert(feed("b", vec![entry("b1", None)]));
    let store = store.insert(feed("a", vec![entry("a1", None)]));
    assert_eq!(store.len(), 2);
    assert!(!store.is_empty());
    assert_eq!(*store.get("a").unwrap(), feed("a", vec![entry("a1", None)]));
    assert_eq!(*store.get("b").unwrap(), feed("b", vec![entry("b1", None)]));
    assert!(store.get("c").is_none());
    assert!(store.get("").is_none());
    let answer = store.window(&now(), 1);
    assert_eq!(answer, vec![]);
}

#[test]
fn copies_equal_what_they_were_made_from() {
    let e = entry("e", Some(NOW));
    assert_eq!(e.clone(), e);
    let f = feed("f", vec![e.clone(), entry("g", None)]);
    assert_eq!(f.clone(), f);
    assert_eq!(copy_text(&Some("t".to_string())), Some("t".to_string()));
    assert_eq!(copy_text(&None), None);
    assert_eq!(copy_texts(&vec!["a".to_string(), "b".to_string()]), vec!["a".to_string(), "b".to_string()]);
    assert_eq!(copy_entries(&f.entries), f.entries);
}

#[test]
fn first_link_and_image() {
    let mut e = entry("e", None);
    assert_eq!(e.first_link(), Some(&"https://example.org/e".to_string()));
    e.links.push("second".to_string());
    assert_eq!(e.first_link(), Some(&"https://example.org/e".to_string()));
    e.links.clear();
    assert_eq!(e.first_link(), None);

    let logo = Image { uri: "logo".to_string(), link: Some("home".to_string()) };
    let icon = Image { uri: "icon".to_string(), link: None };
    let mut f = feed("f", vec![]);
    assert_eq!(f.image(), None);
    f.logo = Some(logo.clone());
    assert_eq!(f.image(), Some(&logo));
    f.icon = Some(icon.clone());
    assert_eq!(f.image(), Some(&icon));
    f.logo = None;
    assert_eq!(f.image(), Some(&icon));
    assert_eq!(copy_image(&Some(logo.clone())), Some(logo));
    assert_eq!(copy_image(&None), None);
}
