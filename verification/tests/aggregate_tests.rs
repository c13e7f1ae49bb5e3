use rreader::aggregate::{auto_refresh_due, load_decision, make_cache, merge_entries, merge_results, LoadAction, REFRESH_INTERVAL};
use rreader::entry::{CachedFeed, Entry, LoadingState};

fn entry(id: i64, source: &str, title: &str) -> Entry {
    Entry {
        id,
        source_name: source.to_string(),
        pub_date: String::new(),
        timestamp: id,
        url: format!("http://example/{}", id),
        title: title.to_string(),
        title_original: None,
    }
}

#[test]
fn merge_sorts_by_timestamp_descending() {
    let batches = vec![
        vec![entry(10, "a", "t10"), entry(30, "a", "t30")],
        vec![entry(20, "b", "t20")],
    ];
    let merged = merge_entries(&batches);
    let stamps: Vec<i64> = merged.iter().map(|e| e.timestamp).collect();
    assert_eq!(stamps, vec![30, 20, 10]);
    for w in stamps.windows(2) {
        assert!(w[0] >= w[1]);
    }
}

#[test]
fn merge_is_deterministic_across_runs() {
    let batches = vec![
        vec![entry(5, "a", "x"), entry(7, "a", "y"), entry(5, "a", "z")],
        vec![entry(7, "b", "w")],
    ];
    let first = merge_entries(&batches);
    let second = merge_entries(&batches);
    assert_eq!(first.len(), second.len());
    for (a, b) in first.iter().zip(second.iter()) {
        assert_eq!(a.id, b.id);
        assert_eq!(a.title, b.title);
        assert_eq!(a.source_name, b.source_name);
    }
}

#[test]
fn identical_timestamps_keep_exactly_one_entry() {
    let batches = vec![
        vec![entry(100, "first", "from first source")],
        vec![entry(100, "second", "from second source")],
    ];
    let merged = merge_entries(&batches);
    assert_eq!(merged.len(), 1);
    // Last write wins, deterministically, given the fixed source order.
    assert_eq!(merged[0].source_name, "second");
    assert_eq!(merged[0].title, "from second source");
}

#[test]
fn failed_sources_are_swallowed() {
    let results = vec![None, Some(vec![entry(3, "ok", "t")]), None];
    let merged = merge_results(&results);
    assert_eq!(merged.len(), 1);
    assert_eq!(merged[0].id, 3);
}

#[test]
fn all_sources_failed_yields_empty_success() {
    let results: Vec<Option<Vec<Entry>>> = vec![None, None];
    let merged = merge_results(&results);
    assert!(merged.is_empty());
}

#[test]
fn fresh_nonempty_cache_skips_network() {
    let now = 1_000_000i64;
    let cached = Some(CachedFeed { entries: vec![entry(1, "a", "t")], created_at: now - 119 });
    assert_eq!(load_decision(&cached, now), LoadAction::UseCache);
}

#[test]
fn stale_cache_fetches() {
    let now = 1_000_000i64;
    let cached = Some(CachedFeed { entries: vec![entry(1, "a", "t")], created_at: now - 200 });
    assert_eq!(load_decision(&cached, now), LoadAction::Fetch);
}

#[test]
fn empty_cache_fetches_even_if_fresh() {
    let now = 1_000_000i64;
    let cached = Some(CachedFeed { entries: vec![], created_at: now });
    assert_eq!(load_decision(&cached, now), LoadAction::Fetch);
}

#[test]
fn missing_cache_fetches() {
    assert_eq!(load_decision(&None, 42), LoadAction::Fetch);
}

#[test]
fn cache_boundary_is_exclusive() {
    let now = 1_000i64;
    let at_limit = Some(CachedFeed {
        entries: vec![entry(1, "a", "t")],
        created_at: now - REFRESH_INTERVAL,
    });
    assert_eq!(load_decision(&at_limit, now), LoadAction::Fetch);
}

#[test]
fn cache_written_only_after_nonempty_merge() {
    let empty: Vec<Entry> = vec![];
    assert!(make_cache(&empty, 7).is_none());
    let some = vec![entry(2, "a", "t")];
    let cached = make_cache(&some, 7).unwrap();
    assert_eq!(cached.created_at, 7);
    assert_eq!(cached.entries.len(), 1);
    assert_eq!(cached.entries[0].id, 2);
}

#[test]
fn auto_refresh_waits_for_idle_fetch() {
    let mut loading = LoadingState::idle();
    assert!(auto_refresh_due(REFRESH_INTERVAL, &loading));
    assert!(!auto_refresh_due(REFRESH_INTERVAL - 1, &loading));
    loading.start(3);
    assert!(!auto_refresh_due(REFRESH_INTERVAL + 50, &loading));
    loading.finish();
    assert!(auto_refresh_due(REFRESH_INTERVAL + 50, &loading));
}

#[test]
fn loading_state_progress_is_observable() {
    let mut l = LoadingState::idle();
    l.start(4);
    assert!(l.is_loading);
    assert_eq!(l.total, 4);
    l.progress(2);
    assert_eq!(l.current, 2);
    l.finish();
    assert!(!l.is_loading);
    assert_eq!(l.current, 2);
}
