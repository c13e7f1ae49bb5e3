use rreader::entry::Entry;
use rreader::translate::{
    apply_translations, clean_response, collect_titles, combine_results, ingest_response,
    lookup, plan_translation, translation_prompt, TranslationCache, TRANSLATION_INSTRUCTION,
};

fn entry_with_title(title: &str) -> Entry {
    Entry {
        id: 1,
        source_name: "s".to_string(),
        pub_date: String::new(),
        timestamp: 1,
        url: "http://x".to_string(),
        title: title.to_string(),
        title_original: None,
    }
}

#[test]
fn loaded_cache_keeps_first_of_duplicate_keys() {
    let cache = TranslationCache::from_pairs(vec![
        ("a".to_string(), "x".to_string()),
        ("a".to_string(), "y".to_string()),
        ("b".to_string(), "z".to_string()),
    ]);
    assert_eq!(lookup(&cache.pairs, &"a".to_string()), Some("x".to_string()));
    assert_eq!(lookup(&cache.pairs, &"b".to_string()), Some("z".to_string()));
    assert_eq!(lookup(&cache.pairs, &"c".to_string()), None);
}

#[test]
fn plan_splits_cached_and_uncached_in_order() {
    let cache = TranslationCache::from_pairs(vec![("known".to_string(), "bekannt".to_string())]);
    let titles = vec!["known".to_string(), "new one".to_string(), "another".to_string()];
    let plan = plan_translation(&titles, &cache);
    assert_eq!(plan.cached, vec![("known".to_string(), "bekannt".to_string())]);
    assert_eq!(plan.uncached, vec!["new one".to_string(), "another".to_string()]);
}

#[test]
fn all_cached_plan_needs_no_network() {
    let cache = TranslationCache::from_pairs(vec![("t".to_string(), "u".to_string())]);
    let plan = plan_translation(&vec!["t".to_string()], &cache);
    assert!(plan.uncached.is_empty());
}

#[test]
fn collect_titles_prefers_the_captured_original() {
    let mut translated = entry_with_title("표시된 제목");
    translated.title_original = Some("Original headline".to_string());
    let plain = entry_with_title("Untranslated");
    let titles = collect_titles(&vec![translated, plain]);
    assert_eq!(titles, vec!["Original headline".to_string(), "Untranslated".to_string()]);
}

#[test]
fn first_application_captures_the_original() {
    let mut entries = vec![entry_with_title("Hello")];
    let map = vec![("Hello".to_string(), "안녕".to_string())];
    apply_translations(&mut entries, &map);
    assert_eq!(entries[0].title, "안녕");
    assert_eq!(entries[0].title_original, Some("Hello".to_string()));
}

#[test]
fn retrigger_resubmits_the_original_not_the_translation() {
    let mut entries = vec![entry_with_title("Hello")];
    apply_translations(&mut entries, &vec![("Hello".to_string(), "안녕".to_string())]);
    // What a re-trigger would submit is still the original text.
    let titles = collect_titles(&entries);
    assert_eq!(titles, vec!["Hello".to_string()]);
    // A second run keyed by the original replaces the display only.
    apply_translations(&mut entries, &vec![("Hello".to_string(), "다시".to_string())]);
    assert_eq!(entries[0].title, "다시");
    assert_eq!(entries[0].title_original, Some("Hello".to_string()));
    assert_eq!(collect_titles(&entries), vec!["Hello".to_string()]);
}

#[test]
fn untranslated_titles_stay_untouched() {
    let mut entries = vec![entry_with_title("No match")];
    apply_translations(&mut entries, &vec![("Other".to_string(), "x".to_string())]);
    assert_eq!(entries[0].title, "No match");
    assert_eq!(entries[0].title_original, None);
}

#[test]
fn clean_response_strips_code_fences() {
    assert_eq!(clean_response("  ```json\n{\"a\":\"b\"}\n```  "), "{\"a\":\"b\"}");
    assert_eq!(clean_response("```{\"a\":1}```"), "{\"a\":1}");
    assert_eq!(clean_response(" plain "), "plain");
}

#[test]
fn prompt_encloses_titles_as_json() {
    let prompt = translation_prompt(&vec!["Hi".to_string(), "a\"b".to_string()]);
    let expected = format!("{}{}", TRANSLATION_INSTRUCTION, "{\"titles\":[\"Hi\",\"a\\\"b\"]}");
    assert_eq!(prompt, expected);
}

#[test]
fn ingest_merges_reply_into_cache_without_duplicate_keys() {
    let mut cache = TranslationCache::from_pairs(vec![(
        "old".to_string(),
        "alt".to_string(),
    )]);
    let reply = "```json\n{\"Hello\":\"안녕하세요\",\"old\":\"neu\"}\n```";
    let cached_part = vec![("old".to_string(), "alt".to_string())];
    let result = ingest_response(&mut cache, reply, &cached_part);
    // The fresh pairs come first and win a lookup on overlap.
    assert_eq!(lookup(&result, &"Hello".to_string()), Some("안녕하세요".to_string()));
    assert_eq!(lookup(&result, &"old".to_string()), Some("neu".to_string()));
    // The cache was upserted in place: still one pair per key.
    assert_eq!(lookup(&cache.pairs, &"old".to_string()), Some("neu".to_string()));
    assert_eq!(lookup(&cache.pairs, &"Hello".to_string()), Some("안녕하세요".to_string()));
    let keys: Vec<&String> = cache.pairs.iter().map(|p| &p.0).collect();
    let mut deduped = keys.clone();
    deduped.sort();
    deduped.dedup();
    assert_eq!(keys.len(), deduped.len());
}

#[test]
fn ingest_tolerates_a_titles_wrapper_object() {
    let mut cache = TranslationCache::new();
    let reply = "{\"titles\":{\"One\":\"하나\"}}";
    let result = ingest_response(&mut cache, reply, &vec![]);
    assert_eq!(lookup(&result, &"One".to_string()), Some("하나".to_string()));
}

#[test]
fn ingest_of_garbage_changes_nothing() {
    let mut cache = TranslationCache::from_pairs(vec![("k".to_string(), "v".to_string())]);
    let result = ingest_response(&mut cache, "not json at all", &vec![]);
    assert!(result.is_empty());
    assert_eq!(lookup(&cache.pairs, &"k".to_string()), Some("v".to_string()));
    assert_eq!(cache.pairs.len(), 1);
}

#[test]
fn combine_puts_fresh_pairs_first() {
    let fresh = vec![("a".to_string(), "1".to_string())];
    let cached = vec![("b".to_string(), "2".to_string())];
    let r = combine_results(&fresh, &cached);
    assert_eq!(r, vec![
        ("a".to_string(), "1".to_string()),
        ("b".to_string(), "2".to_string()),
    ]);
}

#[test]
fn prompt_escapes_control_characters() {
    let prompt = translation_prompt(&vec!["a\u{1}b".to_string()]);
    let expected = format!("{}{}", TRANSLATION_INSTRUCTION, "{\"titles\":[\"a\\u0001b\"]}");
    assert_eq!(prompt, expected);
}
