use savant_core::error::PipelineError;
use savant_core::primitives::attribute::{Attribute, AttributeValue};
use savant_core::webserver::kvs::{
    del_attribute, del_attributes, filter_attributes, filter_keys, get_attribute, is_admitted,
    search_attributes, search_keys, set_attributes, time_to_live, KeyFilter, Kvs,
    MAX_PATTERN_GROUPS, MAX_PATTERN_LENGTH,
};
use std::time::{Duration, Instant};

fn wait(ms: u64) {
    let end = Instant::now() + Duration::from_millis(ms);
    while Instant::now() < end {
        std::hint::spin_loop();
    }
}

fn names(found: &[Attribute]) -> Vec<(String, String)> {
    let mut keys: Vec<(String, String)> =
        found.iter().map(|a| (a.namespace.clone(), a.name.clone())).collect();
    keys.sort();
    keys
}

fn key(ns: &str, name: &str) -> (String, String) {
    (ns.to_string(), name.to_string())
}

#[test]
fn test_kvs() {
    let kvs = Kvs::new();
    let attribute_set = vec![
        Attribute::persistent("abc", "xax", vec![], &None, false),
        Attribute::persistent("ghi", "yay", vec![], &None, false),
    ];
    set_attributes(&kvs, &attribute_set, None);
    let retrieved_all = search_attributes(&kvs, &None, &None).unwrap();
    assert_eq!(retrieved_all.len(), 2);
    let retrieved_abc = search_attributes(&kvs, &Some("abc".to_string()), &None).unwrap();
    assert_eq!(retrieved_abc.len(), 1);
    let retrieved_with_glob = search_attributes(&kvs, &None, &Some("?a?".to_string())).unwrap();
    assert_eq!(retrieved_with_glob.len(), 2);

    let ttl_attribute_set = vec![
        Attribute::persistent("def", "xax", vec![], &None, false),
        Attribute::persistent("jkl", "yay", vec![], &None, false),
    ];

    set_attributes(&kvs, &ttl_attribute_set, Some(10));
    let retrieved_all = search_attributes(&kvs, &None, &None).unwrap();
    assert_eq!(retrieved_all.len(), 4);
    wait(11);
    let retrieved_all = search_attributes(&kvs, &None, &None).unwrap();
    assert_eq!(retrieved_all.len(), 2);
    assert_eq!(names(&retrieved_all), vec![key("abc", "xax"), key("ghi", "yay")]);

    let abc_attribute = get_attribute(&kvs, "abc", "xax");
    assert_eq!(abc_attribute.as_ref().unwrap().name.as_str(), "xax");

    del_attributes(&kvs, &None, &None).unwrap();
    let retrieved_all = search_attributes(&kvs, &None, &None).unwrap();
    assert_eq!(retrieved_all.len(), 0);
}

#[test]
fn an_entry_with_a_ttl_is_there_before_it_is_over_and_gone_after() {
    let kvs = Kvs::new();
    set_attributes(
        &kvs,
        &vec![Attribute::persistent("ns", "short", vec![], &None, false)],
        Some(300),
    );
    set_attributes(
        &kvs,
        &vec![Attribute::persistent("ns", "long", vec![], &None, false)],
        Some(60_000),
    );
    assert!(get_attribute(&kvs, "ns", "short").is_some());
    wait(320);
    assert!(get_attribute(&kvs, "ns", "short").is_none());
    assert!(get_attribute(&kvs, "ns", "long").is_some());
    assert_eq!(search_keys(&kvs, &None, &None).unwrap(), vec![key("ns", "long")]);
}

#[test]
fn setting_again_overwrites_the_value_and_the_ttl() {
    let kvs = Kvs::new();
    let first = Attribute::persistent("ns", "n", vec![AttributeValue::Integer(1)], &None, false);
    let second = Attribute::persistent("ns", "n", vec![AttributeValue::Integer(2)], &None, false);
    set_attributes(&kvs, &vec![first], Some(100));
    set_attributes(&kvs, &vec![second.clone()], None);
    wait(120);
    assert_eq!(get_attribute(&kvs, "ns", "n"), Some(second));
}

#[test]
fn deleting_one_key_returns_what_it_held() {
    let kvs = Kvs::new();
    let a = Attribute::persistent("ns", "a", vec![AttributeValue::Boolean(true)], &Some("h"), true);
    set_attributes(&kvs, &vec![a.clone()], None);
    assert_eq!(get_attribute(&kvs, "ns", "b"), None);
    assert_eq!(del_attribute(&kvs, "ns", "b"), None);
    assert_eq!(del_attribute(&kvs, "ns", "a"), Some(a));
    assert_eq!(del_attribute(&kvs, "ns", "a"), None);
    assert_eq!(get_attribute(&kvs, "ns", "a"), None);
}

#[test]
fn deleting_by_glob_leaves_the_rest() {
    let kvs = Kvs::with_capacity(10);
    set_attributes(
        &kvs,
        &vec![
            Attribute::persistent("abc", "xax", vec![], &None, false),
            Attribute::persistent("abd", "yay", vec![], &None, false),
            Attribute::persistent("xyz", "yay", vec![], &None, false),
        ],
        None,
    );
    del_attributes(&kvs, &Some("ab*".to_string()), &Some("y?y".to_string())).unwrap();
    let mut keys = search_keys(&kvs, &None, &None).unwrap();
    keys.sort();
    assert_eq!(keys, vec![key("abc", "xax"), key("xyz", "yay")]);
}

#[test]
fn a_glob_that_does_not_compile_is_refused() {
    let kvs = Kvs::new();
    let bad = Some("[".to_string());
    assert_eq!(search_attributes(&kvs, &bad, &None).err(), Some(PipelineError::InvalidPattern));
    assert_eq!(search_attributes(&kvs, &None, &bad).err(), Some(PipelineError::InvalidPattern));
    assert_eq!(search_keys(&kvs, &bad, &None).err(), Some(PipelineError::InvalidPattern));
    assert_eq!(del_attributes(&kvs, &None, &bad), Err(PipelineError::InvalidPattern));
    assert!(matches!(KeyFilter::new(&bad, &None), Err(PipelineError::InvalidPattern)));
}

#[test]
fn a_filter_matches_both_parts_of_a_key() {
    let filter = KeyFilter::new(&Some("a*".to_string()), &Some("?a?".to_string())).unwrap();
    assert!(filter.matches("abc", "xax"));
    assert!(filter.matches("a", "yay"));
    assert!(!filter.matches("abc", "xaxx"));
    assert!(!filter.matches("bbc", "xax"));
    assert!(!filter.matches("bbc", "x"));
    let any = KeyFilter::new(&None, &None).unwrap();
    assert!(any.matches("anything", "at all"));
    let exact = KeyFilter::new(&Some("abc".to_string()), &None).unwrap();
    assert!(exact.matches("abc", ""));
    assert!(!exact.matches("abcd", ""));
}

#[test]
fn filtering_keeps_the_order_of_the_entries() {
    let entry = |ns: &str, name: &str| {
        (ns.to_string(), name.to_string(), Attribute::persistent(ns, name, vec![], &None, false))
    };
    let entries = vec![entry("b", "1"), entry("a", "2"), entry("b", "3"), entry("c", "4")];
    let filter = KeyFilter::new(&Some("[bc]".to_string()), &None).unwrap();
    assert_eq!(
        filter_keys(&entries, &filter),
        vec![key("b", "1"), key("b", "3"), key("c", "4")]
    );
    let found = filter_attributes(&entries, &filter);
    let found: Vec<&str> = found.iter().map(|a| a.name.as_str()).collect();
    assert_eq!(found, vec!["1", "3", "4"]);
    let none = KeyFilter::new(&Some("z".to_string()), &None).unwrap();
    assert!(filter_keys(&entries, &none).is_empty());
    assert!(filter_attributes(&vec![], &filter).is_empty());
}

#[test]
fn a_store_has_the_capacity_it_was_made_with() {
    assert_eq!(Kvs::new().max_capacity(), Some(100_000));
    assert_eq!(Kvs::with_capacity(10).max_capacity(), Some(10));
    assert_eq!(Kvs::with_capacity(0).max_capacity(), Some(0));
}

fn nested(depth: usize, inner: &str) -> String {
    let mut p = "{".repeat(depth);
    p.push_str(inner);
    p.push_str(&"}".repeat(depth));
    p
}

#[test]
fn a_pattern_that_is_too_long_or_too_deep_is_refused_before_it_is_compiled() {
    let kvs = Kvs::new();
    let deep = Some(nested(300, "a"));
    assert_eq!(search_keys(&kvs, &deep, &None).err(), Some(PipelineError::InvalidPattern));
    assert_eq!(search_attributes(&kvs, &None, &deep).err(), Some(PipelineError::InvalidPattern));
    assert_eq!(del_attributes(&kvs, &deep, &None), Err(PipelineError::InvalidPattern));
    let just_too_deep = Some(nested(MAX_PATTERN_GROUPS + 1, "a"));
    assert!(matches!(KeyFilter::new(&just_too_deep, &None), Err(PipelineError::InvalidPattern)));
    let long = Some("a".repeat(MAX_PATTERN_LENGTH + 1));
    assert!(matches!(KeyFilter::new(&None, &long), Err(PipelineError::InvalidPattern)));
    let huge = Some("a".repeat(300_000));
    assert_eq!(search_keys(&kvs, &huge, &None).err(), Some(PipelineError::InvalidPattern));
}

#[test]
fn the_longest_and_deepest_patterns_that_are_admitted_compile_and_match() {
    let deepest = nested(MAX_PATTERN_GROUPS, "a");
    assert!(is_admitted(&deepest));
    let filter = KeyFilter::new(&Some(deepest), &None).unwrap();
    assert!(filter.matches("a", "x"));
    assert!(!filter.matches("b", "x"));
    let busy = nested(MAX_PATTERN_GROUPS, "**/[a-z]*,x");
    let filter = KeyFilter::new(&Some(busy), &None).unwrap();
    assert!(filter.matches("x", ""));
    let longest = "a".repeat(MAX_PATTERN_LENGTH);
    let filter = KeyFilter::new(&None, &Some(longest.clone())).unwrap();
    assert!(filter.matches("", &longest));
    assert!(!filter.matches("", "a"));
    let stars = "*".repeat(MAX_PATTERN_LENGTH);
    assert!(KeyFilter::new(&Some(stars), &None).unwrap().matches("abc", ""));
    let wide = "é".repeat(MAX_PATTERN_LENGTH);
    assert!(KeyFilter::new(&Some(wide.clone()), &None).unwrap().matches(&wide, ""));
    let classes = "[a-z]".repeat(MAX_PATTERN_LENGTH / 5);
    assert!(KeyFilter::new(&Some(classes), &None).is_ok());
}

#[test]
fn patterns_are_admitted_by_their_length_and_their_braces() {
    assert!(is_admitted(""));
    assert!(is_admitted("*"));
    assert!(is_admitted(&"{".repeat(MAX_PATTERN_GROUPS)));
    assert!(!is_admitted(&"{".repeat(MAX_PATTERN_GROUPS + 1)));
    assert!(is_admitted(&"é".repeat(MAX_PATTERN_LENGTH)));
    assert!(!is_admitted(&"é".repeat(MAX_PATTERN_LENGTH + 1)));
    assert_eq!((MAX_PATTERN_LENGTH, MAX_PATTERN_GROUPS), (1024, 64));
}

#[test]
fn an_entry_lives_as_long_as_it_was_set_to() {
    let a = Attribute::persistent("ns", "n", vec![], &None, false);
    assert_eq!(time_to_live(&(Some(10), a.clone())), Some(10));
    assert_eq!(time_to_live(&(Some(0), a.clone())), Some(0));
    assert_eq!(time_to_live(&(None, a)), None);
}
