use advcache::config::{Rule, RuleKey, RuleValue};
use advcache::header_filter::{filter_and_sort_request, select_headers};

fn make_rule_with_header_keys(keys: Vec<&str>) -> Rule {
    let mut headers_map = Vec::new();
    for key in &keys {
        headers_map.push((key.to_string(), vec![]));
    }
    Rule {
        path: None,
        path_bytes: None,
        cache_key: RuleKey {
            query: None,
            query_bytes: None,
            headers: Some(keys.into_iter().map(|s| s.to_string()).collect()),
            headers_map: Some(headers_map),
        },
        cache_value: RuleValue { headers: None },
    }
}

fn pairs(items: &[(&str, &str)]) -> Vec<(String, String)> {
    items.iter().map(|(k, v)| (k.to_string(), v.to_string())).collect()
}

#[test]
fn test_filter_only_whitelisted() {
    let rule = make_rule_with_header_keys(vec!["accept-encoding", "content-type"]);
    let headers = pairs(&[
        ("Accept-Encoding", "gzip"),
        ("Content-Type", "application/json"),
        ("X-Custom", "ignored"),
        ("Authorization", "token"),
    ]);
    let result = filter_and_sort_request(Some(&rule), &headers);
    assert_eq!(result.len(), 2);
    assert!(result.iter().any(|(k, v)| k == b"Accept-Encoding" && v == b"gzip"));
    assert!(result.iter().any(|(k, v)| k == b"Content-Type" && v == b"application/json"));
    assert!(!result.iter().any(|(k, _)| k == b"X-Custom"));
    assert!(!result.iter().any(|(k, _)| k == b"Authorization"));
}

#[test]
fn test_filter_case_insensitive_matching() {
    let rule = make_rule_with_header_keys(vec!["accept-encoding"]);
    let headers = pairs(&[
        ("Accept-Encoding", "gzip"),
        ("ACCEPT-ENCODING", "deflate"),
        ("accept-encoding", "br"),
    ]);
    let result = filter_and_sort_request(Some(&rule), &headers);
    assert_eq!(result.len(), 3);
    assert!(result.iter().any(|(k, v)| k == b"Accept-Encoding" && v == b"gzip"));
    assert!(result.iter().any(|(k, v)| k == b"ACCEPT-ENCODING" && v == b"deflate"));
    assert!(result.iter().any(|(k, v)| k == b"accept-encoding" && v == b"br"));
}

#[test]
fn test_filter_sorts_results() {
    let rule = make_rule_with_header_keys(vec!["zebra", "alpha", "middle"]);
    let headers = pairs(&[("Zebra", "z"), ("Alpha", "a"), ("Middle", "m")]);
    let result = filter_and_sort_request(Some(&rule), &headers);
    assert_eq!(result.len(), 3);
    assert_eq!(result[0].0, b"Alpha");
    assert_eq!(result[1].0, b"Middle");
    assert_eq!(result[2].0, b"Zebra");
}

#[test]
fn test_filter_no_rule() {
    let headers = pairs(&[("Accept-Encoding", "gzip")]);
    let result = filter_and_sort_request(None, &headers);
    assert_eq!(result.len(), 0);
}

#[test]
fn test_filter_empty_whitelist() {
    let rule = make_rule_with_header_keys(vec![]);
    let headers = pairs(&[("Accept-Encoding", "gzip")]);
    let result = filter_and_sort_request(Some(&rule), &headers);
    assert_eq!(result.len(), 0);
}

#[test]
fn test_filter_preserves_value_case() {
    let rule = make_rule_with_header_keys(vec!["accept-encoding"]);
    let headers = pairs(&[("Accept-Encoding", "gZip, DeFlaTe")]);
    let result = filter_and_sort_request(Some(&rule), &headers);
    assert_eq!(result.len(), 1);
    assert_eq!(result[0].0, b"Accept-Encoding");
    assert_eq!(result[0].1, b"gZip, DeFlaTe");
}

#[test]
fn test_filter_duplicate_headers() {
    let rule = make_rule_with_header_keys(vec!["accept-encoding"]);
    let headers = pairs(&[("Accept-Encoding", "gzip"), ("Accept-Encoding", "deflate")]);
    let result = filter_and_sort_request(Some(&rule), &headers);
    assert_eq!(result.len(), 2);
    assert!(result.iter().all(|(k, _)| k == b"Accept-Encoding"));
    assert!(result.iter().any(|(_, v)| v == b"gzip"));
    assert!(result.iter().any(|(_, v)| v == b"deflate"));
}

#[test]
fn test_filter_empty_values() {
    let rule = make_rule_with_header_keys(vec!["x-custom", "x-empty"]);
    let headers = pairs(&[("X-Custom", "value"), ("X-Empty", "")]);
    let result = filter_and_sort_request(Some(&rule), &headers);
    assert_eq!(result.len(), 2);
    assert_eq!(result[0].0, b"X-Custom");
    assert_eq!(result[0].1, b"value");
    assert_eq!(result[1].0, b"X-Empty");
    assert_eq!(result[1].1, b"");
}

#[test]
fn test_filter_single_entry_no_sort() {
    let rule = make_rule_with_header_keys(vec!["accept-encoding"]);
    let headers = pairs(&[("Accept-Encoding", "gzip")]);
    let result = filter_and_sort_request(Some(&rule), &headers);
    assert_eq!(result.len(), 1);
    assert_eq!(result[0].0, b"Accept-Encoding");
    assert_eq!(result[0].1, b"gzip");
}

#[test]
fn test_filter_special_characters() {
    let rule = make_rule_with_header_keys(vec!["x-custom"]);
    let headers = pairs(&[("X-Custom", "value\nwith\tspecial\rchars")]);
    let result = filter_and_sort_request(Some(&rule), &headers);
    assert_eq!(result.len(), 1);
    assert_eq!(result[0].0, b"X-Custom");
    assert_eq!(result[0].1, b"value\nwith\tspecial\rchars");
}

#[test]
fn header_selection_uses_given_lowered_names() {
    let table = vec![("a".to_string(), vec![])];
    let headers = pairs(&[("X", "1"), ("Y", "2")]);
    let lowered = vec!["a".to_string(), "b".to_string()];
    let result = select_headers(&table, &headers, &lowered);
    assert_eq!(result, vec![(b"X".to_vec(), b"1".to_vec())]);
}

#[test]
fn header_order_does_not_change_the_result() {
    let rule = make_rule_with_header_keys(vec!["a", "b"]);
    let one = filter_and_sort_request(Some(&rule), &pairs(&[("B", "2"), ("A", "1"), ("a", "0")]));
    let two = filter_and_sort_request(Some(&rule), &pairs(&[("a", "0"), ("A", "1"), ("B", "2")]));
    assert_eq!(one, two);
    assert_eq!(one[0], (b"A".to_vec(), b"1".to_vec()));
    assert_eq!(one[2], (b"a".to_vec(), b"0".to_vec()));
}
