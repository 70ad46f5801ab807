use advcache::config::{Rule, RuleKey, RuleValue};
use advcache::query_filter::{filter_and_sort_request, normalize_percent_encoding, select_query_pairs};

fn make_rule_with_query_keys(keys: Vec<&str>) -> Rule {
    let query_bytes: Vec<Vec<u8>> = keys.iter().map(|k| k.as_bytes().to_vec()).collect();
    Rule {
        path: None,
        path_bytes: None,
        cache_key: RuleKey {
            query: Some(keys.into_iter().map(|s| s.to_string()).collect()),
            query_bytes: Some(query_bytes),
            headers: None,
            headers_map: None,
        },
        cache_value: RuleValue { headers: None },
    }
}

#[test]
fn filter_test_test_filter_only_whitelisted() {
    let rule = make_rule_with_query_keys(vec!["user[id]", "domain"]);
    let query_str = "user[id]=123&domain=example.com&ignored=value&another=param";
    let result = filter_and_sort_request(Some(&rule), query_str.as_bytes());
    assert_eq!(result.len(), 2);
    assert!(result.iter().any(|(k, v)| k == b"user[id]" && v == b"123"));
    assert!(result.iter().any(|(k, v)| k == b"domain" && v == b"example.com"));
    assert!(!result.iter().any(|(k, _)| k == b"ignored"));
    assert!(!result.iter().any(|(k, _)| k == b"another"));
}

#[test]
fn filter_test_test_filter_sorts_results() {
    let rule = make_rule_with_query_keys(vec!["zebra", "alpha", "middle"]);
    let query_str = "zebra=z&alpha=a&middle=m";
    let result = filter_and_sort_request(Some(&rule), query_str.as_bytes());
    assert_eq!(result.len(), 3);
    assert_eq!(result[0].0, b"alpha");
    assert_eq!(result[1].0, b"middle");
    assert_eq!(result[2].0, b"zebra");
}

#[test]
fn filter_test_test_filter_no_rule() {
    let query_str = "user[id]=123&domain=example.com";
    let result = filter_and_sort_request(None, query_str.as_bytes());
    assert_eq!(result.len(), 0);
}

#[test]
fn filter_test_test_filter_empty_whitelist() {
    let rule = make_rule_with_query_keys(vec![]);
    let query_str = "user[id]=123&domain=example.com";
    let result = filter_and_sort_request(Some(&rule), query_str.as_bytes());
    assert_eq!(result.len(), 0);
}

#[test]
fn test_filter_no_question_mark() {
    let rule = make_rule_with_query_keys(vec!["user[id]"]);
    let query_str = "user[id]=123";
    let result = filter_and_sort_request(Some(&rule), query_str.as_bytes());
    assert_eq!(result.len(), 1);
    assert_eq!(result[0].0, b"user[id]");
    assert_eq!(result[0].1, b"123");
}

#[test]
fn test_filter_with_question_mark() {
    let rule = make_rule_with_query_keys(vec!["user[id]"]);
    let query_str = "?user[id]=123";
    let result = filter_and_sort_request(Some(&rule), query_str.as_bytes());
    assert_eq!(result.len(), 1);
    assert_eq!(result[0].0, b"user[id]");
    assert_eq!(result[0].1, b"123");
}

#[test]
fn test_filter_url_encoded_values() {
    let rule = make_rule_with_query_keys(vec!["domain"]);
    let query_str = "domain=example%2Ecom%20with%20spaces";
    let result = filter_and_sort_request(Some(&rule), query_str.as_bytes());
    assert_eq!(result.len(), 1);
    assert_eq!(result[0].0, b"domain");
    assert_eq!(result[0].1, b"example.com with spaces");
}

#[test]
fn test_filter_duplicate_keys() {
    let rule = make_rule_with_query_keys(vec!["user[id]"]);
    let query_str = "user[id]=123&user[id]=456";
    let result = filter_and_sort_request(Some(&rule), query_str.as_bytes());
    assert_eq!(result.len(), 2);
    assert!(result.iter().any(|(k, v)| k == b"user[id]" && v == b"123"));
    assert!(result.iter().any(|(k, v)| k == b"user[id]" && v == b"456"));
}

#[test]
fn filter_test_test_filter_empty_values() {
    let rule = make_rule_with_query_keys(vec!["user[id]", "domain"]);
    let query_str = "user[id]=&domain=example.com";
    let result = filter_and_sort_request(Some(&rule), query_str.as_bytes());
    assert_eq!(result.len(), 2);
    let id_entry = result.iter().find(|(k, _)| k == b"user[id]").unwrap();
    assert_eq!(id_entry.1, b"");
    let domain_entry = result.iter().find(|(k, _)| k == b"domain").unwrap();
    assert_eq!(domain_entry.1, b"example.com");
}

#[test]
fn test_filter_case_sensitive_keys() {
    let rule = make_rule_with_query_keys(vec!["user[id]", "Domain"]);
    let query_str = "user[id]=123&Domain=example.com&domain=ignored";
    let result = filter_and_sort_request(Some(&rule), query_str.as_bytes());
    assert_eq!(result.len(), 2);
    assert!(result.iter().any(|(k, v)| k == b"user[id]" && v == b"123"));
    assert!(result.iter().any(|(k, v)| k == b"Domain" && v == b"example.com"));
    assert!(!result.iter().any(|(k, _)| k == b"domain"));
}

#[test]
fn filter_test_test_filter_single_entry_no_sort() {
    let rule = make_rule_with_query_keys(vec!["user[id]"]);
    let query_str = "user[id]=123";
    let result = filter_and_sort_request(Some(&rule), query_str.as_bytes());
    assert_eq!(result.len(), 1);
    assert_eq!(result[0].0, b"user[id]");
    assert_eq!(result[0].1, b"123");
}

#[test]
fn normalize_lowercases_escape_digits_and_trims_question_marks() {
    assert_eq!(normalize_percent_encoding(b"??a=%2F%AB&b=%C3"), "a=%2f%ab&b=%c3");
    assert_eq!(normalize_percent_encoding(b"x=%A"), "x=%A");
    assert_eq!(normalize_percent_encoding(b"x=%"), "x=%");
    assert_eq!(normalize_percent_encoding(b"Q=ABC"), "Q=ABC");
    assert_eq!(normalize_percent_encoding(b""), "");
}

#[test]
fn normalize_gives_empty_for_invalid_utf8() {
    assert_eq!(normalize_percent_encoding(&[0xff, 0x61]), "");
}

#[test]
fn normalize_lowercases_only_ascii_after_percent() {
    assert_eq!(normalize_percent_encoding("%ÄB".as_bytes()), "%Äb");
}

#[test]
fn select_query_pairs_keeps_allowed_names_sorted() {
    let allowed = vec![b"b".to_vec(), b"a".to_vec()];
    let pairs = vec![
        (b"b".to_vec(), b"2".to_vec()),
        (b"c".to_vec(), b"3".to_vec()),
        (b"a".to_vec(), b"9".to_vec()),
        (b"a".to_vec(), b"1".to_vec()),
    ];
    let result = select_query_pairs(&allowed, pairs);
    assert_eq!(
        result,
        vec![
            (b"a".to_vec(), b"1".to_vec()),
            (b"a".to_vec(), b"9".to_vec()),
            (b"b".to_vec(), b"2".to_vec()),
        ]
    );
}

#[test]
fn percent_escape_case_does_not_change_the_key() {
    let rule = make_rule_with_query_keys(vec!["q"]);
    let upper = filter_and_sort_request(Some(&rule), b"q=%C3%A9");
    let lower = filter_and_sort_request(Some(&rule), b"q=%c3%a9");
    assert_eq!(upper, lower);
    assert_eq!(upper[0].1, "é".as_bytes());
}

#[test]
fn normalizing_twice_changes_nothing() {
    for q in ["?a=%2F&B=%AbC", "??x=%", "%E2%82%ac=1", "plain"] {
        let once = normalize_percent_encoding(q.as_bytes());
        assert_eq!(normalize_percent_encoding(once.as_bytes()), once);
    }
}
