use advcache::kv_sort::kv_slice;
use advcache::text::{parse_u64, parse_usize, push_decimal};

#[test]
fn parse_reads_like_str_parse() {
    assert_eq!(parse_u64("0"), Some(0));
    assert_eq!(parse_u64("+42"), Some(42));
    assert_eq!(parse_u64("007"), Some(7));
    assert_eq!(parse_u64("18446744073709551615"), Some(u64::MAX));
    assert_eq!(parse_u64("18446744073709551616"), None);
    assert_eq!(parse_u64(""), None);
    assert_eq!(parse_u64("+"), None);
    assert_eq!(parse_u64("-1"), None);
    assert_eq!(parse_u64(" 1"), None);
    assert_eq!(parse_u64("1a"), None);
    assert_eq!(parse_usize("12"), Some(12));
    for s in ["0", "+9", "123456", "99999999999999999999", "x", "++1"] {
        assert_eq!(parse_u64(s), s.parse::<u64>().ok());
    }
}

#[test]
fn decimal_digits() {
    for n in [0u64, 7, 10, 99, 1234567890, u64::MAX] {
        let mut out = vec!['x'];
        push_decimal(&mut out, n);
        let s: String = out.into_iter().collect();
        assert_eq!(s, format!("x{}", n));
        assert_eq!(parse_u64(&s[1..]), Some(n));
    }
}

#[test]
fn pairs_sort_by_key_then_value() {
    let mut v = vec![
        (b"b".to_vec(), b"1".to_vec()),
        (b"a".to_vec(), b"2".to_vec()),
        (b"ab".to_vec(), b"0".to_vec()),
        (b"a".to_vec(), b"1".to_vec()),
    ];
    kv_slice(&mut v);
    assert_eq!(
        v,
        vec![
            (b"a".to_vec(), b"1".to_vec()),
            (b"a".to_vec(), b"2".to_vec()),
            (b"ab".to_vec(), b"0".to_vec()),
            (b"b".to_vec(), b"1".to_vec()),
        ]
    );
}
