use advcache::door_keeper::{mix64, next_pow2, Doorkeeper};

fn mix_key(x: u64) -> u64 {
    mix64(x)
}

#[test]
fn test_zero_allocs_smoke() {
    let mut d = Doorkeeper::new(1024);
    let h = mix_key(42);
    for _ in 0..10000 {
        let _ = d.seen_or_add(h);
    }
    assert!(d.probably_seen(h));
}

#[test]
fn seen_or_add_reports_first_sighting_once() {
    let mut d = Doorkeeper::new(4096);
    let h = mix_key(7);
    assert!(!d.probably_seen(h));
    assert!(!d.seen_or_add(h));
    assert!(d.seen_or_add(h));
    assert!(d.probably_seen(h));
}

#[test]
fn seen_keys_stay_seen_as_others_are_added() {
    let mut d = Doorkeeper::new(1 << 16);
    let first = mix_key(1);
    d.seen_or_add(first);
    for i in 2..500u64 {
        d.seen_or_add(mix_key(i));
        assert!(d.probably_seen(first));
    }
}

#[test]
fn reset_forgets_every_key() {
    let mut d = Doorkeeper::new(256);
    for i in 0..50u64 {
        d.seen_or_add(mix_key(i));
    }
    d.reset();
    for i in 0..50u64 {
        assert!(!d.probably_seen(mix_key(i)));
    }
}

#[test]
fn zero_bits_give_a_working_filter() {
    let mut d = Doorkeeper::new(0);
    assert!(!d.seen_or_add(5));
    assert!(d.probably_seen(5));
}

#[test]
fn next_pow2_rounds_up() {
    assert_eq!(next_pow2(0), 1);
    assert_eq!(next_pow2(1), 1);
    assert_eq!(next_pow2(3), 4);
    assert_eq!(next_pow2(1024), 1024);
    assert_eq!(next_pow2(1025), 2048);
}

#[test]
fn mix64_is_the_splitmix_finalizer() {
    assert_eq!(mix64(0), 0);
    assert_eq!(mix64(1), 0x5692161d100b05e5);
}
