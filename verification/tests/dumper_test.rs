use advcache::config::Dump;
use advcache::dumper::{
    check_dump_enabled, crc32_enabled, dirs_to_remove, dump_dir, dump_file_name, dump_name, encode_record,
    encode_shard, gzip_enabled, is_dump_file, latest_version_index, max_versions, next_version_dir, scan_records,
    select_latest_files, temp_file_name, timestamp_of, version_of, DumpNotEnabledError,
};
use advcache::entry_codec::{decode_entry, encode_entry, EntryRecord};
use tokio_util::sync::CancellationToken;

fn dump(enabled: bool) -> Dump {
    Dump {
        enabled,
        dir: Some("data/dump".to_string()),
        name: None,
        max_versions: Some(5),
        gzip: true,
        crc32_control: false,
    }
}

#[test]
fn settings_and_defaults() {
    let d = dump(true);
    assert_eq!(dump_dir(Some(&d)), "data/dump");
    assert_eq!(dump_dir(None), "public/dump");
    assert_eq!(dump_name(Some(&d)), "cache.dump");
    assert_eq!(max_versions(Some(&d)), 5);
    assert_eq!(max_versions(None), 3);
    assert!(gzip_enabled(Some(&d)));
    assert!(!gzip_enabled(None));
    assert!(!crc32_enabled(Some(&d)));
    assert!(crc32_enabled(None));
}

#[test]
fn dumps_need_an_enabled_section_and_cache() {
    assert!(check_dump_enabled(true, Some(&dump(true))).is_ok());
    assert!(check_dump_enabled(false, Some(&dump(true))).is_err());
    assert!(check_dump_enabled(true, Some(&dump(false))).is_err());
    assert!(check_dump_enabled(true, None).is_err());
    assert_eq!(DumpNotEnabledError.message(), "persistence mode is not enabled");
}

#[test]
fn version_directories() {
    assert_eq!(version_of("v12"), Some(12));
    assert_eq!(version_of("v+3"), Some(3));
    assert_eq!(version_of("v"), None);
    assert_eq!(version_of("x12"), None);
    assert_eq!(version_of("v4294967296"), None);
    let names = vec!["v1".to_string(), "v10".to_string(), "tmp".to_string(), "v2".to_string()];
    assert_eq!(next_version_dir(&names), Some(11));
    assert_eq!(next_version_dir(&vec![]), Some(1));
    assert_eq!(next_version_dir(&vec!["v4294967295".to_string()]), None);
}

#[test]
fn rotation_keeps_the_newest() {
    let mtimes = vec![30u128, 10, 50, 20, 50];
    assert_eq!(dirs_to_remove(&mtimes, 2), vec![0, 1, 3]);
    assert_eq!(dirs_to_remove(&mtimes, 3), vec![1, 3]);
    assert_eq!(dirs_to_remove(&mtimes, 5), Vec::<usize>::new());
    assert_eq!(latest_version_index(&mtimes), Some(2));
    assert_eq!(latest_version_index(&vec![]), None);
}

#[test]
fn file_names() {
    assert_eq!(dump_file_name("cache.dump", 17, "20240102T030405", true), "cache.dump-shard-17-20240102T030405.dump.gz");
    assert_eq!(dump_file_name("cache.dump", 0, "20240102T030405", false), "cache.dump-shard-0-20240102T030405.dump");
    assert_eq!(temp_file_name("a.dump"), "a.dump.tmp");
    assert!(is_dump_file("cache.dump-shard-1-x.dump", "cache.dump"));
    assert!(is_dump_file("cache.dump-shard-1-x.dump.gz", "cache.dump"));
    assert!(!is_dump_file("cache.dump-shard-1-x.dump.tmp", "cache.dump"));
    assert!(!is_dump_file("other-shard-1-x.dump", "cache.dump"));
    let ts: String = timestamp_of("cache.dump-shard-1-20240102T030405.dump").into_iter().collect();
    assert_eq!(ts, "20240102T030405");
    let gz: String = timestamp_of("cache.dump-shard-1-20240102T030405.dump.gz").into_iter().collect();
    assert_eq!(gz, "20240102T030405.dump");
}

#[test]
fn latest_dump_files_are_selected() {
    let names = vec![
        "cache.dump-shard-1-20240101T000000.dump".to_string(),
        "cache.dump-shard-2-20240201T000000.dump".to_string(),
        "cache.dump-shard-3-20240201T000000.dump".to_string(),
    ];
    assert_eq!(select_latest_files(&names), vec![1, 2]);
    assert_eq!(select_latest_files(&vec![]), Vec::<usize>::new());
}

#[test]
fn crc32_check_value() {
    let mut out = Vec::new();
    encode_record(&mut out, b"123456789", true);
    assert_eq!(out[0..4], 9u32.to_le_bytes());
    assert_eq!(out[4..8], 0xCBF43926u32.to_le_bytes());
    assert_eq!(&out[8..], b"123456789");
    let mut plain = Vec::new();
    encode_record(&mut plain, b"ab", false);
    assert_eq!(plain, vec![2, 0, 0, 0, 0, 0, 0, 0, b'a', b'b']);
}

#[test]
fn records_roundtrip() {
    let entries = vec![b"first".to_vec(), Vec::new(), b"third entry".to_vec()];
    for crc in [true, false] {
        let token = CancellationToken::new();
        let (bytes, written) = encode_shard(&entries, crc, &token);
        assert_eq!(written, 3);
        let (found, failures) = scan_records(&bytes, crc, &token);
        assert_eq!(failures, 0);
        let read: Vec<Vec<u8>> = found.iter().map(|(s, l)| bytes[*s..*s + *l].to_vec()).collect();
        assert_eq!(read, entries);
    }
}

#[test]
fn damaged_records_are_counted() {
    let token = CancellationToken::new();
    let entries = vec![b"aaaa".to_vec(), b"bbbb".to_vec()];
    let (mut bytes, _) = encode_shard(&entries, true, &token);
    bytes[9] ^= 0xff;
    let (found, failures) = scan_records(&bytes, true, &token);
    assert_eq!(failures, 1);
    assert_eq!(found.len(), 1);
    assert_eq!(&bytes[found[0].0..found[0].0 + found[0].1], b"bbbb");
    let (_, failures) = scan_records(&bytes[..bytes.len() - 1], true, &token);
    assert_eq!(failures, 2);
    let (found, failures) = scan_records(&bytes[..5], true, &token);
    assert_eq!((found.len(), failures), (0, 0));
}

#[test]
fn cancelled_dumps_stop() {
    let token = CancellationToken::new();
    token.cancel();
    let (bytes, written) = encode_shard(&vec![b"x".to_vec()], true, &token);
    assert_eq!((bytes.len(), written), (0, 0));
}

#[test]
fn entry_bytes_round_trip() {
    let e = EntryRecord {
        key: 0x0102_0304_0506_0708,
        path: b"/api/v1".to_vec(),
        queries: vec![(b"a".to_vec(), b"1".to_vec()), (b"bb".to_vec(), Vec::new())],
        payload: b"hello".to_vec(),
    };
    let bytes = encode_entry(&e);
    assert_eq!(&bytes[0..8], &[8, 7, 6, 5, 4, 3, 2, 1]);
    assert_eq!(&bytes[8..12], &[7, 0, 0, 0]);
    assert_eq!(bytes.len(), 8 + 4 + 7 + 4 + (4 + 1 + 4 + 1) + (4 + 2 + 4) + 4 + 5);
    let back = decode_entry(&bytes).unwrap();
    assert_eq!(back.key, e.key);
    assert_eq!(back.path, e.path);
    assert_eq!(back.queries, e.queries);
    assert_eq!(back.payload, e.payload);
    assert!(decode_entry(&bytes[..bytes.len() - 1]).is_none());
    assert!(decode_entry(&bytes[..7]).is_none());
}
