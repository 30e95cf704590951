use base64::Engine as _;
use trgui_relay::commands::{
    bencode_nesting_ok, file_stats, parse_i32, read_torrent, too_large, trackers_of, PathStats,
};
use trgui_relay::createtorrent::{announce_tiers, url_list};

fn strings(v: &[&str]) -> Vec<String> {
    v.iter().map(|s| s.to_string()).collect()
}

fn sample_torrent() -> Vec<u8> {
    let mut b = b"d8:announce17:http://t/announce4:infod6:lengthi1e4:name1:a12:piece lengthi16384e6:pieces20:".to_vec();
    b.extend_from_slice(&[0xffu8; 20]);
    b.extend_from_slice(b"ee");
    b
}

#[test]
fn reads_a_torrent() {
    let bytes = sample_torrent();
    let r = read_torrent("/tmp/a.torrent".to_string(), bytes.clone()).ok().unwrap();
    assert_eq!(r.torrent_path, "/tmp/a.torrent");
    assert_eq!(r.name, "a");
    assert_eq!(r.length, 1);
    assert!(r.files.is_none());
    assert_eq!(r.trackers, strings(&["http://t/announce"]));
    assert_eq!(r.metadata, base64::engine::general_purpose::STANDARD.encode(&bytes));
    assert_eq!(r.hash.len(), 40);
}

#[test]
fn refuses_non_torrents_and_large_files() {
    let r = read_torrent("p".to_string(), b"not bencode".to_vec());
    assert_eq!(r.err(), Some("Failed to parse torrent \"p\"".to_string()));
    let r = read_torrent("C:\\dl\\\"x\".torrent".to_string(), b"junk".to_vec());
    assert_eq!(r.err(), Some(format!("Failed to parse torrent {:?}", "C:\\dl\\\"x\".torrent")));
    assert_eq!(
        read_torrent("a\\b".to_string(), b"junk".to_vec()).err(),
        Some("Failed to parse torrent \"a\\\\b\"".to_string())
    );
    let r = read_torrent("p".to_string(), vec![0u8; 10 * 1024 * 1024 + 1]);
    assert_eq!(r.err(), Some("File is too large".to_string()));
    assert!(too_large(10 * 1024 * 1024 + 1));
    assert!(!too_large(10 * 1024 * 1024));
}

#[test]
fn tracker_tiers() {
    let list = Some(vec![strings(&["a", "b"]), strings(&["c"]), vec![], strings(&["d"])]);
    assert_eq!(trackers_of(&list, &Some("x".to_string())), strings(&["a", "b", "", "c", "", "", "d"]));
    let list = Some(vec![vec![], strings(&["a"])]);
    assert_eq!(trackers_of(&list, &None), strings(&["a"]));
    assert_eq!(trackers_of(&None, &Some("x".to_string())), strings(&["x"]));
    assert!(trackers_of(&None, &None).is_empty());
}

#[test]
fn path_stats() {
    let f = file_stats(&PathStats::File(42));
    assert_eq!((f.files, f.size), (1, 42));
    let d = file_stats(&PathStats::Dir(vec![1, 2, 3]));
    assert_eq!((d.files, d.size), (3, 6));
    let e = file_stats(&PathStats::Dir(vec![]));
    assert_eq!((e.files, e.size), (0, 0));
    let u = file_stats(&PathStats::Unreadable);
    assert_eq!((u.files, u.size), (-1, 0));
}

#[test]
fn creation_lists() {
    assert_eq!(
        announce_tiers(&strings(&["a", "b", "", "", "c", ""])),
        vec![strings(&["a", "b"]), strings(&["c"])]
    );
    assert!(announce_tiers(&strings(&["", ""])).is_empty());
    assert!(announce_tiers(&vec![]).is_empty());
    assert_eq!(url_list(&strings(&["", "http://w/", "", "http://v/"])), strings(&["http://w/", "http://v/"]));
}

#[test]
fn deep_nesting_is_refused_before_parsing() {
    let r = read_torrent("deep".to_string(), vec![b'l'; 200_000]);
    assert_eq!(r.err(), Some("Failed to parse torrent \"deep\"".to_string()));
    assert!(bencode_nesting_ok(b"d4:spaml1:a1:bee", 2));
    assert!(!bencode_nesting_ok(b"d4:spaml1:a1:bee", 1));
    assert!(bencode_nesting_ok(b"11:llllldddddi", 0));
    assert!(bencode_nesting_ok(b"i-3ee", 0));
    assert!(bencode_nesting_ok(&sample_torrent(), 2));
    assert!(!bencode_nesting_ok(&sample_torrent(), 1));
}

#[test]
fn decimal_i32() {
    assert_eq!(parse_i32("12"), Some(12));
    assert_eq!(parse_i32("+5"), Some(5));
    assert_eq!(parse_i32("-2147483648"), Some(i32::MIN));
    assert_eq!(parse_i32("2147483647"), Some(i32::MAX));
    assert_eq!(parse_i32("2147483648"), None);
    assert_eq!(parse_i32("99999999999999999999"), None);
    assert_eq!(parse_i32("-"), None);
    assert_eq!(parse_i32(""), None);
    assert_eq!(parse_i32("1a"), None);
    assert_eq!(parse_i32(" 1"), None);
    assert_eq!(parse_i32("007"), Some(7));
}
