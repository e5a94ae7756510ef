use std::path::PathBuf;
use workshadow::storage::segments::{
    is_segment_file_name, listed_in_order, names_in_order, segment_timestamp_of, segments_in_order,
    SegmentManager,
};

fn names(list: &[&str]) -> Vec<Vec<u8>> {
    list.iter().map(|s| s.as_bytes().to_vec()).collect()
}

#[test]
fn segment_file_names_by_extension() {
    assert!(is_segment_file_name(b"segment_1000.mkv"));
    assert!(is_segment_file_name(b"x.mkv"));
    assert!(is_segment_file_name(b"..mkv"));
    assert!(!is_segment_file_name(b".mkv"));
    assert!(!is_segment_file_name(b"segment_1000.jsonl"));
    assert!(!is_segment_file_name(b"segment_1000.mkv.enc"));
    assert!(!is_segment_file_name(b"mkv"));
    assert!(!is_segment_file_name(b""));
    for name in ["a.mkv", ".mkv", "..mkv", "a.b.mkv", "a.MKV", "amkv", "a.mkv.", ".."] {
        let std_says = std::path::Path::new(name).extension().map_or(false, |e| e == "mkv");
        assert_eq!(is_segment_file_name(name.as_bytes()), std_says, "{}", name);
    }
}

#[test]
fn name_order_matches_std() {
    let samples = ["", "a", "b", "ab", "abc", "segment_1000.mkv", "segment_999.mkv", "segment_10.mkv"];
    for a in samples {
        for b in samples {
            assert_eq!(names_in_order(a.as_bytes(), b.as_bytes()), a <= b, "{} {}", a, b);
        }
    }
}

#[test]
fn listing_keeps_segments_sorted_by_name() {
    let entries = names(&[
        "segment_3000.mkv",
        "segment_1000.jsonl",
        "segment_1000.mkv",
        "notes.txt",
        "segment_2000.mkv",
        ".mkv",
    ]);
    let order = segments_in_order(&entries);
    assert_eq!(order, vec![2, 4, 0]);
    assert!(segments_in_order(&names(&[])).is_empty());
    assert!(segments_in_order(&names(&["a.txt", "b.jsonl"])).is_empty());
}

#[test]
fn listing_is_chronological() {
    let list = ["segment_999.mkv", "segment_1000.mkv", "segment_10.mkv", "segment_2.mkv"];
    let order = segments_in_order(&names(&list));
    let ordered: Vec<&str> = order.iter().map(|&i| list[i]).collect();
    assert_eq!(ordered, vec!["segment_2.mkv", "segment_10.mkv", "segment_999.mkv", "segment_1000.mkv"]);
    let dir = ["segment_1000.mkv", "notes.txt", "segment_1000.jsonl", "segment_999.mkv"];
    let order = segments_in_order(&names(&dir));
    assert_eq!(order, vec![3, 0]);
}

#[test]
fn other_mkv_files_sort_by_name_among_segments() {
    let list = ["b.mkv", "segment_5.mkv", "a.mkv", "segment_x.mkv"];
    let order = segments_in_order(&names(&list));
    assert_eq!(order, vec![2, 0, 1, 3]);
    // without segments the listing is the plain name order
    let plain = ["zeta.mkv", "Alpha.mkv", "beta.mkv", "alpha.mkv"];
    let order = segments_in_order(&names(&plain));
    let ours: Vec<&str> = order.iter().map(|&i| plain[i]).collect();
    let mut sorted = plain.to_vec();
    sorted.sort();
    assert_eq!(ours, sorted);
    // names that sort alike keep their byte order
    let alike = ["segment_5.mkv", "segment_05.mkv", "segment_4.mkv"];
    assert_eq!(segments_in_order(&names(&alike)), vec![2, 1, 0]);
}

#[test]
fn segment_timestamps() {
    assert_eq!(segment_timestamp_of(b"segment_1000.mkv"), Some(1000));
    assert_eq!(segment_timestamp_of(b"segment_0.mkv"), Some(0));
    assert_eq!(segment_timestamp_of(b"segment_18446744073709551615.mkv"), Some(u64::MAX));
    assert_eq!(segment_timestamp_of(b"segment_18446744073709551616.mkv"), None);
    assert_eq!(segment_timestamp_of(b"segment_.mkv"), None);
    assert_eq!(segment_timestamp_of(b"segment_12a.mkv"), None);
    assert_eq!(segment_timestamp_of(b"segment_1000.jsonl"), None);
    assert_eq!(segment_timestamp_of(b"clip_1000.mkv"), None);
    assert!(listed_in_order(b"segment_999.mkv", b"segment_1000.mkv"));
    assert!(!listed_in_order(b"segment_1000.mkv", b"segment_999.mkv"));
    assert!(listed_in_order(b"a.mkv", b"segment_5.mkv"));
    assert!(!listed_in_order(b"segment_5.mkv", b"a.mkv"));
    assert!(listed_in_order(b"segment_5.mkv", b"zeta.mkv"));
}

#[test]
fn segment_manager_keeps_its_directory() {
    let m = SegmentManager::new(PathBuf::from("/tmp/ws-data"));
    assert_eq!(m.data_dir(), &PathBuf::from("/tmp/ws-data"));
}
