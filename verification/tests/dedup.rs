use workshadow::ocr::dedup::{TokenHistory, TokenOverlap};

#[test]
fn identical_text_overlaps_fully() {
    let mut h = TokenHistory::new();
    assert_eq!(h.compare_next("hello world foo bar"), TokenOverlap::OneEmpty);
    assert_eq!(
        h.compare_next("hello world foo bar"),
        TokenOverlap::Measured { shared: 4, current: 4, previous: 4 }
    );
}

#[test]
fn different_text_shares_nothing() {
    let mut h = TokenHistory::new();
    h.compare_next("hello world");
    assert_eq!(
        h.compare_next("completely different text here"),
        TokenOverlap::Measured { shared: 0, current: 4, previous: 2 }
    );
}

#[test]
fn one_changed_word() {
    let mut h = TokenHistory::new();
    h.compare_next("the quick brown fox jumps over the lazy dog");
    // 8 distinct words each; 7 shared; union of 9 gives Jaccard 7/9
    assert_eq!(
        h.compare_next("the quick brown cat jumps over the lazy dog"),
        TokenOverlap::Measured { shared: 7, current: 8, previous: 8 }
    );
}

#[test]
fn empty_text_twice() {
    let mut h = TokenHistory::new();
    assert_eq!(h.compare_next(""), TokenOverlap::BothEmpty);
    assert_eq!(h.compare_next("   \n\t "), TokenOverlap::BothEmpty);
}

#[test]
fn tokens_are_lowercased_and_deduplicated() {
    let mut h = TokenHistory::new();
    h.compare_next("Hello HELLO hello\tWorld");
    assert_eq!(
        h.compare_next("world hello"),
        TokenOverlap::Measured { shared: 2, current: 2, previous: 2 }
    );
}

#[test]
fn text_after_empty_frame_is_one_sided() {
    let mut h = TokenHistory::new();
    h.compare_next("a b");
    assert_eq!(h.compare_next(""), TokenOverlap::OneEmpty);
    assert_eq!(h.compare_next("a b"), TokenOverlap::OneEmpty);
}
