use workshadow::ocr::pii::{detect_pii, pii_from_matches, PiiType, RegexMatch};

#[test]
fn test_detect_email() {
    let results = detect_pii("Contact us at hello@example.com for info");
    assert_eq!(results.len(), 1);
    assert_eq!(results[0].pii_type, PiiType::Email);
    assert_eq!(results[0].matched_text, "hello@example.com");
}

#[test]
fn test_detect_ssn() {
    let results = detect_pii("SSN: 123-45-6789");
    assert!(results.iter().any(|r| r.pii_type == PiiType::Ssn));
}

#[test]
fn test_detect_credit_card() {
    let results = detect_pii("Card: 4111-1111-1111-1111");
    assert!(results.iter().any(|r| r.pii_type == PiiType::CreditCard));
}

#[test]
fn test_no_pii() {
    let results = detect_pii("This is a normal sentence with no sensitive data.");
    assert!(results.is_empty());
}

#[test]
fn detect_pii_reports_byte_spans() {
    let text = "mail bob@mail.org now";
    let results = detect_pii(text);
    assert_eq!(results.len(), 1);
    assert_eq!(results[0].start, 5);
    assert_eq!(results[0].end, 17);
    assert_eq!(&text[results[0].start..results[0].end], results[0].matched_text);
}

#[test]
fn detect_pii_orders_kinds() {
    let results = detect_pii("call 555-123-4567 or mail a@b.io");
    let kinds: Vec<PiiType> = results.iter().map(|r| r.pii_type).collect();
    assert_eq!(kinds[0], PiiType::Email);
    assert!(kinds[1..].iter().all(|k| *k != PiiType::Email));
    assert!(kinds.contains(&PiiType::Phone));
}

#[test]
fn pii_from_matches_tags_in_order() {
    let m = |s: usize, e: usize, t: &str| RegexMatch { start: s, end: e, text: t.to_string() };
    let r = pii_from_matches(vec![m(0, 3, "a@b")], vec![], vec![m(4, 15, "123-45-6789")], vec![m(20, 39, "4111 1111 1111 1111")]);
    assert_eq!(r.len(), 3);
    assert_eq!(r[0].pii_type, PiiType::Email);
    assert_eq!(r[1].pii_type, PiiType::Ssn);
    assert_eq!(r[1].start, 4);
    assert_eq!(r[2].pii_type, PiiType::CreditCard);
    assert_eq!(r[2].matched_text, "4111 1111 1111 1111");
}

#[test]
fn detections_are_slices_of_the_text() {
    let text = "Mail jöhn@example.com or call 555-123-4567; SSN 123-45-6789.";
    let found = detect_pii(text);
    assert!(!found.is_empty());
    for d in &found {
        assert!(d.start <= d.end && d.end <= text.len());
        assert_eq!(&text.as_bytes()[d.start..d.end], d.matched_text.as_bytes());
    }
}

#[test]
fn detections_of_a_kind_do_not_overlap() {
    let text = "a@b.io c@d.io 555-123-4567 555-765-4321";
    let found = detect_pii(text);
    for (k, a) in found.iter().enumerate() {
        for b in &found[k + 1..] {
            if a.pii_type == b.pii_type {
                assert!(a.end <= b.start);
            }
        }
    }
    assert_eq!(found.iter().filter(|d| d.pii_type == PiiType::Email).count(), 2);
}
