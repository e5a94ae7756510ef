//! Detection of personal data (emails, phone numbers, SSNs, card numbers) in
//! OCR text. Detections are flagged for the frame; the text is left as it is.
use vstd::prelude::*;
use vstd::utf8::encode_utf8;

verus! {

/// Kinds of personal data that are flagged.
#[derive(Debug, Clone, Copy, PartialEq, Eq, Structural)]
pub enum PiiType {
    Email,
    Phone,
    Ssn,
    CreditCard,
}

/// One flagged occurrence: its kind, the matched text and its byte span.
#[derive(Debug, Clone)]
pub struct PiiDetection {
    pub pii_type: PiiType,
    pub matched_text: String,
    pub start: usize,
    pub end: usize,
}

/// One match of a pattern: its byte span in the searched text and the text it covers.
#[derive(Debug, Clone)]
pub struct RegexMatch {
    pub start: usize,
    pub end: usize,
    pub text: String,
}

pub const EMAIL_PATTERN: &'static str = r"[a-zA-Z0-9._%+-]+@[a-zA-Z0-9.-]+\.[a-zA-Z]{2,}";

pub const PHONE_PATTERN: &'static str = r"\b(?:\+?1[-.\s]?)?(?:\(?\d{3}\)?[-.\s]?)?\d{3}[-.\s]?\d{4}\b";

pub const SSN_PATTERN: &'static str = r"\b\d{3}-\d{2}-\d{4}\b";

pub const CREDIT_CARD_PATTERN: &'static str = r"\b(?:\d{4}[-\s]?){3}\d{4}\b";

/// A match as plain values: start, end, matched text.
pub open spec fn match_view(m: RegexMatch) -> (usize, usize, Seq<char>) {
    (m.start, m.end, m.text@)
}

pub open spec fn match_views(ms: Seq<RegexMatch>) -> Seq<(usize, usize, Seq<char>)> {
    ms.map_values(|m: RegexMatch| match_view(m))
}

/// Each match lies in `text` (byte offsets into its UTF-8 encoding), its text
/// is that slice of `text`, and each match ends before the next begins.
pub open spec fn matches_spanned(ms: Seq<(usize, usize, Seq<char>)>, text: Seq<char>) -> bool {
    &&& forall|k: int|
        0 <= k < ms.len() ==> (#[trigger] ms[k]).0 <= ms[k].1 <= encode_utf8(text).len()
            && encode_utf8(ms[k].2) == encode_utf8(text).subrange(ms[k].0 as int, ms[k].1 as int)
    &&& forall|k: int| 0 <= k < ms.len() - 1 ==> (#[trigger] ms[k]).1 <= ms[k + 1].0
}

/// What `regex::Regex::new(pattern)` followed by `find_iter(haystack)` yields:
/// `None` when the pattern does not compile, else the successive
/// non-overlapping leftmost-first matches.
pub uninterp spec fn regex_find_all(pattern: Seq<char>, haystack: Seq<char>) -> Option<
    Seq<(usize, usize, Seq<char>)>,
>;

/// Compiles `pattern` with `regex::Regex::new` and collects the matches of
/// `find_iter` over `haystack`. The contract names the result
/// `regex_find_all(pattern, haystack)`, and states what the crate documents
/// of every match: its byte span lies in the haystack, its text is that slice
/// of the haystack, and successive matches do not overlap.
#[verifier::external_body]
fn find_all_matches(pattern: &str, haystack: &str) -> (r: Option<Vec<RegexMatch>>)
    ensures
        match r {
            Some(v) => regex_find_all(pattern@, haystack@) == Some(match_views(v@)),
            None => regex_find_all(pattern@, haystack@) is None,
        },
        r matches Some(v) ==> matches_spanned(match_views(v@), haystack@),
{
    match regex::Regex::new(pattern) {
        Ok(re) => Some(
            re.find_iter(haystack).map(
                |m| RegexMatch { start: m.start(), end: m.end(), text: m.as_str().to_string() },
            ).collect(),
        ),
        Err(_) => None,
    }
}

/// The matches of `pattern` in `text`; none when the pattern does not compile.
pub open spec fn found(pattern: Seq<char>, text: Seq<char>) -> Seq<(usize, usize, Seq<char>)> {
    match regex_find_all(pattern, text) {
        Some(ms) => ms,
        None => Seq::empty(),
    }
}

/// A detection as plain values.
pub open spec fn detection_view(d: PiiDetection) -> (PiiType, Seq<char>, usize, usize) {
    (d.pii_type, d.matched_text@, d.start, d.end)
}

pub open spec fn detection_views(ds: Seq<PiiDetection>) -> Seq<(PiiType, Seq<char>, usize, usize)> {
    ds.map_values(|d: PiiDetection| detection_view(d))
}

/// Each detection lies in `text` (byte offsets into its UTF-8 encoding) and
/// its matched text is that slice of `text`; detections of one kind come in
/// increasing order and do not overlap.
pub open spec fn detections_spanned(ds: Seq<(PiiType, Seq<char>, usize, usize)>, text: Seq<char>) -> bool {
    &&& forall|k: int|
        0 <= k < ds.len() ==> (#[trigger] ds[k]).2 <= ds[k].3 <= encode_utf8(text).len()
            && encode_utf8(ds[k].1) == encode_utf8(text).subrange(ds[k].2 as int, ds[k].3 as int)
    &&& forall|k: int, l: int|
        0 <= k < l < ds.len() && (#[trigger] ds[k]).0 == (#[trigger] ds[l]).0 ==> ds[k].3
            <= ds[l].2
}

/// Matches that end before the next begins end before every later one begins.
proof fn lemma_matches_chain(ms: Seq<(usize, usize, Seq<char>)>, text: Seq<char>, k: int, l: int)
    requires
        matches_spanned(ms, text),
        0 <= k < l < ms.len(),
    ensures
        ms[k].1 <= ms[l].0,
    decreases l - k,
{
    if l > k + 1 {
        lemma_matches_chain(ms, text, k, l - 1);
        assert(ms[l - 1].0 <= ms[l - 1].1);
        assert(ms[l - 1].1 <= ms[l].0);
    }
}

/// The detections of kind `t` for the matches `ms`, in match order.
pub open spec fn tagged(t: PiiType, ms: Seq<(usize, usize, Seq<char>)>) -> Seq<
    (PiiType, Seq<char>, usize, usize),
> {
    ms.map_values(|m: (usize, usize, Seq<char>)| (t, m.2, m.0, m.1))
}

/// All detections in `text`: emails, then phone numbers, then SSNs, then card
/// numbers, each in match order.
pub open spec fn pii_in(text: Seq<char>) -> Seq<(PiiType, Seq<char>, usize, usize)> {
    tagged(PiiType::Email, found(EMAIL_PATTERN@, text)) + tagged(
        PiiType::Phone,
        found(PHONE_PATTERN@, text),
    ) + tagged(PiiType::Ssn, found(SSN_PATTERN@, text)) + tagged(
        PiiType::CreditCard,
        found(CREDIT_CARD_PATTERN@, text),
    )
}

fn push_tagged(out: &mut Vec<PiiDetection>, t: PiiType, ms: Vec<RegexMatch>)
    ensures
        detection_views(final(out)@) == detection_views(old(out)@) + tagged(t, match_views(ms@)),
{
    let ghost start = detection_views(out@);
    let mut i: usize = 0;
    while i < ms.len()
        invariant
            i <= ms@.len(),
            detection_views(out@) == start + tagged(t, match_views(ms@.take(i as int))),
        decreases ms@.len() - i,
    {
        let m = &ms[i];
        let ghost before = detection_views(out@);
        out.push(
            PiiDetection { pii_type: t, matched_text: m.text.clone(), start: m.start, end: m.end },
        );
        assert(detection_views(out@) =~= before.push((t, m.text@, m.start, m.end)));
        assert(match_views(ms@.take(i + 1)) =~= match_views(ms@.take(i as int)).push(
            match_view(ms@[i as int]),
        ));
        assert(tagged(t, match_views(ms@.take(i + 1))) =~= tagged(
            t,
            match_views(ms@.take(i as int)),
        ).push((t, m.text@, m.start, m.end)));
        i = i + 1;
    }
    assert(ms@.take(ms@.len() as int) =~= ms@);
}

/// The detections for given match lists: the email matches tagged `Email`,
/// then the phone matches tagged `Phone`, then `Ssn`, then `CreditCard`.
pub fn pii_from_matches(
    email: Vec<RegexMatch>,
    phone: Vec<RegexMatch>,
    ssn: Vec<RegexMatch>,
    card: Vec<RegexMatch>,
) -> (r: Vec<PiiDetection>)
    ensures
        detection_views(r@) == tagged(PiiType::Email, match_views(email@)) + tagged(
            PiiType::Phone,
            match_views(phone@),
        ) + tagged(PiiType::Ssn, match_views(ssn@)) + tagged(
            PiiType::CreditCard,
            match_views(card@),
        ),
{
    let mut results: Vec<PiiDetection> = Vec::new();
    assert(detection_views(results@) =~= Seq::empty());
    push_tagged(&mut results, PiiType::Email, email);
    push_tagged(&mut results, PiiType::Phone, phone);
    push_tagged(&mut results, PiiType::Ssn, ssn);
    push_tagged(&mut results, PiiType::CreditCard, card);
    results
}

fn matches_or_none(pattern: &str, text: &str) -> (r: Vec<RegexMatch>)
    ensures
        match_views(r@) == found(pattern@, text@),
        matches_spanned(match_views(r@), text@),
{
    match find_all_matches(pattern, text) {
        Some(ms) => ms,
        None => {
            let v: Vec<RegexMatch> = Vec::new();
            assert(match_views(v@) =~= Seq::empty());
            v
        },
    }
}

/// Tagging spanned matches gives spanned detections; joining spanned lists
/// keeps them spanned.
proof fn lemma_tagged_spanned(
    t: PiiType,
    ms: Seq<(usize, usize, Seq<char>)>,
    ds: Seq<(PiiType, Seq<char>, usize, usize)>,
    text: Seq<char>,
)
    requires
        matches_spanned(ms, text),
        detections_spanned(ds, text),
        forall|k: int| 0 <= k < ds.len() ==> (#[trigger] ds[k]).0 != t,
    ensures
        detections_spanned(ds + tagged(t, ms), text),
        forall|k: int| 0 <= k < (ds + tagged(t, ms)).len() ==> (#[trigger] (ds + tagged(t, ms))[k]).0 == t
            || (exists|j: int| 0 <= j < ds.len() && ds[j].0 == (ds + tagged(t, ms))[k].0),
{
    let all = ds + tagged(t, ms);
    assert forall|k: int, l: int|
        0 <= k < l < all.len() && (#[trigger] all[k]).0 == (#[trigger] all[l]).0 implies all[k].3
        <= all[l].2 by {
        if l < ds.len() {
            assert(all[k] == ds[k]);
            assert(all[l] == ds[l]);
        } else if k < ds.len() {
            assert(all[k] == ds[k]);
            assert(all[l] == tagged(t, ms)[l - ds.len()]);
        } else {
            assert(all[k] == tagged(t, ms)[k - ds.len()]);
            assert(all[l] == tagged(t, ms)[l - ds.len()]);
            lemma_matches_chain(ms, text, k - ds.len(), l - ds.len());
        }
    }
    assert forall|k: int| 0 <= k < all.len() implies (#[trigger] all[k]).0 == t || (exists|j: int|
        0 <= j < ds.len() && ds[j].0 == all[k].0) by {
        if k < ds.len() {
            assert(all[k] == ds[k]);
        } else {
            assert(all[k] == tagged(t, ms)[k - ds.len()]);
        }
    }
    assert forall|k: int| 0 <= k < all.len() implies (#[trigger] all[k]).2 <= all[k].3
        <= encode_utf8(text).len() && encode_utf8(all[k].1) == encode_utf8(text).subrange(
        all[k].2 as int,
        all[k].3 as int,
    ) by {
        if k < ds.len() {
            assert(all[k] == ds[k]);
        } else {
            assert(all[k] == tagged(t, ms)[k - ds.len()]);
            assert(ms[k - ds.len()].0 <= ms[k - ds.len()].1);
        }
    }
}

/// Scan text for PII patterns. Returns detected PII items (flagged, not
/// redacted): each lies in the text, its matched text being that slice, and
/// those of one kind come in increasing, non-overlapping order.
pub fn detect_pii(text: &str) -> (r: Vec<PiiDetection>)
    ensures
        detection_views(r@) == pii_in(text@),
        detections_spanned(detection_views(r@), text@),
{
    let email = matches_or_none(EMAIL_PATTERN, text);
    let phone = matches_or_none(PHONE_PATTERN, text);
    let ssn = matches_or_none(SSN_PATTERN, text);
    let card = matches_or_none(CREDIT_CARD_PATTERN, text);
    proof {
        let e = Seq::<(PiiType, Seq<char>, usize, usize)>::empty();
        lemma_tagged_spanned(PiiType::Email, match_views(email@), e, text@);
        assert(e + tagged(PiiType::Email, match_views(email@)) =~= tagged(
            PiiType::Email,
            match_views(email@),
        ));
        let d1 = tagged(PiiType::Email, match_views(email@));
        lemma_tagged_spanned(PiiType::Phone, match_views(phone@), d1, text@);
        let d2 = d1 + tagged(PiiType::Phone, match_views(phone@));
        lemma_tagged_spanned(PiiType::Ssn, match_views(ssn@), d2, text@);
        let d3 = d2 + tagged(PiiType::Ssn, match_views(ssn@));
        lemma_tagged_spanned(PiiType::CreditCard, match_views(card@), d3, text@);
    }
    pii_from_matches(email, phone, ssn, card)
}


/// Selects the detections of kind `k`.
pub open spec fn of_kind(k: PiiType) -> spec_fn((PiiType, Seq<char>, usize, usize)) -> bool {
    |d: (PiiType, Seq<char>, usize, usize)| d.0 == k
}

proof fn lemma_kind_of_tagged(t: PiiType, k: PiiType, ms: Seq<(usize, usize, Seq<char>)>)
    ensures
        tagged(t, ms).filter(of_kind(k)) == (if t == k {
            tagged(t, ms)
        } else {
            Seq::empty()
        }),
    decreases ms.len(),
{
    reveal(Seq::filter);
    if ms.len() > 0 {
        lemma_kind_of_tagged(t, k, ms.drop_last());
        assert(tagged(t, ms).drop_last() =~= tagged(t, ms.drop_last()));
        assert(tagged(t, ms).filter(of_kind(k)) =~= (if t == k {
            tagged(t, ms)
        } else {
            Seq::empty()
        }));
    } else {
        assert(tagged(t, ms).filter(of_kind(k)) =~= Seq::empty());
        assert(tagged(t, ms) =~= Seq::empty());
    }
}

/// The spans and texts of detections, in order.
proof fn lemma_tagged_spans(t: PiiType, ms: Seq<(usize, usize, Seq<char>)>)
    ensures
        tagged(t, ms).map_values(|d: (PiiType, Seq<char>, usize, usize)| (d.2, d.3, d.1)) == ms,
{
    assert(tagged(t, ms).map_values(|d: (PiiType, Seq<char>, usize, usize)| (d.2, d.3, d.1)) =~= ms);
}

/// Every match is flagged: for each kind of personal data, the detections of
/// that kind in `text` are, in order, exactly all the matches `find_iter`
/// yields for that kind's pattern (none when the pattern does not compile),
/// each with its span and matched text.
pub proof fn lemma_detections_are_every_match(text: Seq<char>)
    ensures
        pii_in(text).filter(of_kind(PiiType::Email)).map_values(
            |d: (PiiType, Seq<char>, usize, usize)| (d.2, d.3, d.1),
        ) == (match regex_find_all(EMAIL_PATTERN@, text) {
            Some(ms) => ms,
            None => Seq::empty(),
        }),
        pii_in(text).filter(of_kind(PiiType::Phone)).map_values(
            |d: (PiiType, Seq<char>, usize, usize)| (d.2, d.3, d.1),
        ) == (match regex_find_all(PHONE_PATTERN@, text) {
            Some(ms) => ms,
            None => Seq::empty(),
        }),
        pii_in(text).filter(of_kind(PiiType::Ssn)).map_values(
            |d: (PiiType, Seq<char>, usize, usize)| (d.2, d.3, d.1),
        ) == (match regex_find_all(SSN_PATTERN@, text) {
            Some(ms) => ms,
            None => Seq::empty(),
        }),
        pii_in(text).filter(of_kind(PiiType::CreditCard)).map_values(
            |d: (PiiType, Seq<char>, usize, usize)| (d.2, d.3, d.1),
        ) == (match regex_find_all(CREDIT_CARD_PATTERN@, text) {
            Some(ms) => ms,
            None => Seq::empty(),
        }),
{
    let (m1, m2, m3, m4) = (
        found(EMAIL_PATTERN@, text),
        found(PHONE_PATTERN@, text),
        found(SSN_PATTERN@, text),
        found(CREDIT_CARD_PATTERN@, text),
    );
    lemma_filter_four(PiiType::Email, m1, m2, m3, m4);
    lemma_filter_four(PiiType::Phone, m1, m2, m3, m4);
    lemma_filter_four(PiiType::Ssn, m1, m2, m3, m4);
    lemma_filter_four(PiiType::CreditCard, m1, m2, m3, m4);
    lemma_tagged_spans(PiiType::Email, m1);
    lemma_tagged_spans(PiiType::Phone, m2);
    lemma_tagged_spans(PiiType::Ssn, m3);
    lemma_tagged_spans(PiiType::CreditCard, m4);
}

/// Keeping one kind of four blocks tagged with the four kinds keeps that
/// kind's block.
proof fn lemma_filter_four(
    k: PiiType,
    m1: Seq<(usize, usize, Seq<char>)>,
    m2: Seq<(usize, usize, Seq<char>)>,
    m3: Seq<(usize, usize, Seq<char>)>,
    m4: Seq<(usize, usize, Seq<char>)>,
)
    ensures
        (tagged(PiiType::Email, m1) + tagged(PiiType::Phone, m2) + tagged(PiiType::Ssn, m3) + tagged(
            PiiType::CreditCard,
            m4,
        )).filter(of_kind(k)) == tagged(
            k,
            match k {
                PiiType::Email => m1,
                PiiType::Phone => m2,
                PiiType::Ssn => m3,
                PiiType::CreditCard => m4,
            },
        ),
{
    let (e, ph, ss, cc) = (
        tagged(PiiType::Email, m1),
        tagged(PiiType::Phone, m2),
        tagged(PiiType::Ssn, m3),
        tagged(PiiType::CreditCard, m4),
    );
    Seq::filter_distributes_over_add(e + ph + ss, cc, of_kind(k));
    Seq::filter_distributes_over_add(e + ph, ss, of_kind(k));
    Seq::filter_distributes_over_add(e, ph, of_kind(k));
    lemma_kind_of_tagged(PiiType::Email, k, m1);
    lemma_kind_of_tagged(PiiType::Phone, k, m2);
    lemma_kind_of_tagged(PiiType::Ssn, k, m3);
    lemma_kind_of_tagged(PiiType::CreditCard, k, m4);
    let r = (e + ph + ss + cc).filter(of_kind(k));
    match k {
        PiiType::Email => assert(r =~= e),
        PiiType::Phone => assert(r =~= ph),
        PiiType::Ssn => assert(r =~= ss),
        PiiType::CreditCard => assert(r =~= cc),
    }
}
} // verus!
