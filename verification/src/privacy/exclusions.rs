//! The capture exclusion list: applications and URLs that are never recorded.
use vstd::prelude::*;

use crate::text::{
    chars_of, contains, contains_seq, lowercase, strip, strip_chars, string_views, to_lowercase,
    CharClass,
};

verus! {

/// `app` names an excluded application: its lowercase form contains the
/// lowercase form of some entry of `apps`.
pub open spec fn app_matches(apps: Seq<Seq<char>>, app: Seq<char>) -> bool {
    exists|i: int| 0 <= i < apps.len() && contains_seq(lowercase(app), lowercase(#[trigger] apps[i]))
}

/// The text a URL pattern stands for: the lowercase pattern without its
/// surrounding `*` wildcards.
pub open spec fn url_pattern_core(pattern: Seq<char>) -> Seq<char> {
    strip(lowercase(pattern), CharClass::Exactly('*'))
}

/// `url` matches an exclusion pattern: its lowercase form contains the core of
/// some entry of `patterns`.
pub open spec fn url_matches(patterns: Seq<Seq<char>>, url: Seq<char>) -> bool {
    exists|i: int|
        0 <= i < patterns.len() && contains_seq(lowercase(url), url_pattern_core(#[trigger] patterns[i]))
}

/// Checks whether an app or URL should be excluded from capture.
pub struct ExclusionFilter {
    excluded_apps: Vec<String>,
    excluded_url_patterns: Vec<String>,
}

impl ExclusionFilter {
    /// The excluded application names.
    pub closed spec fn apps(&self) -> Seq<Seq<char>> {
        string_views(self.excluded_apps@)
    }

    /// The excluded URL patterns.
    pub closed spec fn url_patterns(&self) -> Seq<Seq<char>> {
        string_views(self.excluded_url_patterns@)
    }

    pub fn new(excluded_apps: Vec<String>, excluded_url_patterns: Vec<String>) -> (f: Self)
        ensures
            f.apps() == string_views(excluded_apps@),
            f.url_patterns() == string_views(excluded_url_patterns@),
    {
        Self { excluded_apps, excluded_url_patterns }
    }

    /// Returns true if the given app should NOT be captured
    /// (case-insensitive substring match against the excluded names).
    pub fn is_app_excluded(&self, app_name: &str) -> (r: bool)
        ensures
            r == app_matches(self.apps(), app_name@),
    {
        let app_lower = to_lowercase(chars_of(app_name).as_slice());
        let n = self.excluded_apps.len();
        let mut i: usize = 0;
        while i < n
            invariant
                n == self.excluded_apps@.len(),
                i <= n,
                app_lower@ == lowercase(app_name@),
                forall|j: int|
                    0 <= j < i ==> !contains_seq(
                        lowercase(app_name@),
                        lowercase(#[trigger] self.excluded_apps@[j]@),
                    ),
            decreases n - i,
        {
            let excl = to_lowercase(chars_of(self.excluded_apps[i].as_str()).as_slice());
            if contains(app_lower.as_slice(), excl.as_slice()) {
                assert(self.apps()[i as int] == self.excluded_apps@[i as int]@);
                return true;
            }
            i = i + 1;
        }
        assert forall|j: int| 0 <= j < self.apps().len() implies !contains_seq(
            lowercase(app_name@),
            lowercase(#[trigger] self.apps()[j]),
        ) by {
            assert(self.apps()[j] == self.excluded_apps@[j]@);
        }
        false
    }

    /// Returns true if the given URL matches an exclusion pattern
    /// (`*pattern*` style: the pattern's stars are dropped and the rest is
    /// matched case-insensitively anywhere in the URL).
    pub fn is_url_excluded(&self, url: &str) -> (r: bool)
        ensures
            r == url_matches(self.url_patterns(), url@),
    {
        let url_lower = to_lowercase(chars_of(url).as_slice());
        let n = self.excluded_url_patterns.len();
        let mut i: usize = 0;
        while i < n
            invariant
                n == self.excluded_url_patterns@.len(),
                i <= n,
                url_lower@ == lowercase(url@),
                forall|j: int|
                    0 <= j < i ==> !contains_seq(
                        lowercase(url@),
                        url_pattern_core(#[trigger] self.excluded_url_patterns@[j]@),
                    ),
            decreases n - i,
        {
            let pattern_lower = to_lowercase(
                chars_of(self.excluded_url_patterns[i].as_str()).as_slice(),
            );
            let core = strip_chars(pattern_lower.as_slice(), CharClass::Exactly('*'));
            if contains(url_lower.as_slice(), core.as_slice()) {
                assert(self.url_patterns()[i as int] == self.excluded_url_patterns@[i as int]@);
                return true;
            }
            i = i + 1;
        }
        assert forall|j: int| 0 <= j < self.url_patterns().len() implies !contains_seq(
            lowercase(url@),
            url_pattern_core(#[trigger] self.url_patterns()[j]),
        ) by {
            assert(self.url_patterns()[j] == self.excluded_url_patterns@[j]@);
        }
        false
    }
}

/// Exclusion is case-insensitive: two application names with the same
/// lowercase form are excluded alike, and so are two such URLs.
pub proof fn lemma_exclusion_ignores_case(f: ExclusionFilter, a: Seq<char>, b: Seq<char>)
    requires
        lowercase(a) == lowercase(b),
    ensures
        app_matches(f.apps(), a) == app_matches(f.apps(), b),
        url_matches(f.url_patterns(), a) == url_matches(f.url_patterns(), b),
{
}

/// A filter with no entries excludes nothing.
pub proof fn lemma_empty_filter_excludes_nothing(f: ExclusionFilter, a: Seq<char>)
    requires
        f.apps().len() == 0,
        f.url_patterns().len() == 0,
    ensures
        !app_matches(f.apps(), a),
        !url_matches(f.url_patterns(), a),
{
}

/// An excluded name stays excluded whatever is added around it: if the
/// lowercase form of `a` occurs inside the lowercase form of `b`, every filter
/// that excludes `a` excludes `b`.
pub proof fn lemma_exclusion_extends_to_containing_names(
    f: ExclusionFilter,
    a: Seq<char>,
    b: Seq<char>,
    at: int,
)
    requires
        crate::text::occurs_at(lowercase(b), lowercase(a), at),
        app_matches(f.apps(), a),
    ensures
        app_matches(f.apps(), b),
{
    let i = choose|i: int|
        0 <= i < f.apps().len() && contains_seq(lowercase(a), lowercase(#[trigger] f.apps()[i]));
    let e = lowercase(f.apps()[i]);
    let k = choose|k: int| #[trigger] crate::text::occurs_at(lowercase(a), e, k);
    let la = lowercase(a);
    let lb = lowercase(b);
    assert(lb.subrange(at + k, at + k + e.len()) =~= la.subrange(k, k + e.len()));
    assert(crate::text::occurs_at(lb, e, at + k));
}


/// URL patterns are case-insensitive too: patterns with the same lowercase
/// form exclude exactly the same URLs, and so do application entries with
/// the same lowercase form.
pub proof fn lemma_exclusion_entries_ignore_case(p: Seq<char>, q: Seq<char>, x: Seq<char>)
    requires
        lowercase(p) == lowercase(q),
    ensures
        url_matches(seq![p], x) == url_matches(seq![q], x),
        app_matches(seq![p], x) == app_matches(seq![q], x),
{
    assert(url_pattern_core(p) == url_pattern_core(q));
    let (sp, sq) = (seq![p], seq![q]);
    assert(sp[0] == p);
    assert(sq[0] == q);
    if url_matches(sp, x) {
        let i = choose|i: int| 0 <= i < sp.len() && contains_seq(lowercase(x), url_pattern_core(#[trigger] sp[i]));
        assert(i == 0);
    }
    if url_matches(sq, x) {
        let i = choose|i: int| 0 <= i < sq.len() && contains_seq(lowercase(x), url_pattern_core(#[trigger] sq[i]));
        assert(i == 0);
    }
    if app_matches(sp, x) {
        let i = choose|i: int| 0 <= i < sp.len() && contains_seq(lowercase(x), lowercase(#[trigger] sp[i]));
        assert(i == 0);
    }
    if app_matches(sq, x) {
        let i = choose|i: int| 0 <= i < sq.len() && contains_seq(lowercase(x), lowercase(#[trigger] sq[i]));
        assert(i == 0);
    }
}


/// Every listed application is excluded, whatever the case it is written in.
pub proof fn lemma_listed_entries_are_excluded(apps: Seq<Seq<char>>, i: int, app: Seq<char>)
    requires
        0 <= i < apps.len(),
        lowercase(app) == lowercase(apps[i]),
    ensures
        app_matches(apps, app),
{
    let l = lowercase(app);
    assert(crate::text::occurs_at(l, l, 0)) by {
        assert(l.subrange(0, l.len() as int) =~= l);
    }
    assert(contains_seq(l, lowercase(apps[i])));
}

} // verus!
