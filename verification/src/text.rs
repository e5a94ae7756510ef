//! Character-sequence operations the recorder's text handling is built on.
//!
//! Text is handled as sequences of `char`; each operation here carries the
//! meaning of the corresponding `str` method as its contract.
use vstd::prelude::*;

verus! {

/// The Unicode `White_Space` property, the definition that `char::is_whitespace`
/// and the `str` trimming and splitting methods document.
pub open spec fn is_white_space(c: char) -> bool {
    let u = c as u32;
    ||| 0x09 <= u <= 0x0d
    ||| u == 0x20
    ||| u == 0x85
    ||| u == 0xa0
    ||| u == 0x1680
    ||| 0x2000 <= u <= 0x200a
    ||| u == 0x2028
    ||| u == 0x2029
    ||| u == 0x202f
    ||| u == 0x205f
    ||| u == 0x3000
}

/// Whether `c` is Unicode white space.
pub fn char_is_white_space(c: char) -> (b: bool)
    ensures
        b == is_white_space(c),
{
    let u = c as u32;
    (0x09 <= u && u <= 0x0d) || u == 0x20 || u == 0x85 || u == 0xa0 || u == 0x1680 || (0x2000
        <= u && u <= 0x200a) || u == 0x2028 || u == 0x2029 || u == 0x202f || u == 0x205f || u
        == 0x3000
}

/// A class of characters that trimming removes.
#[derive(Debug, Clone, Copy, PartialEq, Eq, Structural)]
pub enum CharClass {
    WhiteSpace,
    Exactly(char),
}

pub open spec fn in_class(cls: CharClass, c: char) -> bool {
    match cls {
        CharClass::WhiteSpace => is_white_space(c),
        CharClass::Exactly(x) => c == x,
    }
}

pub fn class_contains(cls: CharClass, c: char) -> (b: bool)
    ensures
        b == in_class(cls, c),
{
    match cls {
        CharClass::WhiteSpace => char_is_white_space(c),
        CharClass::Exactly(x) => c == x,
    }
}

/// `s` without its leading characters of class `cls`.
pub open spec fn strip_leading(s: Seq<char>, cls: CharClass) -> Seq<char>
    decreases s.len(),
{
    if s.len() > 0 && in_class(cls, s[0]) {
        strip_leading(s.drop_first(), cls)
    } else {
        s
    }
}

/// `s` without its trailing characters of class `cls`.
pub open spec fn strip_trailing(s: Seq<char>, cls: CharClass) -> Seq<char>
    decreases s.len(),
{
    if s.len() > 0 && in_class(cls, s.last()) {
        strip_trailing(s.drop_last(), cls)
    } else {
        s
    }
}

/// `s` without leading and trailing characters of class `cls`
/// (`str::trim` for white space, `str::trim_matches(c)` for a character).
pub open spec fn strip(s: Seq<char>, cls: CharClass) -> Seq<char> {
    strip_trailing(strip_leading(s, cls), cls)
}

/// The bounds of `strip(s, cls)` inside `s`.
pub fn strip_bounds(s: &[char], cls: CharClass) -> (r: (usize, usize))
    ensures
        r.0 <= r.1 <= s@.len(),
        s@.subrange(r.0 as int, r.1 as int) == strip(s@, cls),
{
    let n = s.len();
    let mut i: usize = 0;
    assert(s@.skip(0) =~= s@);
    while i < n && class_contains(cls, s[i])
        invariant
            n == s@.len(),
            i <= n,
            strip_leading(s@, cls) == strip_leading(s@.skip(i as int), cls),
        decreases n - i,
    {
        assert(s@.skip(i as int).drop_first() =~= s@.skip(i + 1));
        i = i + 1;
    }
    assert(strip_leading(s@.skip(i as int), cls) == s@.skip(i as int));
    assert(s@.skip(i as int) =~= s@.subrange(i as int, n as int));
    let mut j: usize = n;
    while j > i && class_contains(cls, s[j - 1])
        invariant
            n == s@.len(),
            i <= j <= n,
            strip(s@, cls) == strip_trailing(s@.subrange(i as int, j as int), cls),
        decreases j,
    {
        assert(s@.subrange(i as int, j as int).drop_last() =~= s@.subrange(
            i as int,
            j - 1,
        ));
        j = j - 1;
    }
    (i, j)
}

/// A copy of `s[lo..hi]`.
pub fn copy_range<T: Copy>(s: &[T], lo: usize, hi: usize) -> (r: Vec<T>)
    requires
        lo <= hi <= s@.len(),
    ensures
        r@ == s@.subrange(lo as int, hi as int),
{
    let mut v: Vec<T> = Vec::new();
    let mut k = lo;
    while k < hi
        invariant
            lo <= k <= hi <= s@.len(),
            v@ == s@.subrange(lo as int, k as int),
        decreases hi - k,
    {
        v.push(s[k]);
        k = k + 1;
        assert(v@ =~= s@.subrange(lo as int, k as int));
    }
    v
}

/// `s` trimmed of characters of class `cls` at both ends.
pub fn strip_chars(s: &[char], cls: CharClass) -> (r: Vec<char>)
    ensures
        r@ == strip(s@, cls),
{
    let (lo, hi) = strip_bounds(s, cls);
    copy_range(s, lo, hi)
}

/// The characters of `s`, in order.
pub fn chars_of(s: &str) -> (r: Vec<char>)
    ensures
        r@ == s@,
{
    let mut v: Vec<char> = Vec::new();
    for c in it: s.chars()
        invariant
            it.seq() == s@,
            v@ == it.seq().take(it.index()),
    {
        v.push(c);
    }
    v
}

/// Whether two character sequences are equal.
pub fn chars_equal(a: &[char], b: &[char]) -> (r: bool)
    ensures
        r == (a@ == b@),
{
    if a.len() != b.len() {
        return false;
    }
    let mut k: usize = 0;
    while k < a.len()
        invariant
            a@.len() == b@.len(),
            k <= a@.len(),
            forall|m: int| 0 <= m < k ==> a@[m] == b@[m],
        decreases a@.len() - k,
    {
        if a[k] != b[k] {
            return false;
        }
        k = k + 1;
    }
    assert(a@ =~= b@);
    true
}

/// `needle` occurs in `hay` starting at position `i`.
pub open spec fn occurs_at(hay: Seq<char>, needle: Seq<char>, i: int) -> bool {
    0 <= i && i + needle.len() <= hay.len() && hay.subrange(i, i + needle.len()) == needle
}

/// `hay` contains `needle` (`str::contains` with a string pattern).
pub open spec fn contains_seq(hay: Seq<char>, needle: Seq<char>) -> bool {
    exists|i: int| #[trigger] occurs_at(hay, needle, i)
}

pub fn matches_at(hay: &[char], needle: &[char], i: usize) -> (r: bool)
    ensures
        r == occurs_at(hay@, needle@, i as int),
{
    if i > hay.len() || needle.len() > hay.len() - i {
        return false;
    }
    let mut k: usize = 0;
    while k < needle.len()
        invariant
            i + needle.len() <= hay.len(),
            k <= needle@.len(),
            forall|m: int| 0 <= m < k ==> hay@[i + m] == needle@[m],
        decreases needle@.len() - k,
    {
        if hay[i + k] != needle[k] {
            assert(hay@.subrange(i as int, i + needle@.len())[k as int] != needle@[k as int]);
            return false;
        }
        k = k + 1;
    }
    assert(hay@.subrange(i as int, i + needle@.len()) =~= needle@);
    true
}

/// Whether `hay` contains `needle`.
pub fn contains(hay: &[char], needle: &[char]) -> (r: bool)
    ensures
        r == contains_seq(hay@, needle@),
{
    if needle.len() > hay.len() {
        return false;
    }
    let last = hay.len() - needle.len();
    let mut i: usize = 0;
    loop
        invariant
            last + needle.len() == hay.len(),
            i <= last,
            forall|j: int| 0 <= j < i ==> !occurs_at(hay@, needle@, j),
        decreases last - i,
    {
        if matches_at(hay, needle, i) {
            return true;
        }
        if i == last {
            assert forall|j: int| !#[trigger] occurs_at(hay@, needle@, j) by {
                if 0 <= j < i {
                }
            }
            return false;
        }
        i = i + 1;
    }
}

/// `i` is the last position at which `needle` occurs in `hay`.
pub open spec fn is_last_occurrence(hay: Seq<char>, needle: Seq<char>, i: int) -> bool {
    occurs_at(hay, needle, i) && forall|j: int| i < j ==> !#[trigger] occurs_at(hay, needle, j)
}

/// `str::rsplit_once`: the parts before and after the last occurrence of `delim`.
pub open spec fn rsplit_once_seq(hay: Seq<char>, delim: Seq<char>) -> Option<(Seq<char>, Seq<char>)> {
    if exists|i: int| #[trigger] is_last_occurrence(hay, delim, i) {
        let i = choose|i: int| #[trigger] is_last_occurrence(hay, delim, i);
        Some((hay.take(i), hay.skip(i + delim.len())))
    } else {
        None
    }
}

/// The parts of `hay` before and after the last occurrence of `delim`.
pub fn rsplit_once(hay: &[char], delim: &[char]) -> (r: Option<(Vec<char>, Vec<char>)>)
    ensures
        match r {
            Some((a, b)) => rsplit_once_seq(hay@, delim@) == Some((a@, b@)),
            None => rsplit_once_seq(hay@, delim@) is None,
        },
{
    if delim.len() > hay.len() {
        assert forall|i: int| !#[trigger] is_last_occurrence(hay@, delim@, i) by {}
        return None;
    }
    let mut i: usize = hay.len() - delim.len();
    loop
        invariant
            i + delim.len() <= hay.len(),
            forall|j: int| i < j ==> !#[trigger] occurs_at(hay@, delim@, j),
        decreases i,
    {
        if matches_at(hay, delim, i) {
            assert(is_last_occurrence(hay@, delim@, i as int));
            assert forall|k: int| #[trigger] is_last_occurrence(hay@, delim@, k) implies k
                == i by {
                if k < i {
                    assert(occurs_at(hay@, delim@, i as int));
                }
            }
            let before = copy_range(hay, 0, i);
            let after = copy_range(hay, i + delim.len(), hay.len());
            assert(before@ =~= hay@.take(i as int));
            assert(after@ =~= hay@.skip(i + delim@.len()));
            return Some((before, after));
        }
        if i == 0 {
            assert forall|k: int| !#[trigger] is_last_occurrence(hay@, delim@, k) by {
                if k == 0 {
                    assert(!occurs_at(hay@, delim@, 0));
                }
            }
            return None;
        }
        i = i - 1;
    }
}


/// The maximal run of non-white-space characters that starts `s`.
pub open spec fn leading_word(s: Seq<char>) -> Seq<char>
    decreases s.len(),
{
    if s.len() == 0 || is_white_space(s[0]) {
        Seq::empty()
    } else {
        seq![s[0]] + leading_word(s.drop_first())
    }
}

pub proof fn lemma_leading_word_len(s: Seq<char>)
    ensures
        leading_word(s).len() <= s.len(),
        s.len() > 0 && !is_white_space(s[0]) ==> leading_word(s).len() >= 1,
    decreases s.len(),
{
    if s.len() > 0 && !is_white_space(s[0]) {
        lemma_leading_word_len(s.drop_first());
    }
}

/// The words of `s`: its maximal runs of non-white-space characters, in order
/// (`str::split_whitespace`).
pub open spec fn words(s: Seq<char>) -> Seq<Seq<char>>
    decreases s.len(),
{
    if s.len() == 0 {
        Seq::empty()
    } else if is_white_space(s[0]) {
        words(s.drop_first())
    } else {
        proof {
            lemma_leading_word_len(s);
        }
        seq![leading_word(s)] + words(s.skip(leading_word(s).len() as int))
    }
}

/// The views of a sequence of strings.
pub open spec fn string_views(v: Seq<String>) -> Seq<Seq<char>> {
    v.map_values(|s: String| s@)
}

/// The views of a vector of character vectors.
pub open spec fn views_of(v: Seq<Vec<char>>) -> Seq<Seq<char>> {
    v.map_values(|w: Vec<char>| w@)
}

/// The end of the word that starts at `i`.
fn word_end(s: &[char], i: usize) -> (j: usize)
    requires
        i < s@.len(),
        !is_white_space(s@[i as int]),
    ensures
        i < j <= s@.len(),
        leading_word(s@.skip(i as int)) == s@.subrange(i as int, j as int),
{
    let mut j: usize = i;
    assert(s@.subrange(i as int, i as int) =~= Seq::<char>::empty());
    while j < s.len() && !char_is_white_space(s[j])
        invariant
            i <= j <= s@.len(),
            leading_word(s@.skip(i as int)) == s@.subrange(i as int, j as int) + leading_word(
                s@.skip(j as int),
            ),
        decreases s@.len() - j,
    {
        assert(s@.skip(j as int).drop_first() =~= s@.skip(j + 1));
        assert(s@.subrange(i as int, j + 1) =~= s@.subrange(i as int, j as int) + seq![s@[j as int]]);
        j = j + 1;
    }
    assert(leading_word(s@.skip(j as int)) =~= Seq::<char>::empty());
    assert(s@.subrange(i as int, j as int) + Seq::<char>::empty() =~= s@.subrange(i as int, j as int));
    if j == i {
        assert(s@.skip(i as int)[0] == s@[i as int]);
    }
    j
}

/// The words of `s`, in order.
pub fn split_whitespace(s: &[char]) -> (r: Vec<Vec<char>>)
    ensures
        views_of(r@) == words(s@),
{
    let mut out: Vec<Vec<char>> = Vec::new();
    let mut i: usize = 0;
    assert(s@.skip(0) =~= s@);
    while i < s.len()
        invariant
            i <= s@.len(),
            words(s@) == views_of(out@) + words(s@.skip(i as int)),
        decreases s@.len() - i,
    {
        if char_is_white_space(s[i]) {
            assert(s@.skip(i as int).drop_first() =~= s@.skip(i + 1));
            i = i + 1;
        } else {
            let j = word_end(s, i);
            let w = copy_range(s, i, j);
            let ghost rest = s@.skip(i as int);
            assert(rest.skip(leading_word(rest).len() as int) =~= s@.skip(j as int));
            assert(words(rest) == seq![w@] + words(s@.skip(j as int)));
            let ghost before = views_of(out@);
            out.push(w);
            assert(views_of(out@) =~= before.push(w@));
            assert(views_of(out@) + words(s@.skip(j as int)) =~= before + (seq![w@] + words(
                s@.skip(j as int),
            )));
            i = j;
        }
    }
    assert(words(s@.skip(i as int)) =~= Seq::<Seq<char>>::empty()) by {
        assert(s@.skip(i as int).len() == 0);
    }
    assert(views_of(out@) + Seq::<Seq<char>>::empty() =~= views_of(out@));
    out
}

/// `str::to_lowercase`: the lowercase equivalent of a string, by the Unicode
/// `Lowercase` mapping.
pub uninterp spec fn lowercase(s: Seq<char>) -> Seq<char>;

/// Whether every character is ASCII.
pub open spec fn all_ascii(s: Seq<char>) -> bool {
    forall|i: int| 0 <= i < s.len() ==> (#[trigger] s[i] as u32) < 128
}

/// ASCII lowercase of one character: `A`..`Z` become `a`..`z`.
pub open spec fn ascii_lower(c: char) -> char {
    if 'A' <= c && c <= 'Z' {
        ((c as u32) + 32) as char
    } else {
        c
    }
}

/// Calls `str::to_lowercase` on the string made of `s`'s characters; the result
/// is named `lowercase(s@)`. On ASCII text, Unicode lowercasing maps each
/// letter `A`..`Z` to `a`..`z` and leaves every other character alone.
#[verifier::external_body]
pub fn to_lowercase(s: &[char]) -> (r: Vec<char>)
    ensures
        r@ == lowercase(s@),
        all_ascii(s@) ==> r@ == s@.map_values(|c: char| ascii_lower(c)),
{
    s.iter().collect::<String>().to_lowercase().chars().collect()
}

/// Builds a `String` from characters (`String: FromIterator<char>`).
#[verifier::external_body]
pub fn string_from_chars(s: &[char]) -> (r: String)
    ensures
        r@ == s@,
{
    s.iter().collect()
}

} // verus!
