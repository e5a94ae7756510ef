//! The host of a URL, for the URL-domain search filter.
use vstd::prelude::*;

use crate::text::{chars_of, copy_range};

verus! {

/// The length of the run at the start of `s` that holds none of `stops`.
pub open spec fn span_to(s: Seq<char>, stops: Seq<char>) -> nat
    decreases s.len(),
{
    if s.len() == 0 || stops.contains(s[0]) {
        0
    } else {
        1 + span_to(s.drop_first(), stops)
    }
}

pub proof fn lemma_span_to_bound(s: Seq<char>, stops: Seq<char>)
    ensures
        span_to(s, stops) <= s.len(),
    decreases s.len(),
{
    if s.len() > 0 && !stops.contains(s[0]) {
        lemma_span_to_bound(s.drop_first(), stops);
    }
}

/// What follows `scheme://` when the URL starts with a scheme; the whole
/// URL otherwise.
pub open spec fn after_scheme(u: Seq<char>) -> Seq<char> {
    let k = span_to(u, seq![':', '/', '?', '#']);
    if k + 3 <= u.len() && u.subrange(k as int, k as int + 3) == seq![':', '/', '/'] {
        u.skip(k as int + 3)
    } else {
        u
    }
}

/// The authority of a URL: from after the scheme to the first `/`, `?` or `#`.
pub open spec fn authority(u: Seq<char>) -> Seq<char> {
    let r = after_scheme(u);
    r.take(span_to(r, seq!['/', '?', '#']) as int)
}

/// What follows the last `@` (the user information) of an authority.
pub open spec fn after_last_at(a: Seq<char>) -> Seq<char>
    decreases a.len(),
{
    let k = span_to(a, seq!['@']);
    if k >= a.len() {
        a
    } else {
        proof {
            lemma_span_to_bound(a, seq!['@']);
        }
        after_last_at(a.skip(k as int + 1))
    }
}

/// The host of a URL: its authority without user information and port.
pub open spec fn url_host(u: Seq<char>) -> Seq<char> {
    let hp = after_last_at(authority(u));
    hp.take(span_to(hp, seq![':']) as int)
}

fn is_one_of(c: char, stops: &[char]) -> (r: bool)
    ensures
        r == stops@.contains(c),
{
    let mut i: usize = 0;
    while i < stops.len()
        invariant
            i <= stops@.len(),
            forall|j: int| 0 <= j < i ==> stops@[j] != c,
        decreases stops@.len() - i,
    {
        if stops[i] == c {
            assert(stops@[i as int] == c);
            return true;
        }
        i = i + 1;
    }
    false
}

/// The end of the run of `s` from `start` that holds none of `stops`.
fn span_from(s: &[char], start: usize, stops: &[char]) -> (r: usize)
    requires
        start <= s@.len(),
    ensures
        r == start + span_to(s@.skip(start as int), stops@),
        r <= s@.len(),
{
    let mut i = start;
    while i < s.len() && !is_one_of(s[i], stops)
        invariant
            start <= i <= s@.len(),
            span_to(s@.skip(start as int), stops@) == (i - start) + span_to(
                s@.skip(i as int),
                stops@,
            ),
        decreases s@.len() - i,
    {
        assert(s@.skip(i as int)[0] == s@[i as int]);
        assert(s@.skip(i as int).drop_first() =~= s@.skip(i + 1));
        i = i + 1;
    }
    proof {
        if i == s@.len() {
            assert(s@.skip(i as int).len() == 0);
        } else {
            assert(s@.skip(i as int)[0] == s@[i as int]);
        }
    }
    i
}

/// The host of `url`, as `url_host` defines it.
pub fn host_of(url: &str) -> (r: Vec<char>)
    ensures
        r@ == url_host(url@),
{
    let u = chars_of(url);
    let n = u.len();
    assert(u@.skip(0) =~= u@);
    let k = span_from(u.as_slice(), 0, &[':', '/', '?', '#']);
    let rest_start: usize = if n - k >= 3 && u[k] == ':' && u[k + 1] == '/' && u[k + 2] == '/' {
        assert(u@.subrange(k as int, k + 3) =~= seq![':', '/', '/']);
        k + 3
    } else {
        proof {
            if k + 3 <= n && u@.subrange(k as int, k + 3) == seq![':', '/', '/'] {
                assert(u@[k as int] == u@.subrange(k as int, k + 3)[0]);
                assert(u@[k + 1] == u@.subrange(k as int, k + 3)[1]);
                assert(u@[k + 2] == u@.subrange(k as int, k + 3)[2]);
            }
        }
        0
    };
    let ghost r = after_scheme(url@);
    assert(u@.skip(rest_start as int) =~= r);
    let e = span_from(u.as_slice(), rest_start, &['/', '?', '#']);
    let auth = copy_range(u.as_slice(), rest_start, e);
    assert(auth@ =~= authority(url@));
    let mut pos: usize = 0;
    assert(auth@.skip(0) =~= auth@);
    let at: [char; 1] = ['@'];
    assert(at@ =~= seq!['@']);
    loop
        invariant
            pos <= auth@.len(),
            at@ == seq!['@'],
            after_last_at(auth@) == after_last_at(auth@.skip(pos as int)),
        ensures
            pos <= auth@.len(),
            after_last_at(auth@) == auth@.skip(pos as int),
        decreases auth@.len() - pos,
    {
        let j = span_from(auth.as_slice(), pos, &at);
        let ghost t = auth@.skip(pos as int);
        if j >= auth.len() {
            assert(span_to(t, seq!['@']) >= t.len());
            assert(after_last_at(t) == t);
            break;
        }
        assert(t.skip(j - pos + 1) =~= auth@.skip(j + 1));
        assert(after_last_at(t) == after_last_at(t.skip(j - pos + 1)));
        pos = j + 1;
    }
    let ghost hp = after_last_at(auth@);
    assert(auth@.skip(pos as int) =~= hp);
    let colon: [char; 1] = [':'];
    assert(colon@ =~= seq![':']);
    let h = span_from(auth.as_slice(), pos, &colon);
    let host = copy_range(auth.as_slice(), pos, h);
    assert(host@ =~= hp.take(span_to(hp, seq![':']) as int));
    host
}

} // verus!
