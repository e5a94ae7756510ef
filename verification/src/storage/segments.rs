//! Segment files on disk: which directory entries are segments, and their
//! order: by name, except that segments `segment_<ts>.mkv` sort by their
//! timestamp, oldest first.
use vstd::prelude::*;

use std::path::PathBuf;

verus! {

/// The byte of a dot.
pub open spec fn dot() -> u8 {
    46u8
}

/// Index of the last dot of a file name, or -1 when it has none.
pub open spec fn last_dot_index(name: Seq<u8>) -> int
    decreases name.len(),
{
    if name.len() == 0 {
        -1
    } else if name.last() == dot() {
        name.len() - 1
    } else {
        last_dot_index(name.drop_last())
    }
}

/// The extension of a file name, as `Path::extension` gives it: the bytes
/// after the last dot, unless there is no dot, the only dot is the first
/// byte, or the name is `..`.
pub open spec fn file_extension(name: Seq<u8>) -> Option<Seq<u8>> {
    let i = last_dot_index(name);
    if i <= 0 || name == seq![dot(), dot()] {
        None
    } else {
        Some(name.subrange(i + 1, name.len() as int))
    }
}

/// The extension of segment video files.
pub open spec fn mkv() -> Seq<u8> {
    seq![109u8, 107u8, 118u8]
}

/// A directory entry is a segment file when its extension is `mkv`.
pub open spec fn is_segment_name(name: Seq<u8>) -> bool {
    file_extension(name) == Some(mkv())
}

/// Byte-wise lexicographic order, a proper prefix first (the order of
/// `[u8]`, and of file names in a directory listing).
pub open spec fn bytes_le(a: Seq<u8>, b: Seq<u8>) -> bool
    decreases a.len(),
{
    if a.len() == 0 {
        true
    } else if b.len() == 0 {
        false
    } else if a[0] != b[0] {
        a[0] < b[0]
    } else {
        bytes_le(a.drop_first(), b.drop_first())
    }
}

pub proof fn lemma_last_dot_index(name: Seq<u8>)
    ensures
        -1 <= last_dot_index(name) < name.len(),
        last_dot_index(name) >= 0 ==> name[last_dot_index(name)] == dot(),
        forall|j: int| last_dot_index(name) < j < name.len() ==> name[j] != dot(),
    decreases name.len(),
{
    if name.len() > 0 && name.last() != dot() {
        lemma_last_dot_index(name.drop_last());
        assert forall|j: int| last_dot_index(name) < j < name.len() implies name[j] != dot() by {
            if j < name.len() - 1 {
                assert(name[j] == name.drop_last()[j]);
            }
        }
    }
}

/// Either order holds between two names.
pub proof fn lemma_bytes_le_total(a: Seq<u8>, b: Seq<u8>)
    ensures
        bytes_le(a, b) || bytes_le(b, a),
    decreases a.len(),
{
    if a.len() > 0 && b.len() > 0 && a[0] == b[0] {
        lemma_bytes_le_total(a.drop_first(), b.drop_first());
    }
}

/// The order is transitive.
pub proof fn lemma_bytes_le_transitive(a: Seq<u8>, b: Seq<u8>, c: Seq<u8>)
    requires
        bytes_le(a, b),
        bytes_le(b, c),
    ensures
        bytes_le(a, c),
    decreases a.len(),
{
    if a.len() > 0 && b.len() > 0 && c.len() > 0 && a[0] == b[0] && b[0] == c[0] {
        lemma_bytes_le_transitive(a.drop_first(), b.drop_first(), c.drop_first());
    }
}

/// Whether a directory entry named `name` is a segment file (its name ends
/// in `.mkv` after at least one other byte).
pub fn is_segment_file_name(name: &[u8]) -> (r: bool)
    ensures
        r == is_segment_name(name@),
{
    let n = name.len();
    proof {
        lemma_last_dot_index(name@);
    }
    let r = n > 4 && name[n - 4] == 46u8 && name[n - 3] == 109u8 && name[n - 2] == 107u8
        && name[n - 1] == 118u8;
    proof {
        let s = name@;
        let i = last_dot_index(s);
        if r {
            assert(s.drop_last().drop_last().drop_last().last() == dot());
            assert(last_dot_index(s) == last_dot_index(s.drop_last()));
            assert(last_dot_index(s.drop_last()) == last_dot_index(s.drop_last().drop_last()));
            assert(last_dot_index(s.drop_last().drop_last()) == last_dot_index(
                s.drop_last().drop_last().drop_last(),
            ));
            assert(i == n - 4);
            assert(s.subrange(i + 1, n as int) =~= mkv());
            assert(s != seq![dot(), dot()]) by {
                assert(s.len() != 2);
            }
        } else if is_segment_name(s) {
            let ext = s.subrange(i + 1, n as int);
            assert(ext == mkv());
            assert(ext.len() == 3);
            assert(i == n - 4);
            assert(ext[0] == s[n - 3]);
            assert(ext[1] == s[n - 2]);
            assert(ext[2] == s[n - 1]);
            assert(false);
        }
    }
    r
}

/// Compares two names in `bytes_le` order.
pub fn names_in_order(a: &[u8], b: &[u8]) -> (r: bool)
    ensures
        r == bytes_le(a@, b@),
{
    let mut i: usize = 0;
    assert(a@.skip(0) =~= a@);
    assert(b@.skip(0) =~= b@);
    while i < a.len() && i < b.len()
        invariant
            i <= a@.len(),
            i <= b@.len(),
            bytes_le(a@, b@) == bytes_le(a@.skip(i as int), b@.skip(i as int)),
        decreases a@.len() - i,
    {
        if a[i] != b[i] {
            assert(a@.skip(i as int)[0] == a@[i as int]);
            assert(b@.skip(i as int)[0] == b@[i as int]);
            return a[i] < b[i];
        }
        assert(a@.skip(i as int).drop_first() =~= a@.skip(i + 1));
        assert(b@.skip(i as int).drop_first() =~= b@.skip(i + 1));
        i = i + 1;
    }
    i == a.len()
}

/// The bytes of `segment_`.
pub open spec fn segment_prefix() -> Seq<u8> {
    seq![115u8, 101u8, 103u8, 109u8, 101u8, 110u8, 116u8, 95u8]
}

/// The bytes of `.mkv`.
pub open spec fn mkv_suffix() -> Seq<u8> {
    seq![46u8, 109u8, 107u8, 118u8]
}

pub open spec fn is_digit(b: u8) -> bool {
    48 <= b <= 57
}

/// The number a run of decimal digits writes.
pub open spec fn digits_value(d: Seq<u8>) -> nat
    decreases d.len(),
{
    if d.len() == 0 {
        0
    } else {
        digits_value(d.drop_last()) * 10 + (d.last() - 48) as nat
    }
}

/// The start time of a segment named `segment_<ts>.mkv`, where `<ts>` is a
/// run of decimal digits whose value fits in a `u64`; `None` for any other name.
pub open spec fn segment_timestamp(name: Seq<u8>) -> Option<nat> {
    if name.len() > 12 && name.take(8) == segment_prefix() && name.skip(name.len() - 4)
        == mkv_suffix() {
        let d = name.subrange(8, name.len() - 4);
        if (forall|i: int| 0 <= i < d.len() ==> is_digit(#[trigger] d[i])) && digits_value(d)
            <= u64::MAX {
            Some(digits_value(d))
        } else {
            None
        }
    } else {
        None
    }
}

/// 10 to the power `w`.
pub open spec fn pow10(w: nat) -> nat
    decreases w,
{
    if w == 0 {
        1
    } else {
        10 * pow10((w - 1) as nat)
    }
}

/// The `w` last decimal digits of `n`, most significant first, zero padded.
pub open spec fn padded_digits(n: nat, w: nat) -> Seq<u8>
    decreases w,
{
    if w == 0 {
        Seq::empty()
    } else {
        padded_digits(n / 10, (w - 1) as nat).push((48 + n % 10) as u8)
    }
}

/// What a name sorts under: a segment `segment_<ts>.mkv` sorts as
/// `segment_` followed by its timestamp in twenty digits and `.mkv`, so that
/// segments sort by timestamp; any other name sorts as it is.
pub open spec fn listing_key(name: Seq<u8>) -> Seq<u8> {
    match segment_timestamp(name) {
        Some(t) => segment_prefix() + padded_digits(t, 20) + mkv_suffix(),
        None => name,
    }
}

/// The listing order: by name (`bytes_le`), except that segments sort by
/// their timestamp; names that sort alike (`segment_5.mkv`, `segment_05.mkv`)
/// keep their byte order.
pub open spec fn listed_before(a: Seq<u8>, b: Seq<u8>) -> bool {
    if listing_key(a) == listing_key(b) {
        bytes_le(a, b)
    } else {
        bytes_le(listing_key(a), listing_key(b))
    }
}

pub proof fn lemma_bytes_le_antisymmetric(a: Seq<u8>, b: Seq<u8>)
    requires
        bytes_le(a, b),
        bytes_le(b, a),
    ensures
        a == b,
    decreases a.len(),
{
    if a.len() > 0 && b.len() > 0 {
        assert(a[0] == b[0]);
        lemma_bytes_le_antisymmetric(a.drop_first(), b.drop_first());
        assert(a.len() == b.len());
        assert forall|i: int| 0 <= i < a.len() implies a[i] == b[i] by {
            if i > 0 {
                assert(a[i] == a.drop_first()[i - 1]);
                assert(b[i] == b.drop_first()[i - 1]);
            }
        }
    } else {
        assert(a.len() == 0 && b.len() == 0);
    }
    assert(a =~= b);
}

pub proof fn lemma_listed_before_total(a: Seq<u8>, b: Seq<u8>)
    ensures
        listed_before(a, b) || listed_before(b, a),
{
    lemma_bytes_le_total(a, b);
    lemma_bytes_le_total(listing_key(a), listing_key(b));
}

pub proof fn lemma_listed_before_transitive(a: Seq<u8>, b: Seq<u8>, c: Seq<u8>)
    requires
        listed_before(a, b),
        listed_before(b, c),
    ensures
        listed_before(a, c),
{
    let (ka, kb, kc) = (listing_key(a), listing_key(b), listing_key(c));
    if ka == kb && kb == kc {
        lemma_bytes_le_transitive(a, b, c);
    } else if ka != kb && kb != kc {
        lemma_bytes_le_transitive(ka, kb, kc);
        if ka == kc {
            lemma_bytes_le_antisymmetric(ka, kb);
        }
    }
}

/// `x` sorts strictly before `y` at index `i`: they agree before it and
/// `x` has the smaller byte there.
pub open spec fn strictly_before_at(x: Seq<u8>, y: Seq<u8>, i: int) -> bool {
    0 <= i < x.len() && i < y.len() && x.take(i) == y.take(i) && x[i] < y[i]
}

/// Whatever follows, a sequence that is strictly before another at some
/// index stays before it, and not after it.
pub proof fn lemma_strictly_before(x: Seq<u8>, y: Seq<u8>, i: int, s1: Seq<u8>, s2: Seq<u8>)
    requires
        strictly_before_at(x, y, i),
    ensures
        bytes_le(x + s1, y + s2),
        !bytes_le(y + s2, x + s1),
    decreases i,
{
    let (a, b) = (x + s1, y + s2);
    if i == 0 {
        assert(a[0] == x[0]);
        assert(b[0] == y[0]);
    } else {
        assert(x[0] == x.take(i)[0]);
        assert(y[0] == y.take(i)[0]);
        assert(a[0] == b[0]);
        assert(x.drop_first().take(i - 1) =~= x.take(i).drop_first());
        assert(y.drop_first().take(i - 1) =~= y.take(i).drop_first());
        lemma_strictly_before(x.drop_first(), y.drop_first(), i - 1, s1, s2);
        assert(a.drop_first() =~= x.drop_first() + s1);
        assert(b.drop_first() =~= y.drop_first() + s2);
    }
}

pub proof fn lemma_padded_len(n: nat, w: nat)
    ensures
        padded_digits(n, w).len() == w,
    decreases w,
{
    if w > 0 {
        lemma_padded_len(n / 10, (w - 1) as nat);
    }
}

/// Padded to the same width, a smaller number is written strictly before a
/// larger one.
pub proof fn lemma_padded_order(n: nat, m: nat, w: nat) -> (i: int)
    requires
        n < m,
        m < pow10(w),
    ensures
        strictly_before_at(padded_digits(n, w), padded_digits(m, w), i),
    decreases w,
{
    lemma_padded_len(n, w);
    lemma_padded_len(m, w);
    let p = pow10((w - 1) as nat);
    assert(m / 10 < p) by (nonlinear_arith)
        requires
            m < 10 * p,
    ;
    assert(n / 10 <= m / 10) by (nonlinear_arith)
        requires
            n < m,
    ;
    let pn = padded_digits(n / 10, (w - 1) as nat);
    let pm = padded_digits(m / 10, (w - 1) as nat);
    lemma_padded_len(n / 10, (w - 1) as nat);
    lemma_padded_len(m / 10, (w - 1) as nat);
    let xn = padded_digits(n, w);
    let xm = padded_digits(m, w);
    if n / 10 < m / 10 {
        let j = lemma_padded_order(n / 10, m / 10, (w - 1) as nat);
        assert(xn.take(j) =~= pn.take(j));
        assert(xm.take(j) =~= pm.take(j));
        assert(xn[j] == pn[j]);
        assert(xm[j] == pm[j]);
        j
    } else {
        assert(n % 10 < m % 10) by (nonlinear_arith)
            requires
                n < m,
                n / 10 == m / 10,
        ;
        let j = (w - 1) as int;
        assert(xn.take(j) =~= pn);
        assert(xm.take(j) =~= pm);
        j
    }
}

/// Padded digits are digits, and write the number back.
pub proof fn lemma_padded_value(t: nat, w: nat)
    requires
        t < pow10(w),
    ensures
        forall|i: int| 0 <= i < padded_digits(t, w).len() ==> is_digit(#[trigger] padded_digits(t, w)[i]),
        digits_value(padded_digits(t, w)) == t,
    decreases w,
{
    if w > 0 {
        let p = pow10((w - 1) as nat);
        assert(t / 10 < p) by (nonlinear_arith)
            requires
                t < 10 * p,
        ;
        lemma_padded_value(t / 10, (w - 1) as nat);
        let d = padded_digits(t, w);
        let q = padded_digits(t / 10, (w - 1) as nat);
        assert(d.drop_last() =~= q);
        assert forall|i: int| 0 <= i < d.len() implies is_digit(#[trigger] d[i]) by {
            if i < q.len() {
                assert(d[i] == q[i]);
            }
        }
        assert(t == (t / 10) * 10 + t % 10) by (nonlinear_arith);
    } else {
        assert(t == 0);
    }
}

pub proof fn lemma_pow10_20()
    ensures
        pow10(20) == 100_000_000_000_000_000_000,
{
    reveal_with_fuel(pow10, 21);
}

/// A segment's sort key is itself the name of a segment with the same
/// timestamp.
pub proof fn lemma_listing_key_timestamp(t: nat)
    requires
        t <= u64::MAX,
    ensures
        segment_timestamp(segment_prefix() + padded_digits(t, 20) + mkv_suffix()) == Some(t),
{
    lemma_pow10_20();
    lemma_padded_value(t, 20);
    lemma_padded_len(t, 20);
    let pd = padded_digits(t, 20);
    let k = segment_prefix() + pd + mkv_suffix();
    assert(k.len() == 32);
    assert(k.take(8) =~= segment_prefix());
    assert(k.skip(28) =~= mkv_suffix());
    assert(k.subrange(8, 28) =~= pd);
}

/// Segments are listed oldest first.
pub proof fn lemma_listed_chronological(a: Seq<u8>, b: Seq<u8>)
    requires
        segment_timestamp(a) is Some,
        segment_timestamp(b) is Some,
        segment_timestamp(a)->0 < segment_timestamp(b)->0,
    ensures
        listed_before(a, b),
        !listed_before(b, a),
{
    let ta = segment_timestamp(a)->0;
    let tb = segment_timestamp(b)->0;
    lemma_pow10_20();
    let i = lemma_padded_order(ta, tb, 20);
    let (pa, pb) = (padded_digits(ta, 20), padded_digits(tb, 20));
    let p = segment_prefix();
    assert((p + pa).take(8 + i) =~= p + pa.take(i));
    assert((p + pb).take(8 + i) =~= p + pb.take(i));
    assert((p + pa)[8 + i] == pa[i]);
    assert((p + pb)[8 + i] == pb[i]);
    lemma_strictly_before(p + pa, p + pb, 8 + i, mkv_suffix(), mkv_suffix());
    lemma_bytes_le_total(listing_key(a), listing_key(a));
}

/// A segment and a name that is not a segment never sort alike.
pub proof fn lemma_listing_keys_differ(a: Seq<u8>, b: Seq<u8>)
    requires
        segment_timestamp(a) is Some,
        segment_timestamp(b) is None,
    ensures
        listing_key(a) != listing_key(b),
{
    lemma_listing_key_timestamp(segment_timestamp(a)->0);
}

/// A prefix of a run of digits writes no larger a number.
pub proof fn lemma_digits_value_prefix(d: Seq<u8>, j: int)
    requires
        0 <= j <= d.len(),
        forall|i: int| 0 <= i < d.len() ==> is_digit(#[trigger] d[i]),
    ensures
        digits_value(d.take(j)) <= digits_value(d),
    decreases d.len(),
{
    if j < d.len() {
        let e = d.drop_last();
        assert(d.take(j) =~= e.take(j));
        assert forall|i: int| 0 <= i < e.len() implies is_digit(#[trigger] e[i]) by {
            assert(e[i] == d[i]);
        }
        lemma_digits_value_prefix(e, j);
    } else {
        assert(d.take(j) =~= d);
    }
}

/// The timestamp of a segment file name, as `segment_timestamp` defines it.
pub fn segment_timestamp_of(name: &[u8]) -> (r: Option<u64>)
    ensures
        match r {
            Some(t) => segment_timestamp(name@) == Some(t as nat),
            None => segment_timestamp(name@) is None,
        },
{
    let n = name.len();
    if n <= 12 {
        return None;
    }
    let prefix_ok = name[0] == 115u8 && name[1] == 101u8 && name[2] == 103u8 && name[3] == 109u8
        && name[4] == 101u8 && name[5] == 110u8 && name[6] == 116u8 && name[7] == 95u8;
    let suffix_ok = name[n - 4] == 46u8 && name[n - 3] == 109u8 && name[n - 2] == 107u8
        && name[n - 1] == 118u8;
    proof {
        let s = name@;
        if prefix_ok {
            assert(s.take(8) =~= segment_prefix());
        } else {
            assert(s.take(8) != segment_prefix()) by {
                if s.take(8) == segment_prefix() {
                    assert(s[0] == s.take(8)[0]);
                    assert(s[1] == s.take(8)[1]);
                    assert(s[2] == s.take(8)[2]);
                    assert(s[3] == s.take(8)[3]);
                    assert(s[4] == s.take(8)[4]);
                    assert(s[5] == s.take(8)[5]);
                    assert(s[6] == s.take(8)[6]);
                    assert(s[7] == s.take(8)[7]);
                }
            }
        }
        if suffix_ok {
            assert(s.skip(n - 4) =~= mkv_suffix());
        } else {
            assert(s.skip(n - 4) != mkv_suffix()) by {
                if s.skip(n - 4) == mkv_suffix() {
                    assert(s[n - 4] == s.skip(n - 4)[0]);
                    assert(s[n - 3] == s.skip(n - 4)[1]);
                    assert(s[n - 2] == s.skip(n - 4)[2]);
                    assert(s[n - 1] == s.skip(n - 4)[3]);
                }
            }
        }
    }
    if !prefix_ok || !suffix_ok {
        return None;
    }
    let ghost d = name@.subrange(8, n - 4);
    let mut acc: u64 = 0;
    let mut i: usize = 8;
    assert(d.take(0) =~= Seq::<u8>::empty());
    while i < n - 4
        invariant
            n == name@.len(),
            n > 12,
            8 <= i <= n - 4,
            d == name@.subrange(8, n - 4),
            forall|k: int| 0 <= k < i - 8 ==> is_digit(#[trigger] d[k]),
            acc as nat == digits_value(d.take(i - 8)),
        decreases n - 4 - i,
    {
        let b = name[i];
        assert(d[i - 8] == b);
        if b < 48u8 || b > 57u8 {
            return None;
        }
        assert(d.take(i - 8 + 1).drop_last() =~= d.take(i - 8));
        assert(d.take(i - 8 + 1).last() == b);
        let next = match acc.checked_mul(10) {
            Some(m) => m.checked_add((b - 48u8) as u64),
            None => None,
        };
        match next {
            Some(v) => {
                acc = v;
            },
            None => {
                proof {
                    if forall|k: int| 0 <= k < d.len() ==> is_digit(#[trigger] d[k]) {
                        lemma_digits_value_prefix(d, i - 8 + 1);
                    }
                }
                return None;
            },
        }
        i = i + 1;
    }
    assert(d.take(d.len() as int) =~= d);
    Some(acc)
}

/// The 20-digit zero-padded decimal form of `n`'s last `w` digits.
fn padded(n: u64, w: usize) -> (r: Vec<u8>)
    ensures
        r@ == padded_digits(n as nat, w as nat),
    decreases w,
{
    if w == 0 {
        Vec::new()
    } else {
        let mut v = padded(n / 10, w - 1);
        v.push(48u8 + (n % 10) as u8);
        v
    }
}

/// The sort key of a segment with timestamp `t`.
fn segment_key(t: u64) -> (r: Vec<u8>)
    ensures
        r@ == segment_prefix() + padded_digits(t as nat, 20) + mkv_suffix(),
{
    let mut v: Vec<u8> = vec![115u8, 101u8, 103u8, 109u8, 101u8, 110u8, 116u8, 95u8];
    let mut digits = padded(t, 20);
    let mut tail: Vec<u8> = vec![46u8, 109u8, 107u8, 118u8];
    v.append(&mut digits);
    v.append(&mut tail);
    assert(v@ =~= segment_prefix() + padded_digits(t as nat, 20) + mkv_suffix());
    v
}

/// Compares two names in `listed_before` order.
pub fn listed_in_order(a: &[u8], b: &[u8]) -> (r: bool)
    ensures
        r == listed_before(a@, b@),
{
    match (segment_timestamp_of(a), segment_timestamp_of(b)) {
        (Some(x), Some(y)) => {
            if x < y {
                proof {
                    lemma_listed_chronological(a@, b@);
                }
                true
            } else if y < x {
                proof {
                    lemma_listed_chronological(b@, a@);
                }
                false
            } else {
                names_in_order(a, b)
            }
        },
        (Some(x), None) => {
            proof {
                lemma_listing_keys_differ(a@, b@);
            }
            let k = segment_key(x);
            names_in_order(k.as_slice(), b)
        },
        (None, Some(y)) => {
            proof {
                lemma_listing_keys_differ(b@, a@);
            }
            let k = segment_key(y);
            names_in_order(a, k.as_slice())
        },
        (None, None) => {
            proof {
                lemma_bytes_le_total(a@, a@);
            }
            names_in_order(a, b)
        },
    }
}

/// Inserting segment `i` at the first position whose name does not sort
/// before it keeps the listing complete, duplicate-free and in order.
proof fn lemma_insert_in_order(ns: Seq<Seq<u8>>, old_r: Seq<usize>, p: int, i: usize)
    requires
        i < ns.len(),
        0 <= p <= old_r.len(),
        is_segment_name(ns[i as int]),
        forall|k: int|
            0 <= k < old_r.len() ==> #[trigger] old_r[k] < i && is_segment_name(
                ns[old_r[k] as int],
            ),
        forall|j: int| 0 <= j < i && is_segment_name(#[trigger] ns[j]) ==> old_r.contains(j as usize),
        old_r.no_duplicates(),
        forall|k: int, l: int|
            0 <= k < l < old_r.len() ==> listed_before(ns[old_r[k] as int], ns[old_r[l] as int]),
        forall|k: int| 0 <= k < p ==> !listed_before(ns[i as int], #[trigger] ns[old_r[k] as int]),
        p < old_r.len() ==> listed_before(ns[i as int], ns[old_r[p] as int]),
    ensures
        forall|k: int|
            0 <= k < old_r.insert(p, i).len() ==> #[trigger] old_r.insert(p, i)[k] < i + 1
                && is_segment_name(ns[old_r.insert(p, i)[k] as int]),
        forall|j: int|
            0 <= j < i + 1 && is_segment_name(#[trigger] ns[j]) ==> old_r.insert(p, i).contains(
                j as usize,
            ),
        old_r.insert(p, i).no_duplicates(),
        forall|k: int, l: int|
            0 <= k < l < old_r.insert(p, i).len() ==> listed_before(
                ns[old_r.insert(p, i)[k] as int],
                ns[old_r.insert(p, i)[l] as int],
            ),
{
    let x = ns[i as int];
    let nr = old_r.insert(p, i);
    assert forall|k: int| 0 <= k < p implies listed_before(#[trigger] ns[old_r[k] as int], x) by {
        lemma_listed_before_total(x, ns[old_r[k] as int]);
    }
    assert forall|l: int| p <= l < old_r.len() implies listed_before(x, #[trigger] ns[old_r[l] as int]) by {
        if l > p {
            lemma_listed_before_transitive(x, ns[old_r[p] as int], ns[old_r[l] as int]);
        }
    }
    assert forall|k: int| 0 <= k < nr.len() implies #[trigger] nr[k] < i + 1
        && is_segment_name(ns[nr[k] as int]) by {
        if k < p {
            assert(nr[k] == old_r[k]);
        } else if k > p {
            assert(nr[k] == old_r[k - 1]);
        }
    }
    assert forall|j: int|
        0 <= j < i + 1 && is_segment_name(#[trigger] ns[j]) implies nr.contains(
        j as usize,
    ) by {
        if j == i {
            assert(nr[p] == i);
        } else {
            let w = choose|w: int| 0 <= w < old_r.len() && old_r[w] == j as usize;
            if w < p {
                assert(nr[w] == old_r[w]);
            } else {
                assert(nr[w + 1] == old_r[w]);
            }
        }
    }
    assert forall|a: int, b: int| 0 <= a < nr.len() && 0 <= b < nr.len() && a != b implies nr[a]
        != nr[b] by {
        let oa = if a < p { a } else { a - 1 };
        let ob = if b < p { b } else { b - 1 };
        if a != p && b != p {
            assert(nr[a] == old_r[oa]);
            assert(nr[b] == old_r[ob]);
        } else if a == p {
            assert(nr[b] == old_r[ob]);
        } else {
            assert(nr[a] == old_r[oa]);
        }
    }
    assert forall|k: int, l: int| 0 <= k < l < nr.len() implies listed_before(
        ns[nr[k] as int],
        ns[nr[l] as int],
    ) by {
        let ok = if k < p { k } else { k - 1 };
        let ol = if l < p { l } else { l - 1 };
        if k == p {
            assert(nr[l] == old_r[ol]);
        } else if l == p {
            assert(nr[k] == old_r[ok]);
        } else {
            assert(nr[k] == old_r[ok]);
            assert(nr[l] == old_r[ol]);
        }
    }
}

/// The segment files among the entries of a directory, as indices into
/// `names`: every segment entry exactly once, and no other entry, sorted by
/// name, except that `segment_<ts>.mkv` files sort by timestamp, oldest first.
pub fn segments_in_order(names: &Vec<Vec<u8>>) -> (r: Vec<usize>)
    ensures
        forall|k: int|
            0 <= k < r@.len() ==> #[trigger] r@[k] < names@.len() && is_segment_name(
                names@[r@[k] as int]@,
            ),
        forall|i: int|
            0 <= i < names@.len() && is_segment_name(#[trigger] names@[i]@) ==> r@.contains(
                i as usize,
            ),
        r@.no_duplicates(),
        forall|k: int, l: int|
            0 <= k < l < r@.len() ==> listed_before(names@[r@[k] as int]@, names@[r@[l] as int]@),
        // in particular, segments come oldest first
        forall|k: int, l: int|
            0 <= k < l < r@.len() && (#[trigger] segment_timestamp(names@[r@[k] as int]@)) is Some
                && (#[trigger] segment_timestamp(names@[r@[l] as int]@)) is Some
                ==> segment_timestamp(names@[r@[k] as int]@)->0 <= segment_timestamp(
                names@[r@[l] as int]@,
            )->0,
{
    let mut r: Vec<usize> = Vec::new();
    let mut i: usize = 0;
    while i < names.len()
        invariant
            i <= names@.len(),
            forall|k: int|
                0 <= k < r@.len() ==> #[trigger] r@[k] < i && is_segment_name(
                    names@[r@[k] as int]@,
                ),
            forall|j: int|
                0 <= j < i && is_segment_name(#[trigger] names@[j]@) ==> r@.contains(j as usize),
            r@.no_duplicates(),
            forall|k: int, l: int|
                0 <= k < l < r@.len() ==> listed_before(names@[r@[k] as int]@, names@[r@[l] as int]@),
        decreases names@.len() - i,
    {
        if is_segment_file_name(names[i].as_slice()) {
            let mut p: usize = 0;
            while p < r.len() && !listed_in_order(names[i].as_slice(), names[r[p]].as_slice())
                invariant
                    i < names@.len(),
                    p <= r@.len(),
                    forall|k: int| 0 <= k < r@.len() ==> #[trigger] r@[k] < i,
                    forall|k: int|
                        0 <= k < p ==> !listed_before(names@[i as int]@, #[trigger] names@[r@[k] as int]@),
                decreases r@.len() - p,
            {
                p = p + 1;
            }
            let ghost old_r = r@;
            r.insert(p, i);
            proof {
                let ns = names@.map_values(|v: Vec<u8>| v@);
                assert forall|j: int| 0 <= j < names@.len() implies #[trigger] ns[j] == names@[j]@ by {}
                lemma_insert_in_order(ns, old_r, p as int, i);
                assert forall|j: int|
                    0 <= j < i + 1 && is_segment_name(#[trigger] names@[j]@) implies r@.contains(
                    j as usize,
                ) by {
                    assert(ns[j] == names@[j]@);
                }
            }
        } else {
            proof {
                assert forall|k: int| 0 <= k < r@.len() implies #[trigger] r@[k] < i + 1 by {}
                assert forall|j: int|
                    0 <= j < i + 1 && is_segment_name(#[trigger] names@[j]@) implies r@.contains(
                    j as usize,
                ) by {
                    if j < i {
                    }
                }
            }
        }
        i = i + 1;
    }
    assert forall|k: int, l: int|
        0 <= k < l < r@.len() && (#[trigger] segment_timestamp(names@[r@[k] as int]@)) is Some
            && (#[trigger] segment_timestamp(names@[r@[l] as int]@)) is Some
            implies segment_timestamp(names@[r@[k] as int]@)->0 <= segment_timestamp(
            names@[r@[l] as int]@,
        )->0 by {
        assert(listed_before(names@[r@[k] as int]@, names@[r@[l] as int]@));
        if segment_timestamp(names@[r@[l] as int]@)->0 < segment_timestamp(names@[r@[k] as int]@)->0 {
            lemma_listed_chronological(names@[r@[l] as int]@, names@[r@[k] as int]@);
        }
    }
    r
}

/// Manages the video segment files of a data directory.
pub struct SegmentManager {
    data_dir: PathBuf,
}

impl SegmentManager {
    pub closed spec fn dir(&self) -> PathBuf {
        self.data_dir
    }

    /// The manager of the segments in `data_dir` (which the caller creates).
    pub fn new(data_dir: PathBuf) -> (m: Self)
        ensures
            m.dir() == data_dir,
    {
        SegmentManager { data_dir }
    }

    /// The data directory.
    pub fn data_dir(&self) -> (d: &PathBuf)
        ensures
            *d == self.dir(),
    {
        &self.data_dir
    }
}

} // verus!
