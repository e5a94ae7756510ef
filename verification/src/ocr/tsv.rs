//! The text part of Tesseract's TSV output: its lines, their tab-separated
//! columns, the recognized word of each row, and the joined full text.
//!
//! The numeric columns (confidence, bounding box) are decimal numbers that
//! are read by the caller.
use vstd::prelude::*;

use crate::text::{
    chars_of, copy_range, string_from_chars, string_views, strip, strip_chars, views_of, CharClass,
};

verus! {

/// The length of the run of `s` before the first `sep` (all of `s` if none).
pub open spec fn piece_len(s: Seq<char>, sep: char) -> nat
    decreases s.len(),
{
    if s.len() == 0 || s[0] == sep {
        0
    } else {
        1 + piece_len(s.drop_first(), sep)
    }
}

pub proof fn lemma_piece_len_bound(s: Seq<char>, sep: char)
    ensures
        piece_len(s, sep) <= s.len(),
    decreases s.len(),
{
    if s.len() > 0 && s[0] != sep {
        lemma_piece_len_bound(s.drop_first(), sep);
    }
}

/// A run of `m` non-separators ended by a separator (or by the end of `s`)
/// is the first piece.
pub proof fn lemma_piece_len_is(s: Seq<char>, sep: char, m: int)
    requires
        0 <= m <= s.len(),
        forall|k: int| 0 <= k < m ==> s[k] != sep,
        m == s.len() || s[m] == sep,
    ensures
        piece_len(s, sep) == m,
    decreases m,
{
    if m > 0 {
        lemma_piece_len_is(s.drop_first(), sep, m - 1);
    }
}

/// The pieces of `s` between occurrences of `sep` (`str::split` on a char):
/// there is always one more piece than separators.
pub open spec fn split_on(s: Seq<char>, sep: char) -> Seq<Seq<char>>
    decreases s.len(),
{
    let k = piece_len(s, sep);
    if k >= s.len() {
        seq![s]
    } else {
        proof {
            lemma_piece_len_bound(s, sep);
        }
        seq![s.take(k as int)] + split_on(s.skip(k as int + 1), sep)
    }
}

pub proof fn lemma_split_on_nonempty(s: Seq<char>, sep: char)
    ensures
        split_on(s, sep).len() >= 1,
    decreases s.len(),
{
    lemma_piece_len_bound(s, sep);
    let k = piece_len(s, sep);
    if k < s.len() {
        lemma_split_on_nonempty(s.skip(k as int + 1), sep);
    }
}

/// `piece_len` stops at the first separator.
pub proof fn lemma_piece_len_props(s: Seq<char>, sep: char)
    ensures
        piece_len(s, sep) <= s.len(),
        forall|k: int| 0 <= k < piece_len(s, sep) ==> s[k] != sep,
        piece_len(s, sep) < s.len() ==> s[piece_len(s, sep) as int] == sep,
    decreases s.len(),
{
    if s.len() > 0 && s[0] != sep {
        let t = s.drop_first();
        lemma_piece_len_props(t, sep);
        assert forall|k: int| 0 <= k < piece_len(s, sep) implies s[k] != sep by {
            if k > 0 {
                assert(s[k] == t[k - 1]);
            }
        }
    }
}

/// Splitting two texts joined by a separator gives the pieces of the first,
/// then those of the second.
pub proof fn lemma_split_on_append(a: Seq<char>, b: Seq<char>, sep: char)
    ensures
        split_on(a + seq![sep] + b, sep) == split_on(a, sep) + split_on(b, sep),
    decreases a.len(),
{
    let s = a + seq![sep] + b;
    lemma_piece_len_props(a, sep);
    let k = piece_len(a, sep);
    if k >= a.len() {
        lemma_piece_len_is(s, sep, a.len() as int);
        assert(s.take(a.len() as int) =~= a);
        assert(s.skip(a.len() as int + 1) =~= b);
        assert(split_on(a, sep) == seq![a]);
    } else {
        lemma_piece_len_is(s, sep, k as int);
        assert(s.take(k as int) =~= a.take(k as int));
        assert(s.skip(k as int + 1) =~= a.skip(k as int + 1) + seq![sep] + b);
        lemma_split_on_append(a.skip(k as int + 1), b, sep);
        assert(split_on(s, sep) =~= split_on(a, sep) + split_on(b, sep));
    }
}

/// A text without the separator is a single piece.
pub proof fn lemma_split_on_single(s: Seq<char>, sep: char)
    requires
        forall|k: int| 0 <= k < s.len() ==> s[k] != sep,
    ensures
        split_on(s, sep) == seq![s],
{
    lemma_piece_len_is(s, sep, s.len() as int);
}

/// The pieces of `s` between occurrences of `sep`.
pub fn split_char(s: &[char], sep: char) -> (r: Vec<Vec<char>>)
    ensures
        views_of(r@) == split_on(s@, sep),
{
    let mut out: Vec<Vec<char>> = Vec::new();
    let mut start: usize = 0;
    let mut i: usize = 0;
    assert(s@.skip(0) =~= s@);
    while i < s.len()
        invariant
            start <= i <= s@.len(),
            split_on(s@, sep) == views_of(out@) + split_on(s@.skip(start as int), sep),
            forall|k: int| start <= k < i ==> s@[k] != sep,
        decreases s@.len() - i,
    {
        if s[i] == sep {
            let ghost rest = s@.skip(start as int);
            proof {
                lemma_piece_len_is(rest, sep, i - start);
            }
            let piece = copy_range(s, start, i);
            assert(piece@ =~= rest.take(i - start));
            assert(rest.skip(i - start + 1) =~= s@.skip(i + 1));
            let ghost before = views_of(out@);
            out.push(piece);
            assert(views_of(out@) =~= before.push(piece@));
            assert(views_of(out@) + split_on(s@.skip(i + 1), sep) =~= before + (seq![piece@]
                + split_on(s@.skip(i + 1), sep)));
            start = i + 1;
        }
        i = i + 1;
    }
    let ghost rest = s@.skip(start as int);
    proof {
        lemma_piece_len_is(rest, sep, s@.len() - start);
    }
    let piece = copy_range(s, start, s.len());
    assert(piece@ =~= rest);
    let ghost before = views_of(out@);
    out.push(piece);
    assert(views_of(out@) =~= before.push(piece@));
    assert(views_of(out@) =~= before + seq![rest]);
    out
}

/// A line without the carriage return of a `\r\n` ending.
pub open spec fn without_cr(line: Seq<char>) -> Seq<char> {
    if line.len() > 0 && line.last() == '\r' {
        line.drop_last()
    } else {
        line
    }
}

/// The lines of `s` (`str::lines`): split at `\n`, a line ended by `\r\n`
/// loses its `\r`, and a final empty line (after a final line ending) is not
/// a line; a last line without an ending keeps its characters.
pub open spec fn lines_of(s: Seq<char>) -> Seq<Seq<char>> {
    let pieces = split_on(s, '\n');
    let ended = pieces.drop_last().map_values(|p: Seq<char>| without_cr(p));
    if pieces.last().len() == 0 {
        ended
    } else {
        ended.push(pieces.last())
    }
}

/// The lines of `s`.
pub fn lines(s: &[char]) -> (r: Vec<Vec<char>>)
    ensures
        views_of(r@) == lines_of(s@),
{
    let pieces = split_char(s, '\n');
    let ghost ps = views_of(pieces@);
    proof {
        lemma_split_on_nonempty(s@, '\n');
    }
    let n = pieces.len();
    let mut out: Vec<Vec<char>> = Vec::new();
    let mut i: usize = 0;
    while i + 1 < n
        invariant
            n == pieces@.len(),
            n >= 1,
            ps == views_of(pieces@),
            ps == split_on(s@, '\n'),
            i + 1 <= n,
            views_of(out@) == ps.take(i as int).map_values(|p: Seq<char>| without_cr(p)),
        decreases n - i,
    {
        let p = &pieces[i];
        assert(ps[i as int] == p@);
        let line = if p.len() > 0 && p[p.len() - 1] == '\r' {
            let l = copy_range(p.as_slice(), 0, p.len() - 1);
            assert(l@ =~= p@.drop_last());
            l
        } else {
            copy_range(p.as_slice(), 0, p.len())
        };
        assert(p@.subrange(0, p@.len() as int) =~= p@);
        let ghost before = views_of(out@);
        out.push(line);
        assert(views_of(out@) =~= before.push(line@));
        assert(ps.take(i + 1).map_values(|p: Seq<char>| without_cr(p)) =~= ps.take(
            i as int,
        ).map_values(|p: Seq<char>| without_cr(p)).push(without_cr(ps[i as int])));
        i = i + 1;
    }
    assert(ps.take(i as int) =~= ps.drop_last());
    let last = &pieces[n - 1];
    assert(ps[n - 1] == last@);
    assert(ps.last() == last@);
    if last.len() > 0 {
        let ghost before = views_of(out@);
        out.push(copy_range(last.as_slice(), 0, last.len()));
        assert(last@.subrange(0, last@.len() as int) =~= last@);
        assert(views_of(out@) =~= before.push(last@));
    }
    out
}

/// One recognized word of Tesseract's TSV: the columns of its row and the
/// word itself (the twelfth column, trimmed).
#[derive(Debug, Clone)]
pub struct TsvWord {
    pub columns: Vec<String>,
    pub text: String,
}

/// Number of columns of a Tesseract TSV row.
pub const TSV_COLUMNS: usize = 12;

/// The word of a TSV line: its columns and trimmed text, when the line has
/// all the columns and the text is not blank.
pub open spec fn word_of_line(line: Seq<char>) -> Option<(Seq<Seq<char>>, Seq<char>)> {
    let cols = split_on(line, '\t');
    if cols.len() < TSV_COLUMNS {
        None
    } else {
        let text = strip(cols[11], CharClass::WhiteSpace);
        if text.len() == 0 {
            None
        } else {
            Some((cols, text))
        }
    }
}

pub open spec fn word_view(w: TsvWord) -> (Seq<Seq<char>>, Seq<char>) {
    (string_views(w.columns@), w.text@)
}

/// The words of a TSV document: every line after the header that carries one.
pub open spec fn tsv_words_of(tsv: Seq<char>) -> Seq<(Seq<Seq<char>>, Seq<char>)> {
    if lines_of(tsv).len() == 0 {
        Seq::empty()
    } else {
        lines_of(tsv).skip(1).filter_map(|l: Seq<char>| word_of_line(l))
    }
}

pub(crate) fn strings_of(pieces: &Vec<Vec<char>>) -> (r: Vec<String>)
    ensures
        string_views(r@) == views_of(pieces@),
{
    let mut out: Vec<String> = Vec::new();
    let mut i: usize = 0;
    while i < pieces.len()
        invariant
            i <= pieces@.len(),
            string_views(out@) == views_of(pieces@).take(i as int),
        decreases pieces@.len() - i,
    {
        let ghost before = string_views(out@);
        let s = string_from_chars(pieces[i].as_slice());
        out.push(s);
        assert(string_views(out@) =~= before.push(pieces@[i as int]@));
        assert(views_of(pieces@).take(i + 1) =~= views_of(pieces@).take(i as int).push(
            pieces@[i as int]@,
        ));
        i = i + 1;
    }
    assert(views_of(pieces@).take(pieces@.len() as int) =~= views_of(pieces@));
    out
}

/// The word of one TSV line, if it carries one.
fn word_of(line: &[char]) -> (r: Option<TsvWord>)
    ensures
        match r {
            Some(w) => word_of_line(line@) == Some(word_view(w)),
            None => word_of_line(line@) is None,
        },
{
    let cols = split_char(line, '\t');
    if cols.len() < TSV_COLUMNS {
        return None;
    }
    assert(views_of(cols@)[11] == cols@[11]@);
    let text = strip_chars(cols[11].as_slice(), CharClass::WhiteSpace);
    if text.len() == 0 {
        return None;
    }
    let columns = strings_of(&cols);
    Some(TsvWord { columns, text: string_from_chars(text.as_slice()) })
}

/// The recognized words of Tesseract's TSV output, in order: the header line
/// is skipped, as are rows with fewer than twelve columns or a blank word.
pub fn tesseract_words(tsv: &str) -> (r: Vec<TsvWord>)
    ensures
        r@.map_values(|w: TsvWord| word_view(w)) == tsv_words_of(tsv@),
{
    let ls = lines(chars_of(tsv).as_slice());
    let ghost body = lines_of(tsv@).skip(1);
    let ghost f = |l: Seq<char>| word_of_line(l);
    let mut out: Vec<TsvWord> = Vec::new();
    if ls.len() == 0 {
        return out;
    }
    let mut i: usize = 1;
    assert(body.take(0) =~= Seq::<Seq<char>>::empty());
    assert(body.take(0).filter_map(f) =~= Seq::empty()) by {
        reveal_with_fuel(Seq::filter_map, 1);
    }
    while i < ls.len()
        invariant
            1 <= i <= ls@.len(),
            views_of(ls@) == lines_of(tsv@),
            body == lines_of(tsv@).skip(1),
            f == (|l: Seq<char>| word_of_line(l)),
            out@.map_values(|w: TsvWord| word_view(w)) == body.take(i - 1).filter_map(f),
        decreases ls@.len() - i,
    {
        assert(body[i - 1] == ls@[i as int]@);
        proof {
            body.lemma_filter_map_take_succ(f, i - 1);
        }
        let ghost before = out@.map_values(|w: TsvWord| word_view(w));
        match word_of(ls[i].as_slice()) {
            Some(w) => {
                out.push(w);
                assert(out@.map_values(|w: TsvWord| word_view(w)) =~= before.push(
                    word_view(out@.last()),
                ));
            },
            None => {},
        }
        i = i + 1;
    }
    assert(body.take(i - 1) =~= body);
    out
}

/// The words joined with single spaces.
pub open spec fn joined(parts: Seq<Seq<char>>) -> Seq<char>
    decreases parts.len(),
{
    if parts.len() == 0 {
        Seq::empty()
    } else if parts.len() == 1 {
        parts[0]
    } else {
        joined(parts.drop_last()) + seq![' '] + parts.last()
    }
}

/// `parts.join(" ")`: the full text of a frame from its words.
pub fn join_with_spaces(parts: &Vec<String>) -> (r: String)
    ensures
        r@ == joined(string_views(parts@)),
{
    let ghost ps = string_views(parts@);
    let mut out: Vec<char> = Vec::new();
    let mut i: usize = 0;
    while i < parts.len()
        invariant
            ps == string_views(parts@),
            i <= parts@.len(),
            out@ == joined(ps.take(i as int)),
        decreases parts@.len() - i,
    {
        let part = chars_of(parts[i].as_str());
        assert(ps[i as int] == part@);
        assert(ps.take(i + 1).drop_last() =~= ps.take(i as int));
        let ghost prev = out@;
        if i > 0 {
            out.push(' ');
        }
        let mut k: usize = 0;
        let ghost base = out@;
        while k < part.len()
            invariant
                k <= part@.len(),
                out@ == base + part@.take(k as int),
            decreases part@.len() - k,
        {
            out.push(part[k]);
            assert(out@ =~= base + part@.take(k + 1));
            k = k + 1;
        }
        assert(part@.take(part@.len() as int) =~= part@);
        if i == 0 {
            assert(prev =~= Seq::<char>::empty());
            assert(out@ =~= ps.take(1)[0]);
        } else {
            assert(out@ =~= prev + seq![' '] + part@);
        }
        i = i + 1;
    }
    assert(ps.take(parts@.len() as int) =~= ps);
    string_from_chars(out.as_slice())
}

} // verus!
