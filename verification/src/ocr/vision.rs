//! The text part of Apple Vision's output: one recognized text per line, as
//! tab-separated confidence, box (x, y, width, height) and text; the text,
//! the last column, may itself hold tabs.
use vstd::prelude::*;

use super::tsv::{
    lemma_piece_len_bound, lemma_piece_len_is, lines, lines_of, piece_len, strings_of, word_view,
    TsvWord,
};
use crate::text::{chars_of, copy_range, string_from_chars, strip, strip_chars, views_of, CharClass};

verus! {

/// The first `n - 1` pieces of `s` between occurrences of `sep`, then the
/// rest of `s` (`str::splitn` on a char, for `n >= 1`).
pub open spec fn splitn_on(s: Seq<char>, sep: char, n: nat) -> Seq<Seq<char>>
    decreases n,
{
    let k = piece_len(s, sep);
    if n <= 1 || k >= s.len() {
        seq![s]
    } else {
        proof {
            lemma_piece_len_bound(s, sep);
        }
        seq![s.take(k as int)] + splitn_on(s.skip(k as int + 1), sep, (n - 1) as nat)
    }
}

/// The first `n - 1` pieces of `s` between occurrences of `sep`, then the rest.
pub fn splitn_char(s: &[char], sep: char, n: usize) -> (r: Vec<Vec<char>>)
    requires
        n >= 1,
    ensures
        views_of(r@) == splitn_on(s@, sep, n as nat),
{
    let mut out: Vec<Vec<char>> = Vec::new();
    let mut start: usize = 0;
    let mut i: usize = 0;
    assert(s@.skip(0) =~= s@);
    assert(views_of(out@) + splitn_on(s@, sep, n as nat) =~= splitn_on(s@, sep, n as nat));
    while i < s.len() && out.len() + 1 < n
        invariant
            start <= i <= s@.len(),
            out@.len() + 1 <= n,
            splitn_on(s@, sep, n as nat) == views_of(out@) + splitn_on(
                s@.skip(start as int),
                sep,
                (n - out@.len()) as nat,
            ),
            forall|k: int| start <= k < i ==> s@[k] != sep,
        decreases s@.len() - i,
    {
        if s[i] == sep {
            let ghost rest = s@.skip(start as int);
            let ghost m = (n - out@.len()) as nat;
            proof {
                lemma_piece_len_is(rest, sep, i - start);
            }
            let piece = copy_range(s, start, i);
            assert(piece@ =~= rest.take(i - start));
            assert(rest.skip(i - start + 1) =~= s@.skip(i + 1));
            assert(splitn_on(rest, sep, m) == seq![piece@] + splitn_on(
                s@.skip(i + 1),
                sep,
                (m - 1) as nat,
            ));
            let ghost before = views_of(out@);
            out.push(piece);
            assert(views_of(out@) =~= before.push(piece@));
            assert(views_of(out@) + splitn_on(s@.skip(i + 1), sep, (n - out@.len()) as nat)
                =~= before + (seq![piece@] + splitn_on(s@.skip(i + 1), sep, (m - 1) as nat)));
            start = i + 1;
        }
        i = i + 1;
    }
    let ghost rest = s@.skip(start as int);
    proof {
        if i == s.len() {
            lemma_piece_len_is(rest, sep, s@.len() - start);
        }
    }
    assert(splitn_on(rest, sep, (n - out@.len()) as nat) == seq![rest]);
    let piece = copy_range(s, start, s.len());
    assert(piece@ =~= rest);
    let ghost before = views_of(out@);
    out.push(piece);
    assert(views_of(out@) =~= before.push(piece@));
    assert(views_of(out@) =~= before + seq![rest]);
    out
}

/// Number of columns of a Vision output line.
pub const VISION_COLUMNS: usize = 6;

/// The recognized text of one Vision line: its columns and trimmed text,
/// when the line has all six columns and the text is not blank.
pub open spec fn vision_row_of_line(line: Seq<char>) -> Option<(Seq<Seq<char>>, Seq<char>)> {
    let cols = splitn_on(line, '\t', VISION_COLUMNS as nat);
    if cols.len() < VISION_COLUMNS {
        None
    } else {
        let text = strip(cols[5], CharClass::WhiteSpace);
        if text.len() == 0 {
            None
        } else {
            Some((cols, text))
        }
    }
}

/// The recognized texts of Vision's output, in line order.
pub open spec fn vision_rows_of(output: Seq<char>) -> Seq<(Seq<Seq<char>>, Seq<char>)> {
    lines_of(output).filter_map(|l: Seq<char>| vision_row_of_line(l))
}

/// The row of one Vision line, if it carries text.
fn vision_row(line: &[char]) -> (r: Option<TsvWord>)
    ensures
        match r {
            Some(w) => vision_row_of_line(line@) == Some(word_view(w)),
            None => vision_row_of_line(line@) is None,
        },
{
    let cols = splitn_char(line, '\t', VISION_COLUMNS);
    if cols.len() < VISION_COLUMNS {
        return None;
    }
    assert(views_of(cols@)[5] == cols@[5]@);
    let text = strip_chars(cols[5].as_slice(), CharClass::WhiteSpace);
    if text.len() == 0 {
        return None;
    }
    let columns = strings_of(&cols);
    Some(TsvWord { columns, text: string_from_chars(text.as_slice()) })
}

/// The recognized texts of Apple Vision's output, in order: lines with fewer
/// than six columns or a blank text are skipped.
pub fn vision_rows(output: &str) -> (r: Vec<TsvWord>)
    ensures
        r@.map_values(|w: TsvWord| word_view(w)) == vision_rows_of(output@),
{
    let ls = lines(chars_of(output).as_slice());
    let ghost all = lines_of(output@);
    let ghost f = |l: Seq<char>| vision_row_of_line(l);
    let mut out: Vec<TsvWord> = Vec::new();
    let mut i: usize = 0;
    assert(all.take(0) =~= Seq::<Seq<char>>::empty());
    assert(all.take(0).filter_map(f) =~= Seq::empty()) by {
        reveal_with_fuel(Seq::filter_map, 1);
    }
    while i < ls.len()
        invariant
            i <= ls@.len(),
            views_of(ls@) == all,
            all == lines_of(output@),
            f == (|l: Seq<char>| vision_row_of_line(l)),
            out@.map_values(|w: TsvWord| word_view(w)) == all.take(i as int).filter_map(f),
        decreases ls@.len() - i,
    {
        assert(all[i as int] == ls@[i as int]@);
        proof {
            all.lemma_filter_map_take_succ(f, i as int);
        }
        let ghost before = out@.map_values(|w: TsvWord| word_view(w));
        match vision_row(ls[i].as_slice()) {
            Some(w) => {
                out.push(w);
                assert(out@.map_values(|w: TsvWord| word_view(w)) =~= before.push(
                    word_view(out@.last()),
                ));
            },
            None => {},
        }
        i = i + 1;
    }
    assert(all.take(i as int) =~= all);
    out
}

} // verus!
