//! Token overlap between the OCR text of consecutive frames, the measure
//! behind frame deduplication (Jaccard similarity of their word sets).
use vstd::prelude::*;

use crate::text::{
    chars_equal, chars_of, lowercase, split_whitespace, to_lowercase, views_of, words,
};

verus! {

broadcast use vstd::set_lib::group_set_properties;

/// The distinct lowercase words of a text.
pub open spec fn token_set(text: Seq<char>) -> Set<Seq<char>> {
    words(text).map_values(|w: Seq<char>| lowercase(w)).to_set()
}

/// How the words of a frame relate to those of the frame before it.
#[derive(Debug, Clone, Copy, PartialEq, Eq, Structural)]
pub enum TokenOverlap {
    /// Neither frame has any word.
    BothEmpty,
    /// Exactly one of the two frames has words.
    OneEmpty,
    /// Both have words: the number they share, and the number of distinct
    /// words in the current and in the previous frame. The union holds
    /// `current + previous - shared` words.
    Measured { shared: usize, current: usize, previous: usize },
}

/// The overlap of the current word set with the previous one.
pub open spec fn overlap_of(current: Set<Seq<char>>, previous: Set<Seq<char>>) -> TokenOverlap {
    if current.len() == 0 && previous.len() == 0 {
        TokenOverlap::BothEmpty
    } else if current.len() == 0 || previous.len() == 0 {
        TokenOverlap::OneEmpty
    } else {
        TokenOverlap::Measured {
            shared: current.intersect(previous).len() as usize,
            current: current.len() as usize,
            previous: previous.len() as usize,
        }
    }
}

/// The word set of the previous frame, kept to compare the next one against.
pub struct TokenHistory {
    previous_tokens: Vec<Vec<char>>,
}

impl TokenHistory {
    #[verifier::type_invariant]
    spec fn distinct(&self) -> bool {
        views_of(self.previous_tokens@).no_duplicates()
    }

    /// The distinct lowercase words of the previous frame.
    pub closed spec fn tokens(&self) -> Set<Seq<char>> {
        views_of(self.previous_tokens@).to_set()
    }

    /// A history with no previous frame.
    pub fn new() -> (h: Self)
        ensures
            h.tokens() == Set::<Seq<char>>::empty(),
    {
        let h = TokenHistory { previous_tokens: Vec::new() };
        assert(views_of(h.previous_tokens@).to_set() =~= Set::<Seq<char>>::empty());
        h
    }

    /// Compares the words of `text` with those of the previous frame, then
    /// makes `text` the previous frame (unless neither frame has words, when
    /// nothing changes).
    pub fn compare_next(&mut self, text: &str) -> (r: TokenOverlap)
        ensures
            r == overlap_of(token_set(text@), old(self).tokens()),
            final(self).tokens() == token_set(text@),
    {
        proof {
            use_type_invariant(&*self);
        }
        let current = distinct_lowercase_words(text);
        let ghost cur = views_of(current@);
        let ghost prev = views_of(self.previous_tokens@);
        proof {
            cur.unique_seq_to_set();
            prev.unique_seq_to_set();
        }
        let result = if current.len() == 0 && self.previous_tokens.len() == 0 {
            TokenOverlap::BothEmpty
        } else if current.len() == 0 || self.previous_tokens.len() == 0 {
            TokenOverlap::OneEmpty
        } else {
            let shared = count_shared(&current, &self.previous_tokens);
            TokenOverlap::Measured {
                shared,
                current: current.len(),
                previous: self.previous_tokens.len(),
            }
        };
        self.previous_tokens = current;
        result
    }
}

/// Index of a word equal to `w` in `v`, if any.
fn position_of(v: &Vec<Vec<char>>, w: &Vec<char>) -> (r: Option<usize>)
    ensures
        match r {
            Some(i) => i < v@.len() && v@[i as int]@ == w@,
            None => !views_of(v@).contains(w@),
        },
{
    let mut i: usize = 0;
    while i < v.len()
        invariant
            i <= v@.len(),
            forall|j: int| 0 <= j < i ==> v@[j]@ != w@,
        decreases v@.len() - i,
    {
        if chars_equal(v[i].as_slice(), w.as_slice()) {
            return Some(i);
        }
        i = i + 1;
    }
    assert forall|j: int| 0 <= j < views_of(v@).len() implies views_of(v@)[j] != w@ by {
        assert(views_of(v@)[j] == v@[j]@);
    }
    None
}

/// The distinct lowercase words of `text`, without repetition.
fn distinct_lowercase_words(text: &str) -> (r: Vec<Vec<char>>)
    ensures
        views_of(r@).no_duplicates(),
        views_of(r@).to_set() == token_set(text@),
{
    let ws = split_whitespace(chars_of(text).as_slice());
    let ghost lowered = words(text@).map_values(|w: Seq<char>| lowercase(w));
    let mut out: Vec<Vec<char>> = Vec::new();
    let mut i: usize = 0;
    while i < ws.len()
        invariant
            views_of(ws@) == words(text@),
            lowered == words(text@).map_values(|w: Seq<char>| lowercase(w)),
            i <= ws@.len(),
            views_of(out@).no_duplicates(),
            views_of(out@).to_set() == lowered.take(i as int).to_set(),
        decreases ws@.len() - i,
    {
        let lw = to_lowercase(ws[i].as_slice());
        assert(views_of(ws@)[i as int] == ws@[i as int]@);
        assert(lowered[i as int] == lw@);
        assert(lowered.take(i + 1) =~= lowered.take(i as int).push(lw@));
        proof {
            lowered.take(i as int).lemma_push_to_set_commute(lw@);
        }
        match position_of(&out, &lw) {
            Some(k) => {
                assert(views_of(out@)[k as int] == lw@);
                assert(views_of(out@).to_set().contains(lw@));
                assert(lowered.take(i + 1).to_set() =~= lowered.take(i as int).to_set());
            },
            None => {
                let ghost before = views_of(out@);
                out.push(lw);
                assert(views_of(out@) =~= before.push(lw@));
                proof {
                    before.lemma_push_to_set_commute(lw@);
                }
            },
        }
        i = i + 1;
    }
    assert(lowered.take(ws@.len() as int) =~= lowered);
    out
}

/// The number of words of `current` that also occur in `previous`.
fn count_shared(current: &Vec<Vec<char>>, previous: &Vec<Vec<char>>) -> (n: usize)
    requires
        views_of(current@).no_duplicates(),
    ensures
        n == views_of(current@).to_set().intersect(views_of(previous@).to_set()).len(),
{
    let ghost cur = views_of(current@);
    let ghost prev = views_of(previous@).to_set();
    let mut n: usize = 0;
    let mut i: usize = 0;
    assert(cur.take(0).to_set() =~= Set::<Seq<char>>::empty());
    assert(cur.take(0).to_set().intersect(prev) =~= Set::<Seq<char>>::empty());
    while i < current.len()
        invariant
            cur == views_of(current@),
            prev == views_of(previous@).to_set(),
            cur.no_duplicates(),
            i <= current@.len(),
            n <= i,
            n == cur.take(i as int).to_set().intersect(prev).len(),
        decreases current@.len() - i,
    {
        let ghost x = cur[i as int];
        let ghost s = cur.take(i as int).to_set();
        assert(current@[i as int]@ == x);
        assert(cur.take(i + 1) =~= cur.take(i as int).push(x));
        proof {
            cur.take(i as int).lemma_push_to_set_commute(x);
            assert(!s.contains(x)) by {
                if s.contains(x) {
                    let k = choose|k: int| 0 <= k < i && cur.take(i as int)[k] == x;
                    assert(cur[k] == cur[i as int]);
                }
            }
        }
        let found = position_of(previous, &current[i]);
        if found.is_some() {
            assert(views_of(previous@)[found.unwrap() as int] == x);
            assert(prev.contains(x));
            assert(s.insert(x).intersect(prev) =~= s.intersect(prev).insert(x));
            n = n + 1;
        } else {
            assert(!prev.contains(x));
            assert(s.insert(x).intersect(prev) =~= s.intersect(prev));
        }
        i = i + 1;
    }
    assert(cur.take(current@.len() as int) =~= cur);
    n
}

/// Comparing a frame with an identical frame finds every word shared:
/// the overlap is total (or there are no words at all).
pub proof fn lemma_repeated_text_fully_overlaps(text: Seq<char>)
    ensures
        overlap_of(token_set(text), token_set(text)) matches TokenOverlap::Measured {
            shared,
            current,
            previous,
        } ==> shared == current && current == previous,
        overlap_of(token_set(text), token_set(text)) != TokenOverlap::OneEmpty,
{
    let s = token_set(text);
    assert(s.intersect(s) =~= s);
}

/// The union of the two word sets has `current + previous - shared` words.
pub proof fn lemma_measured_union_size(current: Set<Seq<char>>, previous: Set<Seq<char>>)
    requires
        current.finite(),
        previous.finite(),
        current.len() <= usize::MAX,
        previous.len() <= usize::MAX,
    ensures
        overlap_of(current, previous) matches TokenOverlap::Measured { shared, current: c, previous: p }
            ==> current.union(previous).len() == c + p - shared,
{
    vstd::set_lib::lemma_set_intersect_union_lens(current, previous);
    vstd::set_lib::lemma_len_intersect(current, previous);
}

} // verus!
