use vstd::prelude::*;
use crate::text::{chars_of, contains, contains_in, line_spans, lines_of, spans_hold_lines};

verus! {

/// How many of the lines `ls` contain `p`.
pub open spec fn count_containing(ls: Seq<Seq<char>>, p: Seq<char>) -> nat
    decreases ls.len(),
{
    if ls.len() == 0 {
        0
    } else {
        count_containing(ls.drop_last(), p) + if contains(ls.last(), p) {
            1nat
        } else {
            0nat
        }
    }
}

/// How many lines of `t`, given by `spans`, contain `p`.
pub(crate) fn count_in_spans(t: &Vec<char>, spans: &Vec<(usize, usize)>, p: &Vec<char>) -> (r: usize)
    requires
        spans_hold_lines(t@, spans@),
    ensures
        r == count_containing(lines_of(t@), p@),
{
    let ghost ls = lines_of(t@);
    let mut n: usize = 0;
    let mut k: usize = 0;
    while k < spans.len()
        invariant
            spans_hold_lines(t@, spans@),
            ls == lines_of(t@),
            k <= spans.len(),
            n == count_containing(ls.take(k as int), p@),
            n <= k,
        decreases spans.len() - k,
    {
        let (lo, hi) = spans[k];
        let hit = contains_in(t, lo, hi, p);
        assert(ls.take(k + 1).drop_last() =~= ls.take(k as int));
        if hit {
            n = n + 1;
        }
        k = k + 1;
    }
    assert(ls.take(k as int) =~= ls);
    n
}

/// The number of lines of `text` that contain `pattern`, matched exactly
/// (no case folding). The empty pattern is in every line.
pub fn count_pattern_lines(text: &str, pattern: &str) -> (r: usize)
    ensures
        r == count_containing(lines_of(text@), pattern@),
{
    let t = chars_of(text);
    let p = chars_of(pattern);
    let spans = line_spans(&t);
    count_in_spans(&t, &spans, &p)
}

/// The empty pattern is in every line: counting it counts the lines.
pub proof fn lemma_empty_pattern_counts_all_lines(ls: Seq<Seq<char>>)
    ensures
        count_containing(ls, Seq::<char>::empty()) == ls.len(),
    decreases ls.len(),
{
    if ls.len() > 0 {
        lemma_empty_pattern_counts_all_lines(ls.drop_last());
        let e = Seq::<char>::empty();
        assert(ls.last().subrange(0, 0 + e.len() as int) =~= e);
        assert(contains(ls.last(), e));
    }
}

} // verus!
