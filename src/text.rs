use vstd::prelude::*;

verus! {

/// `k` is the position of the first `c` in `s`.
pub open spec fn is_first_of(s: Seq<char>, c: char, k: int) -> bool {
    &&& 0 <= k < s.len()
    &&& s[k] == c
    &&& forall|j: int| 0 <= j < k ==> s[j] != c
}

/// The position of the first `c` in `s`, if `c` occurs in it.
pub open spec fn first_of(s: Seq<char>, c: char) -> Option<int> {
    if exists|k: int| is_first_of(s, c, k) {
        Some(choose|k: int| is_first_of(s, c, k))
    } else {
        None
    }
}

/// The characters of a string, in order.
pub fn chars_of(s: &str) -> (r: Vec<char>)
    ensures
        r@ == s@,
{
    let mut r: Vec<char> = Vec::new();
    for c in it: s.chars()
        invariant
            r@ == it.seq().take(it.index() as int),
    {
        r.push(c);
    }
    proof {
        vstd::string::axiom_spec_iter(s);
    }
    r
}

/// A line without its terminator: a `'\r'` just before the `'\n'` goes with it.
pub open spec fn strip_cr(l: Seq<char>) -> Seq<char> {
    if l.len() > 0 && l.last() == '\r' {
        l.drop_last()
    } else {
        l
    }
}

/// The lines of `s`, top to bottom. A line ends at `'\n'` or at `"\r\n"`,
/// neither of which belongs to it; the last line needs no terminator, a
/// terminator at the very end opens no further line, and an empty text has
/// no lines.
pub open spec fn lines_of(s: Seq<char>) -> Seq<Seq<char>>
    decreases s.len(),
{
    if s.len() == 0 {
        seq![]
    } else {
        match first_of(s, '\n') {
            Some(k) => seq![strip_cr(s.take(k))] + lines_of(s.skip(k + 1)),
            None => seq![s],
        }
    }
}

/// `p` occurs in `l` as a contiguous run; the empty `p` occurs in every `l`.
pub open spec fn contains(l: Seq<char>, p: Seq<char>) -> bool {
    exists|a: int| 0 <= a && a + p.len() <= l.len() && #[trigger] l.subrange(a, a + p.len()) == p
}

/// Whether `p` occurs in `t` starting at position `at`.
fn occurs_at(t: &Vec<char>, at: usize, p: &Vec<char>) -> (r: bool)
    requires
        at + p.len() <= t.len(),
    ensures
        r == (t@.subrange(at as int, at + p.len()) == p@),
{
    let mut j: usize = 0;
    while j < p.len()
        invariant
            j <= p.len(),
            at + p.len() <= t.len(),
            forall|m: int| 0 <= m < j ==> t@[at + m] == p@[m],
        decreases p.len() - j,
    {
        if t[at + j] != p[j] {
            assert(t@.subrange(at as int, at + p.len())[j as int] != p@[j as int]);
            return false;
        }
        j = j + 1;
    }
    assert(t@.subrange(at as int, at + p.len()) =~= p@);
    true
}

/// Whether `p` occurs in the part `lo..hi` of `t`.
pub fn contains_in(t: &Vec<char>, lo: usize, hi: usize, p: &Vec<char>) -> (r: bool)
    requires
        lo <= hi <= t.len(),
    ensures
        r == contains(t@.subrange(lo as int, hi as int), p@),
{
    let ghost l = t@.subrange(lo as int, hi as int);
    if p.len() > hi - lo {
        return false;
    }
    let last: usize = hi - lo - p.len();
    let mut a: usize = 0;
    while a < last
        invariant
            lo <= hi <= t.len(),
            last == hi - lo - p.len(),
            a <= last,
            l == t@.subrange(lo as int, hi as int),
            forall|b: int| 0 <= b < a ==> #[trigger] l.subrange(b, b + p.len()) != p@,
        decreases last - a,
    {
        let found = occurs_at(t, lo + a, p);
        assert(l.subrange(a as int, a + p.len()) =~= t@.subrange(lo + a, lo + a + p.len()));
        if found {
            return true;
        }
        a = a + 1;
    }
    let found = occurs_at(t, lo + last, p);
    assert(l.subrange(last as int, last + p.len()) =~= t@.subrange(lo + last, lo + last + p.len()));
    if found {
        return true;
    }
    proof {
        assert forall|b: int| 0 <= b && b + p.len() <= l.len() implies #[trigger] l.subrange(b, b + p.len()) != p@ by {
            assert(b <= a);
        }
    }
    false
}

/// The spans of `t` that hold its lines, in order.
pub open spec fn spans_hold_lines(t: Seq<char>, r: Seq<(usize, usize)>) -> bool {
    &&& r.len() == lines_of(t).len()
    &&& forall|k: int|
        0 <= k < r.len() ==> {
            &&& (#[trigger] r[k]).0 <= r[k].1 <= t.len()
            &&& t.subrange(r[k].0 as int, r[k].1 as int) == lines_of(t)[k]
        }
}

/// Splits `t` into its lines, given as spans `start..end` of `t`.
pub fn line_spans(t: &Vec<char>) -> (r: Vec<(usize, usize)>)
    ensures
        spans_hold_lines(t@, r@),
{
    let ghost s = t@;
    let ghost mut done: Seq<Seq<char>> = seq![];
    let mut r: Vec<(usize, usize)> = Vec::new();
    let mut start: usize = 0;
    let mut i: usize = 0;
    assert(s.skip(0) =~= s);
    assert(done + lines_of(s) =~= lines_of(s));
    while i < t.len()
        invariant
            s == t@,
            start <= i <= t.len(),
            forall|j: int| start <= j < i ==> s[j] != '\n',
            lines_of(s) == done + lines_of(s.skip(start as int)),
            done.len() == r.len(),
            forall|k: int|
                0 <= k < r.len() ==> {
                    &&& (#[trigger] r@[k]).0 <= r@[k].1 <= s.len()
                    &&& s.subrange(r@[k].0 as int, r@[k].1 as int) == done[k]
                },
        decreases t.len() - i,
    {
        if t[i] == '\n' {
            let end: usize = if i > start && t[i - 1] == '\r' {
                i - 1
            } else {
                i
            };
            proof {
                let rest = s.skip(start as int);
                let k = i - start;
                assert(is_first_of(rest, '\n', k));
                assert forall|k2: int| is_first_of(rest, '\n', k2) implies k2 == k by {
                    if k2 < k {
                        assert(rest[k2] == s[start + k2]);
                    } else if k2 > k {
                        assert(rest[k] == '\n');
                    }
                }
                assert(first_of(rest, '\n') == Some(k));
                assert(rest.skip(k + 1) =~= s.skip(i + 1));
                assert(strip_cr(rest.take(k)) =~= s.subrange(start as int, end as int));
                done = done.push(s.subrange(start as int, end as int));
                assert(lines_of(s) =~= done + lines_of(s.skip(i + 1)));
            }
            r.push((start, end));
            start = i + 1;
        }
        i = i + 1;
    }
    if start < t.len() {
        proof {
            let rest = s.skip(start as int);
            assert(!exists|k: int| is_first_of(rest, '\n', k)) by {
                if exists|k: int| is_first_of(rest, '\n', k) {
                    let k = choose|k: int| is_first_of(rest, '\n', k);
                    assert(rest[k] == s[start + k]);
                }
            }
            assert(rest =~= s.subrange(start as int, s.len() as int));
            done = done.push(rest);
            assert(lines_of(s) =~= done);
        }
        r.push((start, t.len()));
    } else {
        assert(lines_of(s) =~= done);
    }
    r
}

} // verus!
