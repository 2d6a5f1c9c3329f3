use vstd::prelude::*;
use crate::text::{chars_of, first_of, is_first_of};

verus! {

/// Why a digit string is not a `u32`.
#[derive(Clone, Copy, Debug, PartialEq, Eq)]
pub enum IntErrorKind {
    /// The string is empty.
    Empty,
    /// A character other than a decimal digit (after an optional leading `+`).
    InvalidDigit,
    /// The number is larger than `u32::MAX`.
    PosOverflow,
}

/// Why no timestamp could be read from a line.
#[derive(Clone, Debug, PartialEq, Eq)]
pub enum TimeStampParseError {
    /// The line has no space, or its first word has no dot; holds the line.
    PatternNotFound(String),
    /// The joined digits are not a `u32`.
    ParseError(IntErrorKind),
}

pub open spec fn is_digit(c: char) -> bool {
    '0' <= c && c <= '9'
}

pub open spec fn all_digits(s: Seq<char>) -> bool {
    forall|i: int| 0 <= i < s.len() ==> is_digit(#[trigger] s[i])
}

/// The number that the decimal digits `s` write.
pub open spec fn digits_value(s: Seq<char>) -> int
    decreases s.len(),
{
    if s.len() == 0 {
        0
    } else {
        digits_value(s.drop_last()) * 10 + (s.last() as int - '0' as int)
    }
}

/// Some leading run of digits of `b` already writes a number above `u32::MAX`.
pub open spec fn overflows(b: Seq<char>) -> bool {
    exists|n: int|
        0 < n <= b.len() && all_digits(#[trigger] b.take(n)) && digits_value(b.take(n)) > u32::MAX
}

/// `s` read as a decimal `u32`, as `str::parse::<u32>` reads it: an optional
/// leading `+`, then one or more digits. Read left to right, an overflow
/// that comes before the first bad character is reported as the overflow.
pub open spec fn parsed_u32(s: Seq<char>) -> Result<u32, IntErrorKind> {
    if s.len() == 0 {
        Err(IntErrorKind::Empty)
    } else {
        let b = if s[0] == '+' {
            s.drop_first()
        } else {
            s
        };
        if b.len() == 0 {
            Err(IntErrorKind::InvalidDigit)
        } else if overflows(b) {
            Err(IntErrorKind::PosOverflow)
        } else if all_digits(b) {
            Ok(digits_value(b) as u32)
        } else {
            Err(IntErrorKind::InvalidDigit)
        }
    }
}

/// The digit string of a line's timestamp: the line's first word (up to its
/// first space) is split at its first dot, and the two sides are joined.
/// `None` where the line has no space or that word has no dot.
pub open spec fn timestamp_digits(line: Seq<char>) -> Option<Seq<char>> {
    match first_of(line, ' ') {
        None => None,
        Some(sp) => {
            let word = line.take(sp);
            match first_of(word, '.') {
                None => None,
                Some(d) => Some(word.take(d) + word.skip(d + 1)),
            }
        },
    }
}

/// The timestamp of a line, where it has one.
pub open spec fn timestamp_value(line: Seq<char>) -> Option<u32> {
    match timestamp_digits(line) {
        Some(ds) => match parsed_u32(ds) {
            Ok(v) => Some(v),
            Err(_) => None,
        },
        None => None,
    }
}

/// `e` is the error that reading a timestamp from `line` gives.
pub open spec fn is_timestamp_error(e: TimeStampParseError, line: Seq<char>) -> bool {
    match timestamp_digits(line) {
        None => e is PatternNotFound && e->PatternNotFound_0@ == line,
        Some(ds) => parsed_u32(ds) is Err && e == TimeStampParseError::ParseError(
            parsed_u32(ds)->Err_0,
        ),
    }
}

/// The first position of `c` in `t[lo..hi]`, counted from `lo`, or `hi - lo`.
fn find_in(t: &Vec<char>, lo: usize, hi: usize, c: char) -> (r: usize)
    requires
        lo <= hi <= t.len(),
    ensures
        r <= hi - lo,
        first_of(t@.subrange(lo as int, hi as int), c) == if r < hi - lo {
            Some(r as int)
        } else {
            None::<int>
        },
{
    let ghost s = t@.subrange(lo as int, hi as int);
    let mut i: usize = 0;
    while i < hi - lo
        invariant
            lo <= hi <= t.len(),
            i <= hi - lo,
            s == t@.subrange(lo as int, hi as int),
            forall|j: int| 0 <= j < i ==> s[j] != c,
        decreases hi - lo - i,
    {
        if t[lo + i] == c {
            assert(is_first_of(s, c, i as int));
            assert forall|k: int| is_first_of(s, c, k) implies k == i by {
                if k > i {
                    assert(s[i as int] == c);
                }
            }
            return i;
        }
        i = i + 1;
    }
    assert(!exists|k: int| is_first_of(s, c, k));
    i
}

/// `ds` read as a decimal `u32` (see `parsed_u32`).
pub fn parse_u32_digits(ds: &Vec<char>) -> (r: Result<u32, IntErrorKind>)
    ensures
        r == parsed_u32(ds@),
{
    if ds.len() == 0 {
        return Err(IntErrorKind::Empty);
    }
    let first: usize = if ds[0] == '+' {
        1
    } else {
        0
    };
    let ghost b = if ds@[0] == '+' {
        ds@.drop_first()
    } else {
        ds@
    };
    assert(b =~= ds@.skip(first as int));
    if first == ds.len() {
        return Err(IntErrorKind::InvalidDigit);
    }
    let mut acc: u64 = 0;
    let mut i: usize = first;
    while i < ds.len()
        invariant
            first <= i <= ds.len(),
            first < ds.len(),
            b == ds@.skip(first as int),
            b == if ds@[0] == '+' {
                ds@.drop_first()
            } else {
                ds@
            },
            acc == digits_value(b.take(i - first)),
            all_digits(b.take(i - first)),
            forall|n: int|
                0 < n <= i - first ==> digits_value(#[trigger] b.take(n)) <= u32::MAX,
        decreases ds.len() - i,
    {
        let c = ds[i];
        let ghost n: int = i - first + 1;
        assert(b.take(n).drop_last() =~= b.take(n - 1));
        if c < '0' || c > '9' {
            proof {
                assert(!overflows(b)) by {
                    if overflows(b) {
                        let m = choose|m: int|
                            0 < m <= b.len() && all_digits(#[trigger] b.take(m))
                                && digits_value(b.take(m)) > u32::MAX;
                        if m >= n {
                            assert(b.take(m)[n - 1] == c);
                        }
                    }
                }
                assert(b[n - 1] == c);
                assert(!is_digit(b[n - 1]));
                assert(!all_digits(b));
            }
            return Err(IntErrorKind::InvalidDigit);
        }
        let d: u64 = (c as u64) - ('0' as u64);
        acc = acc * 10 + d;
        assert(all_digits(b.take(n))) by {
            assert forall|j: int| 0 <= j < n implies is_digit(#[trigger] b.take(n)[j]) by {
                if j < n - 1 {
                    assert(b.take(n)[j] == b.take(n - 1)[j]);
                }
            }
        }
        assert(b.take(n).last() == c);
        if acc > 4294967295 {
            assert(overflows(b));
            return Err(IntErrorKind::PosOverflow);
        }
        i = i + 1;
    }
    assert(b.take(b.len() as int) =~= b);
    assert(!overflows(b));
    Ok(acc as u32)
}

/// Reads the timestamp of the line `t[lo..hi]`. The error is `None` where the
/// line lacks the space or the dot, else the reason its digits are no `u32`.
pub(crate) fn timestamp_in(t: &Vec<char>, lo: usize, hi: usize) -> (r: Result<u32, Option<IntErrorKind>>)
    requires
        lo <= hi <= t.len(),
    ensures
        ({
            let line = t@.subrange(lo as int, hi as int);
            match timestamp_digits(line) {
                None => r == Err::<u32, Option<IntErrorKind>>(None),
                Some(ds) => match parsed_u32(ds) {
                    Ok(v) => r == Ok::<u32, Option<IntErrorKind>>(v),
                    Err(k) => r == Err::<u32, Option<IntErrorKind>>(Some(k)),
                },
            }
        }),
{
    let ghost line = t@.subrange(lo as int, hi as int);
    let sp = find_in(t, lo, hi, ' ');
    if sp == hi - lo {
        return Err(None);
    }
    let word_end: usize = lo + sp;
    assert(line.take(sp as int) =~= t@.subrange(lo as int, word_end as int));
    let dot = find_in(t, lo, word_end, '.');
    if dot == sp {
        return Err(None);
    }
    let ghost word = line.take(sp as int);
    let mut ds: Vec<char> = Vec::new();
    let mut i: usize = lo;
    while i < word_end
        invariant
            lo <= i <= word_end,
            word_end == lo + sp,
            lo + sp < hi <= t.len(),
            dot < sp,
            word == t@.subrange(lo as int, word_end as int),
            ds@ == if i <= lo + dot {
                word.take(i - lo)
            } else {
                word.take(dot as int) + word.skip(dot + 1).take(i - lo - dot - 1)
            },
        decreases word_end - i,
    {
        if i != lo + dot {
            ds.push(t[i]);
        }
        i = i + 1;
        assert(ds@ =~= if i <= lo + dot {
            word.take(i - lo)
        } else {
            word.take(dot as int) + word.skip(dot + 1).take(i - lo - dot - 1)
        });
    }
    assert(word.skip(dot + 1).take(sp - dot - 1) =~= word.skip(dot + 1));
    match parse_u32_digits(&ds) {
        Ok(v) => Ok(v),
        Err(k) => Err(Some(k)),
    }
}

/// The timestamp of a log line: the line's first word (up to its first
/// space) is split at its first dot, and the digits on either side are
/// joined and read as a `u32` (`"12.345 x"` gives `12345`). The sides are
/// joined as text, not scaled: `"1.5"` and `"1.50"` give 15 and 150.
pub fn parse_timestamp(line: &str) -> (r: Result<u32, TimeStampParseError>)
    ensures
        match r {
            Ok(v) => timestamp_value(line@) == Some(v),
            Err(e) => timestamp_value(line@) is None && is_timestamp_error(e, line@),
        },
{
    let t = chars_of(line);
    assert(t@.subrange(0, t@.len() as int) =~= line@);
    match timestamp_in(&t, 0, t.len()) {
        Ok(v) => Ok(v),
        Err(None) => Err(TimeStampParseError::PatternNotFound(line.to_owned())),
        Err(Some(k)) => Err(TimeStampParseError::ParseError(k)),
    }
}

} // verus!
