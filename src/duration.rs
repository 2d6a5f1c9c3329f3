use vstd::prelude::*;
use crate::text::{chars_of, contains, contains_in, line_spans, lines_of, spans_hold_lines};
use crate::timestamp::{is_timestamp_error, timestamp_in, timestamp_value, TimeStampParseError};

verus! {

/// The state of a scan: the time of the last start, the summed durations,
/// and the number of completed cycles.
pub type Tally = (u32, int, nat);

/// One line of the scan. A line with the start marker sets the start time;
/// else a line with the end marker closes a cycle that lasted from the last
/// start (0 before any start) to its own time. `None` where such a line has
/// no timestamp.
pub open spec fn scan_step(t: Tally, l: Seq<char>, start: Seq<char>, end: Seq<char>) -> Option<Tally> {
    if contains(l, start) {
        match timestamp_value(l) {
            Some(v) => Some((v, t.1, t.2)),
            None => None,
        }
    } else if contains(l, end) {
        match timestamp_value(l) {
            Some(v) => Some((t.0, t.1 + v - t.0, t.2 + 1)),
            None => None,
        }
    } else {
        Some(t)
    }
}

/// The scan of the lines `ls`, top to bottom, from start time 0 and no
/// cycles; `None` once a line fails to give its timestamp.
pub open spec fn scan(ls: Seq<Seq<char>>, start: Seq<char>, end: Seq<char>) -> Option<Tally>
    decreases ls.len(),
{
    if ls.len() == 0 {
        Some((0u32, 0int, 0nat))
    } else {
        match scan(ls.drop_last(), start, end) {
            Some(t) => scan_step(t, ls.last(), start, end),
            None => None,
        }
    }
}

/// `k` is the line at which the scan of `ls` stops.
pub open spec fn fails_at(ls: Seq<Seq<char>>, start: Seq<char>, end: Seq<char>, k: int) -> bool {
    &&& 0 <= k < ls.len()
    &&& scan(ls.take(k), start, end) is Some
    &&& scan(ls.take(k + 1), start, end) is None
}

/// `r` is what scanning `ls` gives: the totals where every start and end
/// line has a timestamp, else the error of the first one that has none.
pub open spec fn is_scan_result(
    r: Result<DurationTotals, TimeStampParseError>,
    ls: Seq<Seq<char>>,
    start: Seq<char>,
    end: Seq<char>,
) -> bool {
    match r {
        Ok(d) => match scan(ls, start, end) {
            Some(x) => d.total_duration == x.1 && d.completed_cycles == x.2,
            None => false,
        },
        Err(e) => scan(ls, start, end) is None && exists|k: int|
            fails_at(ls, start, end, k) && is_timestamp_error(e, #[trigger] ls[k]),
    }
}

/// The durations summed over a log. A duration is signed: a cycle whose end
/// is stamped before its start counts negatively.
#[derive(Clone, Copy, Debug, PartialEq, Eq)]
pub struct DurationTotals {
    pub total_duration: i128,
    pub completed_cycles: usize,
}

/// Relies on `String`'s `FromIterator<&char>`: the string holds the given
/// characters, in order.
#[verifier::external_body]
fn string_of(cs: &[char]) -> (r: String)
    ensures
        r@ == cs@,
{
    cs.iter().collect()
}

/// Scans the lines of `t`, given by `spans`.
pub(crate) fn scan_spans(
    t: &Vec<char>,
    spans: &Vec<(usize, usize)>,
    start: &Vec<char>,
    end: &Vec<char>,
) -> (r: Result<DurationTotals, TimeStampParseError>)
    requires
        spans_hold_lines(t@, spans@),
    ensures
        is_scan_result(r, lines_of(t@), start@, end@),
{
    let ghost ls = lines_of(t@);
    let mut start_time: u32 = 0;
    let mut total: i128 = 0;
    let mut cycles: usize = 0;
    let mut k: usize = 0;
    assert(ls.take(0) =~= Seq::<Seq<char>>::empty());
    while k < spans.len()
        invariant
            spans_hold_lines(t@, spans@),
            ls == lines_of(t@),
            k <= spans.len(),
            scan(ls.take(k as int), start@, end@) == Some((start_time, total as int, cycles as nat)),
            cycles <= k,
            -(cycles * 4294967295) <= total <= cycles * 4294967295,
        decreases spans.len() - k,
    {
        let (lo, hi) = spans[k];
        let ghost l = ls[k as int];
        assert(ls.take(k + 1).drop_last() =~= ls.take(k as int));
        assert(ls.take(k + 1).last() == l);
        let is_start = contains_in(t, lo, hi, start);
        let is_end = !is_start && contains_in(t, lo, hi, end);
        if is_start || is_end {
            match timestamp_in(t, lo, hi) {
                Ok(v) => {
                    if is_start {
                        start_time = v;
                    } else {
                        total = total + (v as i128) - (start_time as i128);
                        cycles = cycles + 1;
                    }
                },
                Err(fault) => {
                    let e = match fault {
                        None => TimeStampParseError::PatternNotFound(
                            string_of(vstd::slice::slice_subrange(t.as_slice(), lo, hi)),
                        ),
                        Some(kind) => TimeStampParseError::ParseError(kind),
                    };
                    proof {
                        assert(fails_at(ls, start@, end@, k as int));
                        assert(is_timestamp_error(e, ls[k as int]));
                        lemma_scan_stays_failed(ls, start@, end@, k + 1);
                    }
                    return Err(e);
                },
            }
        }
        k = k + 1;
    }
    assert(ls.take(k as int) =~= ls);
    Ok(DurationTotals { total_duration: total, completed_cycles: cycles })
}

/// Once the scan has failed, it stays failed on every longer prefix.
proof fn lemma_scan_stays_failed(ls: Seq<Seq<char>>, start: Seq<char>, end: Seq<char>, n: int)
    requires
        0 <= n <= ls.len(),
        scan(ls.take(n), start, end) is None,
    ensures
        scan(ls, start, end) is None,
    decreases ls.len() - n,
{
    if n < ls.len() {
        assert(ls.take(n + 1).drop_last() =~= ls.take(n));
        lemma_scan_stays_failed(ls, start, end, n + 1);
    } else {
        assert(ls.take(n) =~= ls);
    }
}

/// Scans the lines of `text` top to bottom and sums the duration of each
/// cycle: a line with `start_marker` sets the start time (overwriting any
/// start not yet closed); else a line with `end_marker` closes a cycle that
/// lasted from the last start to its own time. Before any start the start
/// time is 0, so an end line there counts its whole timestamp. The scan
/// stops at the first start or end line without a timestamp and reports its
/// error: nothing partial is returned.
pub fn aggregate_durations(text: &str, start_marker: &str, end_marker: &str) -> (r: Result<
    DurationTotals,
    TimeStampParseError,
>)
    ensures
        is_scan_result(r, lines_of(text@), start_marker@, end_marker@),
{
    let t = chars_of(text);
    let s = chars_of(start_marker);
    let e = chars_of(end_marker);
    let spans = line_spans(&t);
    scan_spans(&t, &spans, &s, &e)
}

} // verus!
