use vstd::prelude::*;
use crate::counter::{count_containing, count_in_spans};
use crate::duration::{fails_at, scan, scan_spans};
use crate::text::{chars_of, contains, line_spans, lines_of};
use crate::timestamp::{is_timestamp_error, timestamp_value, TimeStampParseError};

verus! {

/// What a line holds when an activity cycle starts.
pub const START_MARKER: &'static str = "Cleansing SurvivalLifeSupportPillarCorruptible";

/// What a line holds when a completion is counted.
pub const COMPLETION_MARKER: &'static str = "Pillars used";

/// What a line holds when it closes the cycle that the last start opened.
pub const CYCLE_END_MARKER: &'static str = "Pillars used increased to";

/// The literal texts that mark the lines of interest; matched as substrings,
/// with case.
pub struct Markers {
    /// Counted as starts, and opens a cycle.
    pub start_marker: String,
    /// Counted as completions.
    pub completion_marker: String,
    /// Closes the cycle that the last start opened.
    pub cycle_end_marker: String,
}

impl Markers {
    /// Markers made of the three given texts.
    pub fn new(start_marker: &str, completion_marker: &str, cycle_end_marker: &str) -> (r: Markers)
        ensures
            r.start_marker@ == start_marker@,
            r.completion_marker@ == completion_marker@,
            r.cycle_end_marker@ == cycle_end_marker@,
    {
        Markers {
            start_marker: start_marker.to_owned(),
            completion_marker: completion_marker.to_owned(),
            cycle_end_marker: cycle_end_marker.to_owned(),
        }
    }

    /// The markers of the game log this library was made for.
    pub fn standard() -> (r: Markers)
        ensures
            r.start_marker@ == START_MARKER@,
            r.completion_marker@ == COMPLETION_MARKER@,
            r.cycle_end_marker@ == CYCLE_END_MARKER@,
    {
        Markers::new(START_MARKER, COMPLETION_MARKER, CYCLE_END_MARKER)
    }
}

/// The statistics of one read of the log. Rates and averages are in
/// hundredths (`12345` reads `123.45`), rounded to the nearest, halves away
/// from zero.
#[derive(Clone, Copy, Debug, PartialEq, Eq)]
pub struct MetricsSnapshot {
    /// Lines with the start marker.
    pub start_count: usize,
    /// Lines with the completion marker.
    pub completion_count: usize,
    /// `completion_count / start_count * 100`, in hundredths; 0 without starts.
    pub success_rate_centi: u128,
    /// The summed durations of the completed cycles.
    pub total_duration: i128,
    /// The number of completed cycles.
    pub completed_cycles: usize,
    /// `total_duration / completed_cycles`, in hundredths; 0 without cycles.
    pub average_duration_centi: i128,
}

/// `n / d` rounded to the nearest integer, halves up (`n >= 0`, `d > 0`).
pub open spec fn round_div(n: int, d: int) -> int {
    (2 * n + d) / (2 * d)
}

/// The success rate in hundredths of a percent.
pub open spec fn success_rate_centi(completions: int, starts: int) -> int {
    if starts == 0 {
        0
    } else {
        round_div(completions * 10000, starts)
    }
}

/// The average duration in hundredths.
pub open spec fn average_centi(total: int, cycles: int) -> int {
    if cycles == 0 {
        0
    } else if total >= 0 {
        round_div(total * 100, cycles)
    } else {
        -round_div(-total * 100, cycles)
    }
}

/// `s` holds the statistics of the log `text` under the given markers.
pub open spec fn is_snapshot_of(
    s: MetricsSnapshot,
    text: Seq<char>,
    start: Seq<char>,
    completion: Seq<char>,
    cycle_end: Seq<char>,
) -> bool {
    let ls = lines_of(text);
    &&& s.start_count == count_containing(ls, start)
    &&& s.completion_count == count_containing(ls, completion)
    &&& s.success_rate_centi == success_rate_centi(s.completion_count as int, s.start_count as int)
    &&& match scan(ls, start, cycle_end) {
        Some(x) => {
            &&& s.total_duration == x.1
            &&& s.completed_cycles == x.2
            &&& s.average_duration_centi == average_centi(x.1, x.2 as int)
        },
        None => false,
    }
}

/// `e` is the error of the first start or cycle-end line of `text` without
/// a timestamp.
pub open spec fn is_scan_error(
    e: TimeStampParseError,
    text: Seq<char>,
    start: Seq<char>,
    cycle_end: Seq<char>,
) -> bool {
    let ls = lines_of(text);
    &&& scan(ls, start, cycle_end) is None
    &&& exists|k: int| fails_at(ls, start, cycle_end, k) && is_timestamp_error(e, #[trigger] ls[k])
}

/// The success rate, in hundredths of a percent, of `completions` out of
/// `starts`; 0 where there are no starts.
pub fn success_rate_centi_of(completions: usize, starts: usize) -> (r: u128)
    ensures
        r == success_rate_centi(completions as int, starts as int),
{
    if starts == 0 {
        0
    } else {
        let n: u128 = (completions as u128) * 10000;
        let d: u128 = starts as u128;
        (2 * n + d) / (2 * d)
    }
}

/// The average of `total` over `cycles`, in hundredths; 0 without cycles.
fn average_centi_of(total: i128, cycles: usize) -> (r: i128)
    requires
        -(cycles * 4294967295) <= total <= cycles * 4294967295,
    ensures
        r == average_centi(total as int, cycles as int),
{
    if cycles == 0 {
        0
    } else {
        let d: i128 = cycles as i128;
        if total >= 0 {
            (2 * (total * 100) + d) / (2 * d)
        } else {
            -((2 * (-total * 100) + d) / (2 * d))
        }
    }
}

/// The durations stay within one `u32` per completed cycle.
proof fn lemma_scan_bounded(ls: Seq<Seq<char>>, start: Seq<char>, end: Seq<char>)
    requires
        scan(ls, start, end) is Some,
    ensures
        ({
            let x = scan(ls, start, end)->0;
            -(x.2 * 4294967295) <= x.1 <= x.2 * 4294967295
        }),
    decreases ls.len(),
{
    if ls.len() > 0 {
        lemma_scan_bounded(ls.drop_last(), start, end);
    }
}

/// Reads the statistics of the log `text`: the lines with each marker are
/// counted, and the cycles from start to cycle end are summed. Fails with
/// the error of the first start or cycle-end line without a timestamp.
pub fn compute_snapshot(text: &str, markers: &Markers) -> (r: Result<MetricsSnapshot, TimeStampParseError>)
    ensures
        match r {
            Ok(s) => is_snapshot_of(
                s,
                text@,
                markers.start_marker@,
                markers.completion_marker@,
                markers.cycle_end_marker@,
            ),
            Err(e) => is_scan_error(e, text@, markers.start_marker@, markers.cycle_end_marker@),
        },
{
    let t = chars_of(text);
    let start = chars_of(markers.start_marker.as_str());
    let completion = chars_of(markers.completion_marker.as_str());
    let cycle_end = chars_of(markers.cycle_end_marker.as_str());
    let spans = line_spans(&t);
    let start_count = count_in_spans(&t, &spans, &start);
    let completion_count = count_in_spans(&t, &spans, &completion);
    match scan_spans(&t, &spans, &start, &cycle_end) {
        Ok(d) => {
            proof {
                lemma_scan_bounded(lines_of(t@), start@, cycle_end@);
            }
            Ok(MetricsSnapshot {
                start_count,
                completion_count,
                success_rate_centi: success_rate_centi_of(completion_count, start_count),
                total_duration: d.total_duration,
                completed_cycles: d.completed_cycles,
                average_duration_centi: average_centi_of(d.total_duration, d.completed_cycles),
            })
        },
        Err(e) => Err(e),
    }
}

/// The latest statistics, for a display to read. A refresh replaces them
/// whole or not at all.
pub struct MetricsStore {
    current: MetricsSnapshot,
}

/// The statistics before any read: all zero.
pub open spec fn zero_snapshot() -> MetricsSnapshot {
    MetricsSnapshot {
        start_count: 0,
        completion_count: 0,
        success_rate_centi: 0,
        total_duration: 0,
        completed_cycles: 0,
        average_duration_centi: 0,
    }
}

impl View for MetricsStore {
    type V = MetricsSnapshot;

    closed spec fn view(&self) -> MetricsSnapshot {
        self.current
    }
}

impl MetricsStore {
    /// A store that holds all-zero statistics.
    pub fn new() -> (r: MetricsStore)
        ensures
            r@ == zero_snapshot(),
    {
        MetricsStore {
            current: MetricsSnapshot {
                start_count: 0,
                completion_count: 0,
                success_rate_centi: 0,
                total_duration: 0,
                completed_cycles: 0,
                average_duration_centi: 0,
            },
        }
    }

    /// The statistics held now.
    pub fn snapshot(&self) -> (r: MetricsSnapshot)
        ensures
            r == self@,
    {
        self.current
    }

    /// Recomputes the statistics from the whole log `text`. On success they
    /// replace the held ones; on a timestamp error the held ones stay as they
    /// were and the error is returned.
    pub fn refresh(&mut self, text: &str, markers: &Markers) -> (r: Result<(), TimeStampParseError>)
        ensures
            match r {
                Ok(()) => is_snapshot_of(
                    final(self)@,
                    text@,
                    markers.start_marker@,
                    markers.completion_marker@,
                    markers.cycle_end_marker@,
                ),
                Err(e) => final(self)@ == old(self)@ && is_scan_error(
                    e,
                    text@,
                    markers.start_marker@,
                    markers.cycle_end_marker@,
                ),
            },
    {
        match compute_snapshot(text, markers) {
            Ok(s) => {
                self.current = s;
                Ok(())
            },
            Err(e) => Err(e),
        }
    }
}

/// Reading the same log twice gives the same statistics: they are a function
/// of the text and the markers alone.
pub proof fn lemma_snapshot_deterministic(
    a: MetricsSnapshot,
    b: MetricsSnapshot,
    text: Seq<char>,
    start: Seq<char>,
    completion: Seq<char>,
    cycle_end: Seq<char>,
)
    requires
        is_snapshot_of(a, text, start, completion, cycle_end),
        is_snapshot_of(b, text, start, completion, cycle_end),
    ensures
        a == b,
{
}

/// With no start line before it, the start time is still 0.
proof fn lemma_no_start_keeps_zero(ls: Seq<Seq<char>>, start: Seq<char>, end: Seq<char>)
    requires
        forall|i: int| 0 <= i < ls.len() ==> !contains(#[trigger] ls[i], start),
        scan(ls, start, end) is Some,
    ensures
        ({
            let x = scan(ls, start, end)->0;
            x.0 == 0
        }),
    decreases ls.len(),
{
    if ls.len() > 0 {
        let p = ls.drop_last();
        assert forall|i: int| 0 <= i < p.len() implies !contains(#[trigger] p[i], start) by {
            assert(p[i] == ls[i]);
        }
        lemma_no_start_keeps_zero(p, start, end);
    }
}

/// A cycle-end line with no start line anywhere before it counts from time
/// 0: its whole timestamp is added to the total, and it completes a cycle.
pub proof fn lemma_end_before_any_start(
    ls: Seq<Seq<char>>,
    line: Seq<char>,
    start: Seq<char>,
    end: Seq<char>,
)
    requires
        forall|i: int| 0 <= i < ls.len() ==> !contains(#[trigger] ls[i], start),
        !contains(line, start),
        contains(line, end),
        timestamp_value(line) is Some,
        scan(ls, start, end) is Some,
    ensures
        ({
            let x = scan(ls, start, end)->0;
            scan(ls.push(line), start, end) == Some((0u32, x.1 + timestamp_value(line)->0, x.2 + 1))
        }),
{
    lemma_no_start_keeps_zero(ls, start, end);
    assert(ls.push(line).drop_last() =~= ls);
}

} // verus!
