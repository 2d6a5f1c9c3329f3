use gascadelyzer::count_pattern_lines;

#[test]
fn counts_lines_that_contain_the_pattern() {
    let text = "a Pillars used 1\nnothing\nPillars used\npillars used\nxPillars usedx";
    assert_eq!(count_pattern_lines(text, "Pillars used"), 3);
}

#[test]
fn empty_pattern_counts_every_line() {
    assert_eq!(count_pattern_lines("a\nb\n\nc", ""), 4);
    assert_eq!(count_pattern_lines("a\nb\n", ""), 2);
    assert_eq!(count_pattern_lines("", ""), 0);
    assert_eq!(count_pattern_lines("\n", ""), 1);
}

#[test]
fn a_line_counts_once() {
    assert_eq!(count_pattern_lines("ab ab ab\nab", "ab"), 2);
}

#[test]
fn crlf_terminators_are_not_part_of_lines() {
    assert_eq!(count_pattern_lines("x\r\ny\r\n", "x\r"), 0);
    assert_eq!(count_pattern_lines("x\r\ny\r", "y\r"), 1);
}

#[test]
fn pattern_longer_than_every_line() {
    assert_eq!(count_pattern_lines("ab\ncd", "abcd"), 0);
}

#[test]
fn pattern_does_not_span_lines() {
    assert_eq!(count_pattern_lines("ab\ncd", "b\nc"), 0);
}
