use fmt_duration::parsing::lex;
use fmt_duration::Token;
use fmt_duration::Token::{
    Error, HoursPadded, HoursUnpadded, MicrosPadded, MicrosUnpadded, MillisPadded,
    MillisUnpadded, MinutesPadded, MinutesUnpadded, NanosPadded, NanosUnpadded, NoFormat,
    Percent, SecondsPadded, SecondsUnpadded,
};
use std::ops::Range;

fn get_spanned(input: &str) -> Vec<(Token, Range<usize>)> {
    lex(input).into_iter().map(|s| (s.token, s.start..s.end)).collect()
}

#[test]
fn lex_padded_hours() {
    assert_eq!(get_spanned("%H"), vec![(HoursPadded, 0..2)]);
}

#[test]
fn lex_padded_minutes() {
    assert_eq!(get_spanned("%M"), vec![(MinutesPadded, 0..2)]);
}

#[test]
fn lex_padded_seconds() {
    assert_eq!(get_spanned("%S"), vec![(SecondsPadded, 0..2)]);
}

#[test]
fn lex_padded_milliseconds() {
    assert_eq!(get_spanned("%MS"), vec![(MillisPadded, 0..3)]);
}

#[test]
fn lex_padded_microseconds() {
    assert_eq!(get_spanned("%US"), vec![(MicrosPadded, 0..3)]);
}

#[test]
fn lex_padded_nanoseconds() {
    assert_eq!(get_spanned("%NS"), vec![(NanosPadded, 0..3)]);
}

#[test]
fn lex_unpadded_hours() {
    assert_eq!(get_spanned("%h"), vec![(HoursUnpadded, 0..2)]);
}

#[test]
fn lex_unpadded_minutes() {
    assert_eq!(get_spanned("%m"), vec![(MinutesUnpadded, 0..2)]);
}

#[test]
fn lex_unpadded_seconds() {
    assert_eq!(get_spanned("%s"), vec![(SecondsUnpadded, 0..2)]);
}

#[test]
fn lex_unpadded_milliseconds() {
    assert_eq!(get_spanned("%ms"), vec![(MillisUnpadded, 0..3)]);
}

#[test]
fn lex_unpadded_microseconds() {
    assert_eq!(get_spanned("%us"), vec![(MicrosUnpadded, 0..3)]);
}

#[test]
fn lex_unpadded_nanoseconds() {
    assert_eq!(get_spanned("%ns"), vec![(NanosUnpadded, 0..3)]);
}

#[test]
fn lex_escaped_percent() {
    assert_eq!(get_spanned("%%"), vec![(Percent, 0..2)]);
}

#[test]
fn lex_hms_format() {
    let input = "%H:%M:%S.%MS";

    let expected = vec![
        (HoursPadded, 0..2),
        (NoFormat, 2..3),
        (MinutesPadded, 3..5),
        (NoFormat, 5..6),
        (SecondsPadded, 6..8),
        (NoFormat, 8..9),
        (MillisPadded, 9..12),
    ];

    assert_eq!(get_spanned(input), expected);
}

#[test]
fn lex_empty_template() {
    assert_eq!(get_spanned(""), vec![]);
}

#[test]
fn lex_literal_run_is_one_token() {
    assert_eq!(get_spanned("abc def"), vec![(NoFormat, 0..7)]);
}

#[test]
fn lex_unknown_directive_takes_two_characters() {
    assert_eq!(
        get_spanned("a%Qbc%s"),
        vec![(NoFormat, 0..1), (Error, 1..3), (NoFormat, 3..5), (SecondsUnpadded, 5..7)]
    );
}

#[test]
fn lex_lone_percent_at_end() {
    assert_eq!(get_spanned("x%"), vec![(NoFormat, 0..1), (Error, 1..2)]);
}

#[test]
fn lex_prefix_of_long_directive_alone() {
    assert_eq!(get_spanned("%N"), vec![(Error, 0..2)]);
    assert_eq!(get_spanned("%Us"), vec![(Error, 0..2), (NoFormat, 2..3)]);
}

#[test]
fn lex_short_directive_before_other_case() {
    assert_eq!(get_spanned("%Ms"), vec![(MinutesPadded, 0..2), (NoFormat, 2..3)]);
    assert_eq!(get_spanned("%mS"), vec![(MinutesUnpadded, 0..2), (NoFormat, 2..3)]);
}

#[test]
fn lex_spans_count_characters() {
    assert_eq!(get_spanned("é%s"), vec![(NoFormat, 0..1), (SecondsUnpadded, 1..3)]);
}
