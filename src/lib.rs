//! Formatting of time spans through a small `strftime`-like template language
//! (`%H:%M:%S.%NS`).
use vstd::prelude::*;

pub mod decimal;
pub mod duration;
pub mod laws;
pub mod parsing;

pub use duration::Duration;
pub use parsing::Token;

use crate::decimal::{decimal, push_decimal, push_padded, zero_padded};
use crate::duration::{
    hours, micros_of_second, millis_of_second, minutes_of_hour, nanos_of_second,
    seconds_of_minute,
};
use crate::parsing::{chars_of, lemma_token_spans, lex_chars, spans_view, tokens};

verus! {

/// Rendering of a value through a format template.
pub trait FmtDuration {
    type Error;

    /// The template `fmt` with each directive replaced by a component of `self`.
    fn format(&self, fmt: &str) -> Result<String, Self::Error>;
}

/// A `%` in a template that starts no known directive.
#[derive(Debug, PartialEq, Eq)]
pub struct FormatError {
    /// Where the directive starts, in characters from the start of the template.
    pub offset: usize,
    /// The characters of the directive.
    pub directive: String,
}

impl View for FormatError {
    type V = (nat, Seq<char>);

    open spec fn view(&self) -> (nat, Seq<char>) {
        (self.offset as nat, self.directive@)
    }
}

/// What the directive `tok` renders to for a span of `d` nanoseconds.
pub open spec fn field(d: nat, tok: Token) -> Seq<char> {
    match tok {
        Token::HoursPadded => zero_padded(hours(d), 2),
        Token::HoursUnpadded => decimal(hours(d)),
        Token::MinutesPadded => zero_padded(minutes_of_hour(d), 2),
        Token::MinutesUnpadded => decimal(minutes_of_hour(d)),
        Token::SecondsPadded => zero_padded(seconds_of_minute(d), 2),
        Token::SecondsUnpadded => decimal(seconds_of_minute(d)),
        Token::MillisPadded => zero_padded(millis_of_second(d), 3),
        Token::MillisUnpadded => decimal(millis_of_second(d)),
        Token::MicrosPadded => zero_padded(micros_of_second(d), 6),
        Token::MicrosUnpadded => decimal(micros_of_second(d)),
        Token::NanosPadded => zero_padded(nanos_of_second(d), 9),
        Token::NanosUnpadded => decimal(nanos_of_second(d)),
        Token::Percent => seq!['%'],
        Token::NoFormat => seq![],
        Token::Error => seq![],
    }
}

/// What the token `x` of the template `t` renders to: its own text for a
/// literal run, else its field.
pub open spec fn piece(d: nat, t: Seq<char>, x: (Token, nat, nat)) -> Seq<char> {
    if x.0 == Token::NoFormat {
        t.subrange(x.1 as int, x.2 as int)
    } else {
        field(d, x.0)
    }
}

/// The pieces of the tokens `toks` of `t`, one after the other.
pub open spec fn rendered(d: nat, t: Seq<char>, toks: Seq<(Token, nat, nat)>) -> Seq<char>
    decreases toks.len(),
{
    if toks.len() == 0 {
        seq![]
    } else {
        rendered(d, t, toks.drop_last()) + piece(d, t, toks.last())
    }
}

/// Whether one of `toks` is an `Error` token.
pub open spec fn has_error(toks: Seq<(Token, nat, nat)>) -> bool {
    exists|k: int| 0 <= k < toks.len() && #[trigger] toks[k].0 == Token::Error
}

/// Whether `toks[k]` is the first `Error` token of `toks`.
pub open spec fn is_first_error(toks: Seq<(Token, nat, nat)>, k: int) -> bool {
    &&& 0 <= k < toks.len()
    &&& toks[k].0 == Token::Error
    &&& forall|j: int| 0 <= j < k ==> #[trigger] toks[j].0 != Token::Error
}

/// The result of formatting a span of `d` nanoseconds with the template `t`:
/// the rendered text, or, where the template holds an unknown directive, the
/// offset and the text of the first one.
pub open spec fn formatted(d: nat, t: Seq<char>) -> Result<Seq<char>, (nat, Seq<char>)> {
    let toks = tokens(t);
    if has_error(toks) {
        let k = choose|k: int| is_first_error(toks, k);
        Err((toks[k].1, t.subrange(toks[k].1 as int, toks[k].2 as int)))
    } else {
        Ok(rendered(d, t, toks))
    }
}

/// The result of a call to `format`, as values.
pub open spec fn result_view(r: Result<String, FormatError>) -> Result<Seq<char>, (nat, Seq<char>)> {
    match r {
        Ok(s) => Ok(s@),
        Err(e) => Err(e@),
    }
}

/// Appends the characters `start..end` of `t` to `buf`.
fn push_range(buf: &mut String, t: &Vec<char>, start: usize, end: usize)
    requires
        start <= end <= t@.len(),
    ensures
        final(buf)@ == old(buf)@ + t@.subrange(start as int, end as int),
{
    let ghost s0 = buf@;
    let mut i: usize = start;
    while i < end
        invariant
            start <= i <= end,
            end <= t@.len(),
            buf@ == s0 + t@.subrange(start as int, i as int),
        decreases end - i,
    {
        buf.push(t[i]);
        assert(s0 + t@.subrange(start as int, i + 1) =~= s0 + t@.subrange(start as int, i as int)
            + seq![t@[i as int]]);
        i += 1;
    }
}

impl FmtDuration for Duration {
    type Error = FormatError;

    /// Fails with the first unknown directive of `fmt`; else every literal run
    /// is copied, `%%` gives `%`, and each field directive gives its component
    /// of `self`.
    fn format(&self, fmt: &str) -> (r: Result<String, FormatError>)
        ensures
            result_view(r) == formatted(self@, fmt@),
    {
        let t = chars_of(fmt);
        let toks = lex_chars(&t);
        let ghost ts = spans_view(toks@);
        let ghost d = self@;
        proof {
            lemma_token_spans(t@, 0);
        }
        let secs = self.as_secs();
        let sub = self.subsec_nanos();
        let mut buf = String::new();
        let mut k: usize = 0;
        while k < toks.len()
            invariant
                ts == spans_view(toks@),
                ts == tokens(t@),
                t@ == fmt@,
                d == self@,
                secs as nat == d / 1_000_000_000,
                sub as nat == d % 1_000_000_000,
                k <= toks@.len(),
                forall|j: int| 0 <= j < ts.len() ==> (#[trigger] ts[j]).1 < ts[j].2 <= t@.len(),
                forall|j: int| 0 <= j < k ==> #[trigger] ts[j].0 != Token::Error,
                buf@ == rendered(d, t@, ts.take(k as int)),
            decreases toks.len() - k,
        {
            let x = toks[k];
            assert(ts[k as int] == (x.token, x.start as nat, x.end as nat));
            assert(ts[k as int].1 < ts[k as int].2 <= t@.len());
            match x.token {
                Token::Error => {
                    let mut directive = String::new();
                    push_range(&mut directive, &t, x.start, x.end);
                    proof {
                        assert(is_first_error(ts, k as int));
                        let c = choose|c: int| is_first_error(ts, c);
                        assert(c == k);
                    }
                    return Err(FormatError { offset: x.start, directive });
                },
                Token::NoFormat => push_range(&mut buf, &t, x.start, x.end),
                Token::Percent => buf.push('%'),
                Token::HoursPadded => push_padded(&mut buf, secs / 3600, 2),
                Token::HoursUnpadded => push_decimal(&mut buf, secs / 3600),
                Token::MinutesPadded => push_padded(&mut buf, secs / 60 % 60, 2),
                Token::MinutesUnpadded => push_decimal(&mut buf, secs / 60 % 60),
                Token::SecondsPadded => push_padded(&mut buf, secs % 60, 2),
                Token::SecondsUnpadded => push_decimal(&mut buf, secs % 60),
                Token::MillisPadded => push_padded(&mut buf, (sub / 1_000_000) as u64, 3),
                Token::MillisUnpadded => push_decimal(&mut buf, (sub / 1_000_000) as u64),
                Token::MicrosPadded => push_padded(&mut buf, (sub / 1_000) as u64, 6),
                Token::MicrosUnpadded => push_decimal(&mut buf, (sub / 1_000) as u64),
                Token::NanosPadded => push_padded(&mut buf, sub as u64, 9),
                Token::NanosUnpadded => push_decimal(&mut buf, sub as u64),
            }
            assert(ts.take(k + 1).drop_last() =~= ts.take(k as int));
            k += 1;
        }
        assert(ts.take(k as int) =~= ts);
        Ok(buf)
    }
}

/// Relies on `core::time::Duration::as_secs`: the whole seconds of the span.
/// Nothing is stated of them here.
pub assume_specification[ core::time::Duration::as_secs ](d: &core::time::Duration) -> u64;

/// Relies on `core::time::Duration::subsec_nanos`: the nanoseconds past the
/// last whole second, which the documentation bounds below one billion.
pub assume_specification[ core::time::Duration::subsec_nanos ](d: &core::time::Duration) -> (r:
    u32)
    ensures
        r < 1_000_000_000,
;

impl FmtDuration for core::time::Duration {
    type Error = FormatError;

    /// Formats the span of `self.as_secs()` seconds and `self.subsec_nanos()`
    /// nanoseconds as `Duration::format` does.
    fn format(&self, fmt: &str) -> (r: Result<String, FormatError>)
        ensures
            exists|n: nat| #[trigger] formatted(n, fmt@) == result_view(r),
    {
        let d = Duration::new(self.as_secs(), self.subsec_nanos());
        let r = d.format(fmt);
        assert(formatted(d@, fmt@) == result_view(r));
        r
    }
}

} // verus!
