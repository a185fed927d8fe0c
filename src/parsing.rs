//! The template tokenizer.
//!
//! A template is scanned left to right. A run of characters without `%` is one
//! `NoFormat` token. At a `%` the longest directive that matches is taken, three
//! characters before two, so that `%MS` is one `MillisPadded` token. A `%` that
//! starts no directive gives an `Error` token made of the `%` and the character
//! after it (or of the `%` alone at the end of the template); scanning goes on
//! after it.
//!
//! Spans count characters of the template, starting from zero.
use vstd::prelude::*;

verus! {

/// A token of a format template.
#[derive(Clone, Copy, Debug, PartialEq, Eq, Structural)]
pub enum Token {
    /// `%H`: hours, at least two digits.
    HoursPadded,
    /// `%h`: hours.
    HoursUnpadded,
    /// `%M`: minutes of the hour, two digits.
    MinutesPadded,
    /// `%m`: minutes of the hour.
    MinutesUnpadded,
    /// `%S`: seconds of the minute, two digits.
    SecondsPadded,
    /// `%s`: seconds of the minute.
    SecondsUnpadded,
    /// `%MS`: milliseconds of the second, three digits.
    MillisPadded,
    /// `%ms`: milliseconds of the second.
    MillisUnpadded,
    /// `%US`: microseconds of the second, six digits.
    MicrosPadded,
    /// `%us`: microseconds of the second.
    MicrosUnpadded,
    /// `%NS`: nanoseconds of the second, nine digits.
    NanosPadded,
    /// `%ns`: nanoseconds of the second.
    NanosUnpadded,
    /// `%%`: a literal `%`.
    Percent,
    /// A run of characters without `%`, copied as it is.
    NoFormat,
    /// A `%` that starts no directive.
    Error,
}

/// A token and the characters `start..end` of the template that it covers.
#[derive(Clone, Copy, Debug, PartialEq, Eq, Structural)]
pub struct Spanned {
    pub token: Token,
    pub start: usize,
    pub end: usize,
}

/// The directive written `%` followed by `c`, if there is one.
pub open spec fn short_directive(c: char) -> Option<Token> {
    if c == 'H' {
        Some(Token::HoursPadded)
    } else if c == 'h' {
        Some(Token::HoursUnpadded)
    } else if c == 'M' {
        Some(Token::MinutesPadded)
    } else if c == 'm' {
        Some(Token::MinutesUnpadded)
    } else if c == 'S' {
        Some(Token::SecondsPadded)
    } else if c == 's' {
        Some(Token::SecondsUnpadded)
    } else if c == '%' {
        Some(Token::Percent)
    } else {
        None
    }
}

/// The directive written `%` followed by `c1` and `c2`, if there is one.
pub open spec fn long_directive(c1: char, c2: char) -> Option<Token> {
    if c1 == 'M' && c2 == 'S' {
        Some(Token::MillisPadded)
    } else if c1 == 'm' && c2 == 's' {
        Some(Token::MillisUnpadded)
    } else if c1 == 'U' && c2 == 'S' {
        Some(Token::MicrosPadded)
    } else if c1 == 'u' && c2 == 's' {
        Some(Token::MicrosUnpadded)
    } else if c1 == 'N' && c2 == 'S' {
        Some(Token::NanosPadded)
    } else if c1 == 'n' && c2 == 's' {
        Some(Token::NanosUnpadded)
    } else {
        None
    }
}

/// The number of characters at the start of `s` before its first `%`.
pub open spec fn literal_len(s: Seq<char>) -> nat
    decreases s.len(),
{
    if s.len() == 0 || s[0] == '%' {
        0
    } else {
        1 + literal_len(s.drop_first())
    }
}

/// The token at the start of the non-empty `s`, and how many characters it takes.
pub open spec fn next_token(s: Seq<char>) -> (Token, nat) {
    if s[0] != '%' {
        (Token::NoFormat, 1 + literal_len(s.drop_first()))
    } else if s.len() >= 3 && long_directive(s[1], s[2]) is Some {
        (long_directive(s[1], s[2])->0, 3)
    } else if s.len() >= 2 && short_directive(s[1]) is Some {
        (short_directive(s[1])->0, 2)
    } else if s.len() >= 2 {
        (Token::Error, 2)
    } else {
        (Token::Error, 1)
    }
}

/// The tokens of `t` from position `i` on, each with its span.
pub open spec fn tokens_from(t: Seq<char>, i: nat) -> Seq<(Token, nat, nat)>
    decreases t.len() - i via tokens_from_decreases
{
    if i >= t.len() {
        seq![]
    } else {
        let next = next_token(t.skip(i as int));
        seq![(next.0, i, i + next.1)] + tokens_from(t, i + next.1)
    }
}

#[via_fn]
proof fn tokens_from_decreases(t: Seq<char>, i: nat) {
    if i < t.len() {
        lemma_next_token_len(t.skip(i as int));
    }
}

/// A literal run lies within its sequence.
pub proof fn lemma_literal_len_bound(s: Seq<char>)
    ensures
        literal_len(s) <= s.len(),
    decreases s.len(),
{
    if s.len() > 0 && s[0] != '%' {
        lemma_literal_len_bound(s.drop_first());
    }
}

/// Without `%`, the literal run is the whole sequence.
pub proof fn lemma_literal_len_all(s: Seq<char>)
    requires
        forall|i: int| 0 <= i < s.len() ==> s[i] != '%',
    ensures
        literal_len(s) == s.len(),
    decreases s.len(),
{
    if s.len() > 0 {
        assert(s[0] != '%');
        lemma_literal_len_all(s.drop_first());
    }
}

/// Every token takes at least one character, and no more than there are.
pub proof fn lemma_next_token_len(s: Seq<char>)
    requires
        s.len() > 0,
    ensures
        1 <= next_token(s).1 <= s.len(),
{
    lemma_literal_len_bound(s.drop_first());
}

/// The tokens of the template `t`, each with its span.
pub open spec fn tokens(t: Seq<char>) -> Seq<(Token, nat, nat)> {
    tokens_from(t, 0)
}

/// Every token of `t` from position `i` on covers at least one character of `t`,
/// at or after `i`.
pub proof fn lemma_token_spans(t: Seq<char>, i: nat)
    requires
        i <= t.len(),
    ensures
        forall|k: int|
            0 <= k < tokens_from(t, i).len() ==> i <= #[trigger] tokens_from(t, i)[k].1
                < tokens_from(t, i)[k].2 <= t.len(),
    decreases t.len() - i,
{
    if i < t.len() {
        let next = next_token(t.skip(i as int));
        lemma_next_token_len(t.skip(i as int));
        lemma_token_spans(t, i + next.1);
        let rest = tokens_from(t, i + next.1);
        assert forall|k: int| 0 <= k < tokens_from(t, i).len() implies i <= #[trigger] tokens_from(
            t,
            i,
        )[k].1 < tokens_from(t, i)[k].2 <= t.len() by {
            if k > 0 {
                assert(tokens_from(t, i)[k] == rest[k - 1]);
            }
        }
    }
}

/// Every `Error` token of `t` from position `i` on starts at a `%` of `t`.
pub proof fn lemma_error_at_percent(t: Seq<char>, i: nat)
    requires
        i <= t.len(),
    ensures
        forall|k: int|
            0 <= k < tokens_from(t, i).len() && (#[trigger] tokens_from(t, i)[k]).0 == Token::Error
                ==> t[tokens_from(t, i)[k].1 as int] == '%',
    decreases t.len() - i,
{
    if i < t.len() {
        let next = next_token(t.skip(i as int));
        lemma_next_token_len(t.skip(i as int));
        lemma_error_at_percent(t, i + next.1);
        let rest = tokens_from(t, i + next.1);
        let all = tokens_from(t, i);
        assert forall|k: int| 0 <= k < all.len() && (#[trigger] all[k]).0 == Token::Error implies t[all[
            k].1 as int] == '%' by {
            if k > 0 {
                assert(all[k] == rest[k - 1]);
            } else {
                assert(t.skip(i as int)[0] == t[i as int]);
            }
        }
    }
}

/// The tokens of `t` from position `i` on cover `i..t.len()` without gap or
/// overlap: the first starts at `i`, each ends where the next starts, and the
/// last ends at the end of `t`.
pub proof fn lemma_tokens_from_cover(t: Seq<char>, i: nat)
    requires
        i <= t.len(),
    ensures
        tokens_from(t, i).len() == 0 <==> i == t.len(),
        tokens_from(t, i).len() > 0 ==> tokens_from(t, i)[0].1 == i,
        tokens_from(t, i).len() > 0 ==> tokens_from(t, i).last().2 == t.len(),
        forall|k: int|
            0 <= k < tokens_from(t, i).len() - 1 ==> (#[trigger] tokens_from(t, i)[k]).2
                == tokens_from(t, i)[k + 1].1,
    decreases t.len() - i,
{
    if i < t.len() {
        let next = next_token(t.skip(i as int));
        lemma_next_token_len(t.skip(i as int));
        lemma_tokens_from_cover(t, i + next.1);
        let rest = tokens_from(t, i + next.1);
        let all = tokens_from(t, i);
        assert(all == seq![(next.0, i, i + next.1)] + rest);
        if rest.len() > 0 {
            assert(all.last() == rest.last());
        }
        assert forall|k: int| 0 <= k < all.len() - 1 implies (#[trigger] all[k]).2 == all[k
            + 1].1 by {
            if k > 0 {
                assert(all[k] == rest[k - 1]);
                assert(all[k + 1] == rest[k]);
            }
        }
    }
}

/// The tokens of a template cover it whole, in order, each character once.
pub proof fn lemma_tokens_cover(t: Seq<char>)
    ensures
        tokens(t).len() == 0 <==> t.len() == 0,
        tokens(t).len() > 0 ==> tokens(t)[0].1 == 0,
        tokens(t).len() > 0 ==> tokens(t).last().2 == t.len(),
        forall|k: int|
            0 <= k < tokens(t).len() - 1 ==> (#[trigger] tokens(t)[k]).2 == tokens(t)[k + 1].1,
{
    lemma_tokens_from_cover(t, 0);
}

/// The spans of `v` as values.
pub open spec fn spans_view(v: Seq<Spanned>) -> Seq<(Token, nat, nat)> {
    v.map_values(|s: Spanned| (s.token, s.start as nat, s.end as nat))
}

/// The directive written `%` followed by `c`, if there is one.
fn find_short_directive(c: char) -> (r: Option<Token>)
    ensures
        r == short_directive(c),
{
    match c {
        'H' => Some(Token::HoursPadded),
        'h' => Some(Token::HoursUnpadded),
        'M' => Some(Token::MinutesPadded),
        'm' => Some(Token::MinutesUnpadded),
        'S' => Some(Token::SecondsPadded),
        's' => Some(Token::SecondsUnpadded),
        '%' => Some(Token::Percent),
        _ => None,
    }
}

/// The directive written `%` followed by `c1` and `c2`, if there is one.
fn find_long_directive(c1: char, c2: char) -> (r: Option<Token>)
    ensures
        r == long_directive(c1, c2),
{
    match (c1, c2) {
        ('M', 'S') => Some(Token::MillisPadded),
        ('m', 's') => Some(Token::MillisUnpadded),
        ('U', 'S') => Some(Token::MicrosPadded),
        ('u', 's') => Some(Token::MicrosUnpadded),
        ('N', 'S') => Some(Token::NanosPadded),
        ('n', 's') => Some(Token::NanosUnpadded),
        _ => None,
    }
}

/// The token that starts at position `i` of `t`, and how many characters it takes.
fn token_at(t: &Vec<char>, i: usize) -> (r: (Token, usize))
    requires
        i < t@.len(),
    ensures
        (r.0, r.1 as nat) == next_token(t@.skip(i as int)),
        i + r.1 <= t@.len(),
{
    proof {
        lemma_next_token_len(t@.skip(i as int));
    }
    let len = t.len();
    if t[i] != '%' {
        let mut j: usize = i + 1;
        while j < len && t[j] != '%'
            invariant
                i < j <= len,
                len == t@.len(),
                literal_len(t@.skip(i + 1)) == (j - (i + 1)) + literal_len(t@.skip(j as int)),
            decreases len - j,
        {
            assert(t@.skip(j as int).drop_first() =~= t@.skip(j + 1));
            j += 1;
        }
        assert(t@.skip(i as int).drop_first() =~= t@.skip(i + 1));
        (Token::NoFormat, j - i)
    } else if len - i > 2 && find_long_directive(t[i + 1], t[i + 2]).is_some() {
        (find_long_directive(t[i + 1], t[i + 2]).unwrap(), 3)
    } else if i + 1 < len && find_short_directive(t[i + 1]).is_some() {
        (find_short_directive(t[i + 1]).unwrap(), 2)
    } else if i + 1 < len {
        (Token::Error, 2)
    } else {
        (Token::Error, 1)
    }
}

/// The tokens of the template `fmt`, in order, each with its span.
pub fn lex(fmt: &str) -> (r: Vec<Spanned>)
    ensures
        spans_view(r@) == tokens(fmt@),
{
    let t = chars_of(fmt);
    lex_chars(&t)
}

/// The tokens of the template whose characters are `t`, in order, each with its span.
pub fn lex_chars(t: &Vec<char>) -> (r: Vec<Spanned>)
    ensures
        spans_view(r@) == tokens(t@),
{
    let mut out: Vec<Spanned> = Vec::new();
    let mut i: usize = 0;
    while i < t.len()
        invariant
            i <= t@.len(),
            spans_view(out@) + tokens_from(t@, i as nat) == tokens(t@),
        decreases t.len() - i,
    {
        let (token, n) = token_at(&t, i);
        let item = Spanned { token, start: i, end: i + n };
        let ghost before = out@;
        out.push(item);
        assert(spans_view(out@) =~= spans_view(before).push((token, i as nat, (i + n) as nat)));
        assert(spans_view(before) + tokens_from(t@, i as nat) =~= spans_view(out@) + tokens_from(
            t@,
            (i + n) as nat,
        ));
        i = i + n;
    }
    assert(spans_view(out@) + tokens_from(t@, i as nat) =~= spans_view(out@));
    out
}

/// The characters of `s`, in order.
pub fn chars_of(s: &str) -> (r: Vec<char>)
    ensures
        r@ == s@,
{
    let mut v: Vec<char> = Vec::new();
    for c in it: s.chars()
        invariant
            v@ == it.seq().take(it.index()),
    {
        v.push(c);
    }
    v
}

} // verus!
