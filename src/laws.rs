//! Laws that hold of `format` for every duration, proved over `formatted`.
use vstd::prelude::*;

use crate::decimal::{
    all_digits, decimal, lemma_decimal_digits, lemma_zero_padded, pow10, zero_padded,
};
use crate::duration::{
    hours, micros_of_second, millis_of_second, minutes_of_hour, nanos_of_second,
    seconds_of_minute, NANOS_PER_SEC,
};
use crate::parsing::{
    lemma_error_at_percent, lemma_literal_len_all, lemma_token_spans, next_token, tokens,
    tokens_from, Token,
};
use crate::{formatted, has_error, is_first_error, piece, rendered, Duration};

verus! {

/// Whether `s` is a number written without leading zeros: digits, and `"0"`
/// alone where it starts with `'0'`.
pub open spec fn unpadded_number(s: Seq<char>) -> bool {
    &&& s.len() >= 1
    &&& all_digits(s)
    &&& s[0] == '0' ==> s == seq!['0']
}

/// A template that is one token: its tokens are that token alone.
proof fn lemma_one_token(t: Seq<char>)
    requires
        t.len() > 0,
        next_token(t).1 == t.len(),
    ensures
        tokens(t) == seq![(next_token(t).0, 0nat, t.len())],
{
    assert(t.skip(0) =~= t);
    assert(tokens_from(t, t.len()) =~= Seq::<(Token, nat, nat)>::empty());
    assert(tokens(t) =~= seq![(next_token(t).0, 0nat, t.len())]);
}

/// A template that is one token other than `Error` renders to that token's piece.
proof fn lemma_one_piece(d: nat, t: Seq<char>)
    requires
        t.len() > 0,
        next_token(t).1 == t.len(),
        next_token(t).0 != Token::Error,
    ensures
        formatted(d, t) == Ok::<Seq<char>, (nat, Seq<char>)>(
            piece(d, t, (next_token(t).0, 0nat, t.len())),
        ),
{
    lemma_one_token(t);
    let toks = tokens(t);
    let x = (next_token(t).0, 0nat, t.len());
    assert(!has_error(toks));
    assert(toks.drop_last() =~= Seq::<(Token, nat, nat)>::empty());
    assert(toks.last() == x);
    assert(rendered(d, t, toks.drop_last()) =~= Seq::<char>::empty());
    assert(rendered(d, t, toks) =~= piece(d, t, x));
}

/// A template without `%` formats to itself, whatever the duration.
pub proof fn lemma_literal_template(d: Duration, t: Seq<char>)
    requires
        forall|i: int| 0 <= i < t.len() ==> t[i] != '%',
    ensures
        formatted(d@, t) == Ok::<Seq<char>, (nat, Seq<char>)>(t),
{
    if t.len() == 0 {
        assert(tokens(t) =~= Seq::<(Token, nat, nat)>::empty());
        assert(!has_error(tokens(t)));
        assert(rendered(d@, t, tokens(t)) =~= t);
    } else {
        lemma_literal_len_all(t.drop_first());
        lemma_one_piece(d@, t);
        assert(t.subrange(0, t.len() as int) =~= t);
    }
}

/// `%%` formats to a single `%`, whatever the duration.
pub proof fn lemma_escaped_percent(d: Duration)
    ensures
        formatted(d@, seq!['%', '%']) == Ok::<Seq<char>, (nat, Seq<char>)>(seq!['%']),
{
    lemma_one_piece(d@, seq!['%', '%']);
}

/// `%MS` is one milliseconds directive, not `%M` followed by `S`: it renders
/// three digits, which never equal the minutes followed by the letter `S`.
pub proof fn lemma_longest_match(d: Duration)
    ensures
        tokens(seq!['%', 'M', 'S']) == seq![(Token::MillisPadded, 0nat, 3nat)],
        formatted(d@, seq!['%', 'M', 'S']) == Ok::<Seq<char>, (nat, Seq<char>)>(
            zero_padded(millis_of_second(d@), 3),
        ),
        formatted(d@, seq!['%', 'M']) matches Ok(m) && formatted(d@, seq!['%', 'M', 'S']) != Ok::<
            Seq<char>,
            (nat, Seq<char>),
        >(m + seq!['S']),
{
    let t = seq!['%', 'M', 'S'];
    lemma_one_token(t);
    lemma_one_piece(d@, t);
    lemma_one_piece(d@, seq!['%', 'M']);
    let ms = zero_padded(millis_of_second(d@), 3);
    let m = zero_padded(minutes_of_hour(d@), 2);
    lemma_zero_padded(millis_of_second(d@), 3);
    let last = (m + seq!['S']).len() - 1;
    if ms == m + seq!['S'] {
        assert((m + seq!['S'])[last] == 'S');
        assert(ms[last] == 'S');
    }
}

/// Padded fields have at least their width in digits, and exactly that
/// width where the value is below a power of ten that fits it; unpadded
/// fields have no leading zero.
pub proof fn lemma_field_widths(d: Duration)
    ensures
        formatted(d@, seq!['%', 'H']) matches Ok(s) && s.len() >= 2 && all_digits(s),
        formatted(d@, seq!['%', 'M']) matches Ok(s) && s.len() == 2 && all_digits(s),
        formatted(d@, seq!['%', 'S']) matches Ok(s) && s.len() == 2 && all_digits(s),
        formatted(d@, seq!['%', 'M', 'S']) matches Ok(s) && s.len() == 3 && all_digits(s),
        formatted(d@, seq!['%', 'U', 'S']) matches Ok(s) && s.len() == 6 && all_digits(s),
        formatted(d@, seq!['%', 'N', 'S']) matches Ok(s) && s.len() == 9 && all_digits(s),
        formatted(d@, seq!['%', 'h']) matches Ok(s) && unpadded_number(s),
        formatted(d@, seq!['%', 'm']) matches Ok(s) && unpadded_number(s),
        formatted(d@, seq!['%', 's']) matches Ok(s) && unpadded_number(s),
        formatted(d@, seq!['%', 'm', 's']) matches Ok(s) && unpadded_number(s),
        formatted(d@, seq!['%', 'u', 's']) matches Ok(s) && unpadded_number(s),
        formatted(d@, seq!['%', 'n', 's']) matches Ok(s) && unpadded_number(s),
{
    let n = d@;
    lemma_components_bounded(d);
    assert(pow10(2) == 100 && pow10(3) == 1000 && pow10(6) == 1_000_000 && pow10(9)
        == 1_000_000_000) by {
        reveal_with_fuel(pow10, 10);
    }
    lemma_one_piece(n, seq!['%', 'H']);
    lemma_one_piece(n, seq!['%', 'M']);
    lemma_one_piece(n, seq!['%', 'S']);
    lemma_one_piece(n, seq!['%', 'M', 'S']);
    lemma_one_piece(n, seq!['%', 'U', 'S']);
    lemma_one_piece(n, seq!['%', 'N', 'S']);
    lemma_one_piece(n, seq!['%', 'h']);
    lemma_one_piece(n, seq!['%', 'm']);
    lemma_one_piece(n, seq!['%', 's']);
    lemma_one_piece(n, seq!['%', 'm', 's']);
    lemma_one_piece(n, seq!['%', 'u', 's']);
    lemma_one_piece(n, seq!['%', 'n', 's']);
    lemma_zero_padded(hours(n), 2);
    lemma_zero_padded(minutes_of_hour(n), 2);
    lemma_zero_padded(seconds_of_minute(n), 2);
    lemma_zero_padded(millis_of_second(n), 3);
    lemma_zero_padded(micros_of_second(n), 6);
    lemma_zero_padded(nanos_of_second(n), 9);
    lemma_decimal_digits(hours(n));
    lemma_decimal_digits(minutes_of_hour(n));
    lemma_decimal_digits(seconds_of_minute(n));
    lemma_decimal_digits(millis_of_second(n));
    lemma_decimal_digits(micros_of_second(n));
    lemma_decimal_digits(nanos_of_second(n));
}

/// Minutes of the hour and seconds of the minute stay below sixty, and each
/// sub-second field below one second at its resolution.
pub proof fn lemma_components_bounded(d: Duration)
    ensures
        minutes_of_hour(d@) < 60,
        seconds_of_minute(d@) < 60,
        millis_of_second(d@) < 1000,
        micros_of_second(d@) < 1_000_000,
        nanos_of_second(d@) < 1_000_000_000,
{
}

/// Hours are not wrapped: a span of `n` hours has `n` in its hours field,
/// however large `n` is.
pub proof fn lemma_hours_unbounded(n: nat)
    ensures
        hours(n * 3600 * NANOS_PER_SEC as nat) == n,
{
    assert((n * 3600 * 1_000_000_000) / 1_000_000_000 == n * 3600) by (nonlinear_arith);
    assert((n * 3600) / 3600 == n) by (nonlinear_arith);
}

/// A template fails exactly when it holds an unknown directive. The failure
/// carries no rendered text, only the directive, which starts with the `%` found
/// at its offset.
pub proof fn lemma_unknown_directive_fails(d: Duration, t: Seq<char>)
    ensures
        formatted(d@, t) is Err <==> has_error(tokens(t)),
        formatted(d@, t) matches Err(e) ==> e.1.len() >= 1 && e.1[0] == '%' && t[e.0 as int]
            == '%',
{
    let toks = tokens(t);
    if has_error(toks) {
        let k0 = choose|k: int| 0 <= k < toks.len() && #[trigger] toks[k].0 == Token::Error;
        lemma_first_error_exists(toks, k0);
        let k = choose|k: int| is_first_error(toks, k);
        lemma_token_spans(t, 0);
        lemma_error_at_percent(t, 0);
        assert(toks[k].1 < toks[k].2 <= t.len());
        assert(t.subrange(toks[k].1 as int, toks[k].2 as int)[0] == t[toks[k].1 as int]);
    }
}

/// Where some token is an `Error`, there is a first one.
proof fn lemma_first_error_exists(toks: Seq<(Token, nat, nat)>, k: int)
    requires
        0 <= k < toks.len(),
        toks[k].0 == Token::Error,
    ensures
        exists|j: int| is_first_error(toks, j),
    decreases k,
{
    if exists|j: int| 0 <= j < k && #[trigger] toks[j].0 == Token::Error {
        let j = choose|j: int| 0 <= j < k && #[trigger] toks[j].0 == Token::Error;
        lemma_first_error_exists(toks, j);
    } else {
        assert(is_first_error(toks, k));
    }
}

} // verus!
