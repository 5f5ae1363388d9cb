//! Integer literals: what is lexed and written again is the same integer.

use vstd::prelude::*;
use crate::chars::{numeric_char, whitespace_char};
use crate::decimal::{
    all_digits, decimal_value, is_digit, lemma_read_then_render, lemma_render_then_read,
    render_int,
};
use crate::lexer::{
    comment_start, dot_index, drop_space, lex, lex_lines, line_end, line_tokens, number_end,
    number_token, scan, skip_space, strip, symbol, token_then, TokenView,
};

verus! {

/// A char of an integer literal: a digit or the minus sign.
pub open spec fn literal_char(c: char) -> bool {
    is_digit(c) || c == '-'
}

/// A text of digits and minus signs.
pub open spec fn literal_text(s: Seq<char>) -> bool {
    forall|i: int| 0 <= i < s.len() ==> literal_char(#[trigger] s[i])
}

proof fn lemma_one_line(s: Seq<char>, from: int)
    requires
        literal_text(s),
        0 <= from <= s.len(),
    ensures
        line_end(s, from) == s.len(),
    decreases s.len() - from,
{
    if from < s.len() {
        assert(literal_char(s[from]));
        lemma_one_line(s, from + 1);
    }
}

proof fn lemma_no_comment(s: Seq<char>, from: int)
    requires
        literal_text(s),
        0 <= from <= s.len(),
    ensures
        comment_start(s, from) == s.len(),
    decreases s.len() - from,
{
    if from < s.len() {
        assert(literal_char(s[from]));
        lemma_no_comment(s, from + 1);
    }
}

/// Nothing is stripped from a text of digits and minus signs.
proof fn lemma_nothing_stripped(s: Seq<char>)
    requires
        literal_text(s),
        s.len() >= 1,
    ensures
        strip(s) == s,
{
    lemma_no_comment(s, 0);
    let code = s.take(s.len() as int);
    assert(code =~= s);
    assert(literal_char(s[0]));
    assert(literal_char(s[s.len() - 1]));
    assert(!whitespace_char(s[0]));
    assert(!whitespace_char(s[s.len() - 1]));
    assert(skip_space(s, 0) == 0);
    assert(drop_space(s, s.len() as int) == s.len());
    assert(s.subrange(0, s.len() as int) =~= s);
}

proof fn lemma_digits_to_the_end(s: Seq<char>, i: int)
    requires
        0 <= i <= s.len(),
        forall|k: int| i <= k < s.len() ==> is_digit(#[trigger] s[k]),
    ensures
        number_end(s, i) == s.len(),
    decreases s.len() - i,
{
    if i < s.len() {
        assert(is_digit(s[i]));
        assert(numeric_char(s[i]));
        lemma_digits_to_the_end(s, i + 1);
    }
}

proof fn lemma_no_dot(s: Seq<char>, from: int)
    requires
        all_digits(s),
        0 <= from <= s.len(),
    ensures
        dot_index(s, from) == s.len(),
    decreases s.len() - from,
{
    if from < s.len() {
        assert(is_digit(s[from]));
        lemma_no_dot(s, from + 1);
    }
}

/// Digits that run to the end of a line give one integer token and the end
/// of the line.
proof fn lemma_scan_digits(line: Seq<char>, i: int, number: usize)
    requires
        0 <= i < line.len(),
        all_digits(line.subrange(i, line.len() as int)),
        decimal_value(line.subrange(i, line.len() as int)) <= i64::MAX,
    ensures
        scan(line, i, number) == Ok::<Seq<TokenView>, crate::error::ErrorView>(
            seq![
                TokenView::Int(decimal_value(line.subrange(i, line.len() as int)) as i64),
                TokenView::Eol,
            ],
        ),
{
    let digits = line.subrange(i, line.len() as int);
    assert forall|k: int| i <= k < line.len() implies is_digit(#[trigger] line[k]) by {
        assert(digits[k - i] == line[k]);
    }
    lemma_digits_to_the_end(line, i);
    lemma_no_dot(digits, 0);
    assert(is_digit(line[i]));
    let v = TokenView::Int(decimal_value(digits) as i64);
    assert(number_token(digits, number) == Ok::<TokenView, crate::error::ErrorView>(v));
    assert(scan(line, line.len() as int, number) == Ok::<
        Seq<TokenView>,
        crate::error::ErrorView,
    >(seq![TokenView::Eol]));
    assert(seq![v] + seq![TokenView::Eol] =~= seq![v, TokenView::Eol]);
}

/// The round trip of an integer literal.
///
/// A text of one or more ASCII digits whose value fits a 64-bit signed
/// integer lexes to one integer token with that value, and the end of its
/// line. Writing the value and reading it back gives the value again; and
/// where the text has no needless zero in front, writing the value gives the
/// text itself.
pub proof fn lemma_integer_literal_round_trip(s: Seq<char>)
    requires
        s.len() >= 1,
        all_digits(s),
        decimal_value(s) <= i64::MAX,
    ensures
        lex(s) == Ok::<Seq<TokenView>, crate::error::ErrorView>(
            seq![TokenView::Int(decimal_value(s) as i64), TokenView::Eol],
        ),
        decimal_value(render_int(decimal_value(s) as int)) == decimal_value(s),
        (s.len() > 1 ==> s[0] != '0') ==> render_int(decimal_value(s) as int) == s,
{
    assert(literal_text(s)) by {
        assert forall|i: int| 0 <= i < s.len() implies literal_char(#[trigger] s[i]) by {
            assert(is_digit(s[i]));
        }
    }
    lemma_one_line(s, 0);
    let line = s.subrange(0, s.len() as int);
    assert(line =~= s);
    lemma_nothing_stripped(s);
    assert(s.subrange(0, s.len() as int) =~= s);
    lemma_scan_digits(s, 0, 1);
    assert(line_tokens(s, 1) == scan(s, 0, 1));
    assert(lex_lines(s, 0, 1) == line_tokens(s, 1));
    lemma_render_then_read(decimal_value(s));
    if s.len() > 1 ==> s[0] != '0' {
        lemma_read_then_render(s);
    }
}

/// A minus sign before the digits is a token of its own: the literal lexes
/// to the sign and the magnitude.
pub proof fn lemma_negative_literal(s: Seq<char>)
    requires
        s.len() >= 1,
        all_digits(s),
        decimal_value(s) <= i64::MAX,
    ensures
        lex(seq!['-'] + s) == Ok::<Seq<TokenView>, crate::error::ErrorView>(
            seq![TokenView::Minus, TokenView::Int(decimal_value(s) as i64), TokenView::Eol],
        ),
{
    let t = seq!['-'] + s;
    assert(literal_text(t)) by {
        assert forall|i: int| 0 <= i < t.len() implies literal_char(#[trigger] t[i]) by {
            if i > 0 {
                assert(t[i] == s[i - 1]);
                assert(is_digit(s[i - 1]));
            }
        }
    }
    lemma_one_line(t, 0);
    assert(t.subrange(0, t.len() as int) =~= t);
    lemma_nothing_stripped(t);
    assert(t.subrange(1, t.len() as int) =~= s);
    lemma_scan_digits(t, 1, 1);
    let v = TokenView::Int(decimal_value(s) as i64);
    assert(symbol('-') == Some(TokenView::Minus));
    assert(scan(t, 0, 1) == token_then(TokenView::Minus, scan(t, 1, 1)));
    assert(seq![TokenView::Minus] + seq![v, TokenView::Eol] =~= seq![
        TokenView::Minus,
        v,
        TokenView::Eol,
    ]);
    assert(line_tokens(t, 1) == scan(t, 0, 1));
    assert(lex_lines(t, 0, 1) == line_tokens(t, 1));
}

} // verus!
