//! The lexer: from source text to tokens.
//!
//! The text is taken line by line. A line is cut at the first `#` that stands
//! outside a string literal, trimmed of white space, and passed over where
//! nothing is left. Every other line gives its tokens and one closing
//! [`Token::Eol`].

use vstd::prelude::*;
use vstd::slice::slice_subrange;
use crate::chars::{
    chars_of, debug_quote, debug_quoted, alphanumeric_char, is_letter, numeric_char, whitespace_char,
    text_of,
};
use crate::decimal::{
    all_digits, decimal_value, is_digit, push_signed, read_i64, render_int,
};
use crate::error::{ErrorView, PalladError};

verus! {

/// One lexical unit. A float literal holds the text that was written: digits
/// with one decimal point among or after them.
#[derive(Debug, PartialEq)]
pub enum Token {
    Var,
    Unit,
    Print,
    Ident(String),
    Int(i64),
    Float(String),
    Str(String),
    Plus,
    Minus,
    Star,
    Slash,
    IntDiv,
    Mod,
    Eq,
    LParen,
    RParen,
    Comma,
    Eol,
}

/// The mathematical model of a [`Token`].
pub enum TokenView {
    Var,
    Unit,
    Print,
    Ident(Seq<char>),
    Int(i64),
    Float(Seq<char>),
    Str(Seq<char>),
    Plus,
    Minus,
    Star,
    Slash,
    IntDiv,
    Mod,
    Eq,
    LParen,
    RParen,
    Comma,
    Eol,
}

impl View for Token {
    type V = TokenView;

    open spec fn view(&self) -> TokenView {
        match self {
            Token::Var => TokenView::Var,
            Token::Unit => TokenView::Unit,
            Token::Print => TokenView::Print,
            Token::Ident(name) => TokenView::Ident(name@),
            Token::Int(n) => TokenView::Int(*n),
            Token::Float(text) => TokenView::Float(text@),
            Token::Str(s) => TokenView::Str(s@),
            Token::Plus => TokenView::Plus,
            Token::Minus => TokenView::Minus,
            Token::Star => TokenView::Star,
            Token::Slash => TokenView::Slash,
            Token::IntDiv => TokenView::IntDiv,
            Token::Mod => TokenView::Mod,
            Token::Eq => TokenView::Eq,
            Token::LParen => TokenView::LParen,
            Token::RParen => TokenView::RParen,
            Token::Comma => TokenView::Comma,
            Token::Eol => TokenView::Eol,
        }
    }
}

impl DeepView for Token {
    type V = TokenView;

    open spec fn deep_view(&self) -> TokenView {
        self@
    }
}

impl Clone for Token {
    fn clone(&self) -> (r: Self)
        ensures
            r@ == self@,
    {
        match self {
            Token::Var => Token::Var,
            Token::Unit => Token::Unit,
            Token::Print => Token::Print,
            Token::Ident(name) => Token::Ident(name.clone()),
            Token::Int(n) => Token::Int(*n),
            Token::Float(text) => Token::Float(text.clone()),
            Token::Str(s) => Token::Str(s.clone()),
            Token::Plus => Token::Plus,
            Token::Minus => Token::Minus,
            Token::Star => Token::Star,
            Token::Slash => Token::Slash,
            Token::IntDiv => Token::IntDiv,
            Token::Mod => Token::Mod,
            Token::Eq => Token::Eq,
            Token::LParen => Token::LParen,
            Token::RParen => Token::RParen,
            Token::Comma => Token::Comma,
            Token::Eol => Token::Eol,
        }
    }
}

/// How a token is shown in a diagnostic: the name of its kind and, in
/// brackets, what it holds.
pub open spec fn describe(t: TokenView) -> Seq<char> {
    match t {
        TokenView::Var => "Var"@,
        TokenView::Unit => "None"@,
        TokenView::Print => "Print"@,
        TokenView::Ident(name) => "Ident("@ + debug_quoted(name) + ")"@,
        TokenView::Int(n) => "Int("@ + render_int(n as int) + ")"@,
        TokenView::Float(text) => "Float("@ + text + ")"@,
        TokenView::Str(s) => "Str("@ + debug_quoted(s) + ")"@,
        TokenView::Plus => "Plus"@,
        TokenView::Minus => "Minus"@,
        TokenView::Star => "Star"@,
        TokenView::Slash => "Slash"@,
        TokenView::IntDiv => "IntDiv"@,
        TokenView::Mod => "Mod"@,
        TokenView::Eq => "Eq"@,
        TokenView::LParen => "LParen"@,
        TokenView::RParen => "RParen"@,
        TokenView::Comma => "Comma"@,
        TokenView::Eol => "Eol"@,
    }
}

impl Token {
    /// The text that shows this token in a diagnostic.
    pub fn describe(&self) -> (out: String)
        ensures
            out@ == describe(self@),
    {
        match self {
            Token::Var => String::from_str("Var"),
            Token::Unit => String::from_str("None"),
            Token::Print => String::from_str("Print"),
            Token::Ident(name) => {
                let mut out = String::from_str("Ident(");
                let quoted = debug_quote(name.as_str());
                out.append(quoted.as_str());
                out.append(")");
                out
            },
            Token::Int(n) => {
                let mut out = String::from_str("Int(");
                push_signed(&mut out, *n);
                out.append(")");
                out
            },
            Token::Float(text) => {
                let mut out = String::from_str("Float(");
                out.append(text.as_str());
                out.append(")");
                out
            },
            Token::Str(s) => {
                let mut out = String::from_str("Str(");
                let quoted = debug_quote(s.as_str());
                out.append(quoted.as_str());
                out.append(")");
                out
            },
            Token::Plus => String::from_str("Plus"),
            Token::Minus => String::from_str("Minus"),
            Token::Star => String::from_str("Star"),
            Token::Slash => String::from_str("Slash"),
            Token::IntDiv => String::from_str("IntDiv"),
            Token::Mod => String::from_str("Mod"),
            Token::Eq => String::from_str("Eq"),
            Token::LParen => String::from_str("LParen"),
            Token::RParen => String::from_str("RParen"),
            Token::Comma => String::from_str("Comma"),
            Token::Eol => String::from_str("Eol"),
        }
    }
}

/// The result of lexing, as the contracts speak of it.
pub type Lexed = Result<Seq<TokenView>, ErrorView>;

/// Puts a token before the tokens of a result; a failure stays as it is.
pub open spec fn token_then(t: TokenView, rest: Lexed) -> Lexed {
    match rest {
        Ok(ts) => Ok(seq![t] + ts),
        Err(e) => Err(e),
    }
}

/// Puts tokens before the tokens of a result; a failure stays as it is.
pub open spec fn tokens_then(ts: Seq<TokenView>, rest: Lexed) -> Lexed {
    match rest {
        Ok(more) => Ok(ts + more),
        Err(e) => Err(e),
    }
}

// ---------------------------------------------------------------------
// Lines, comments, white space
// ---------------------------------------------------------------------

/// The index of the first newline at or after `from`, or the length of the
/// text where there is none.
pub open spec fn line_end(s: Seq<char>, from: int) -> int
    decreases s.len() - from,
{
    if from < 0 || from >= s.len() || s[from] == '\n' {
        from
    } else {
        line_end(s, from + 1)
    }
}

/// The index just behind the quote that closes a string literal whose
/// content starts at `k`; the length of the line where none closes it. A
/// backslash takes the char behind it along.
pub open spec fn string_end(s: Seq<char>, k: int, quote: char) -> int
    decreases s.len() - k,
{
    if k < 0 || k >= s.len() {
        s.len() as int
    } else if s[k] == '\\' {
        if k + 1 >= s.len() {
            s.len() as int
        } else {
            string_end(s, k + 2, quote)
        }
    } else if s[k] == quote {
        k + 1
    } else {
        string_end(s, k + 1, quote)
    }
}

pub proof fn lemma_string_end_bounds(s: Seq<char>, k: int, quote: char)
    requires
        0 <= k,
    ensures
        k <= string_end(s, k, quote) || k > s.len(),
        string_end(s, k, quote) <= s.len(),
    decreases s.len() - k,
{
    if k < s.len() {
        if s[k] == '\\' {
            if k + 1 < s.len() {
                lemma_string_end_bounds(s, k + 2, quote);
            }
        } else if s[k] != quote {
            lemma_string_end_bounds(s, k + 1, quote);
        }
    }
}

/// The index of the first `#` at or after `i` that stands outside the string
/// literals of the line, or the length of the line where there is none.
/// `i` itself stands outside any literal.
pub open spec fn comment_start(s: Seq<char>, i: int) -> int
    decreases s.len() - i,
{
    if i < 0 || i >= s.len() {
        s.len() as int
    } else if s[i] == '#' {
        i
    } else if s[i] == '"' || s[i] == '\'' {
        proof {
            lemma_string_end_bounds(s, i + 1, s[i]);
        }
        comment_start(s, string_end(s, i + 1, s[i]))
    } else {
        comment_start(s, i + 1)
    }
}

/// The index of the first char at or after `i` that is no white space.
pub open spec fn skip_space(s: Seq<char>, i: int) -> int
    decreases s.len() - i,
{
    if i < 0 || i >= s.len() || !whitespace_char(s[i]) {
        i
    } else {
        skip_space(s, i + 1)
    }
}

/// The index just behind the last char before `j` that is no white space.
pub open spec fn drop_space(s: Seq<char>, j: int) -> int
    decreases j,
{
    if j <= 0 || j > s.len() || !whitespace_char(s[j - 1]) {
        j
    } else {
        drop_space(s, j - 1)
    }
}

/// The text without the white space at its two ends.
pub open spec fn trim(s: Seq<char>) -> Seq<char> {
    let a = skip_space(s, 0);
    let b = drop_space(s, s.len() as int);
    if a < b {
        s.subrange(a, b)
    } else {
        Seq::empty()
    }
}

/// What is lexed of a line: the line without its comment, trimmed.
pub open spec fn strip(line: Seq<char>) -> Seq<char> {
    trim(line.take(comment_start(line, 0)))
}

// ---------------------------------------------------------------------
// The tokens of one line
// ---------------------------------------------------------------------

/// A char that goes on a number: a numeric char or the decimal point.
pub open spec fn number_char(c: char) -> bool {
    numeric_char(c) || c == '.'
}

/// A char that goes on an identifier.
pub open spec fn word_char(c: char) -> bool {
    alphanumeric_char(c) || c == '_'
}

/// The index of the first char at or after `i` that does not go on a number.
pub open spec fn number_end(s: Seq<char>, i: int) -> int
    decreases s.len() - i,
{
    if i < 0 || i >= s.len() || !number_char(s[i]) {
        i
    } else {
        number_end(s, i + 1)
    }
}

/// The index of the first char at or after `i` that does not go on an
/// identifier.
pub open spec fn word_end(s: Seq<char>, i: int) -> int
    decreases s.len() - i,
{
    if i < 0 || i >= s.len() || !word_char(s[i]) {
        i
    } else {
        word_end(s, i + 1)
    }
}

/// The index of the first decimal point at or after `from`, or the length of
/// the text where there is none.
pub open spec fn dot_index(s: Seq<char>, from: int) -> int
    decreases s.len() - from,
{
    if from < 0 || from >= s.len() {
        s.len() as int
    } else if s[from] == '.' {
        from
    } else {
        dot_index(s, from + 1)
    }
}

/// Every char but the one at `skip` is an ASCII digit.
pub open spec fn digits_around(s: Seq<char>, skip: int) -> bool {
    forall|i: int| 0 <= i < s.len() && i != skip ==> is_digit(#[trigger] s[i])
}

/// The token that the text of a number gives.
///
/// Without a decimal point the text is an integer: its chars must be ASCII
/// digits and its value must fit in 64 bits with a sign. With one point it is
/// a float, and every other char must be an ASCII digit. A second point ends
/// the number in a failure that shows the text up to that point.
pub open spec fn number_token(text: Seq<char>, line: usize) -> Result<TokenView, ErrorView> {
    let first = dot_index(text, 0);
    let second = dot_index(text, first + 1);
    if first >= text.len() {
        if all_digits(text) && decimal_value(text) <= i64::MAX {
            Ok(TokenView::Int(decimal_value(text) as i64))
        } else {
            Err(ErrorView::InvalidNumber { value: text, line })
        }
    } else if second < text.len() {
        Err(ErrorView::InvalidNumber { value: text.take(second + 1), line })
    } else if digits_around(text, first) {
        Ok(TokenView::Float(text))
    } else {
        Err(ErrorView::InvalidNumber { value: text, line })
    }
}

/// The token that a word gives: one of the three keywords, or an identifier.
pub open spec fn word_token(text: Seq<char>) -> TokenView {
    if text == "var"@ {
        TokenView::Var
    } else if text == "none"@ {
        TokenView::Unit
    } else if text == "print"@ {
        TokenView::Print
    } else {
        TokenView::Ident(text)
    }
}

/// The char that an escape stands for, by the char behind the backslash.
pub open spec fn unescape(c: char, quote: char) -> Option<char> {
    if c == 'n' {
        Some('\n')
    } else if c == 't' {
        Some('\t')
    } else if c == 'r' {
        Some('\r')
    } else if c == quote {
        Some(quote)
    } else if c == '\\' {
        Some('\\')
    } else {
        None
    }
}

/// The result of reading a string literal: its content and the index behind
/// its closing quote.
pub type Quoted = Result<(Seq<char>, int), ErrorView>;

/// Puts a char before the content of a result; a failure stays as it is.
pub open spec fn char_then(c: char, rest: Quoted) -> Quoted {
    match rest {
        Ok((text, next)) => Ok((seq![c] + text, next)),
        Err(e) => Err(e),
    }
}

/// Reads the content of a string literal from index `k`, just behind the
/// opening quote, up to the closing one.
pub open spec fn string_literal(s: Seq<char>, k: int, quote: char, line: usize) -> Quoted
    decreases s.len() - k,
{
    if k < 0 || k >= s.len() {
        Err(ErrorView::UnterminatedString { line })
    } else if s[k] == '\\' {
        if k + 1 >= s.len() {
            Err(ErrorView::UnterminatedString { line })
        } else {
            match unescape(s[k + 1], quote) {
                Some(c) => char_then(c, string_literal(s, k + 2, quote, line)),
                None => Err(ErrorView::InvalidEscape { char: s[k + 1], line }),
            }
        }
    } else if s[k] == quote {
        Ok((Seq::empty(), k + 1))
    } else {
        char_then(s[k], string_literal(s, k + 1, quote, line))
    }
}

/// The token of an operator or a bracket of one char.
pub open spec fn symbol(c: char) -> Option<TokenView> {
    if c == '+' {
        Some(TokenView::Plus)
    } else if c == '-' {
        Some(TokenView::Minus)
    } else if c == '*' {
        Some(TokenView::Star)
    } else if c == '%' {
        Some(TokenView::Mod)
    } else if c == '=' {
        Some(TokenView::Eq)
    } else if c == '(' {
        Some(TokenView::LParen)
    } else if c == ')' {
        Some(TokenView::RParen)
    } else if c == ',' {
        Some(TokenView::Comma)
    } else {
        None
    }
}

pub proof fn lemma_number_end_bounds(s: Seq<char>, i: int)
    requires
        0 <= i <= s.len(),
    ensures
        i <= number_end(s, i) <= s.len(),
        i < s.len() && number_char(s[i]) ==> i < number_end(s, i),
    decreases s.len() - i,
{
    if i < s.len() && number_char(s[i]) {
        lemma_number_end_bounds(s, i + 1);
    }
}

pub proof fn lemma_word_end_bounds(s: Seq<char>, i: int)
    requires
        0 <= i <= s.len(),
    ensures
        i <= word_end(s, i) <= s.len(),
        i < s.len() && word_char(s[i]) ==> i < word_end(s, i),
    decreases s.len() - i,
{
    if i < s.len() && word_char(s[i]) {
        lemma_word_end_bounds(s, i + 1);
    }
}

/// A string literal that is read ends behind where it started.
pub proof fn lemma_string_literal_bounds(s: Seq<char>, k: int, quote: char, line: usize)
    requires
        0 <= k,
    ensures
        string_literal(s, k, quote, line) is Ok ==> k < string_literal(s, k, quote, line)->Ok_0.1
            <= s.len(),
    decreases s.len() - k,
{
    if k < s.len() {
        if s[k] == '\\' {
            if k + 1 < s.len() {
                lemma_string_literal_bounds(s, k + 2, quote, line);
            }
        } else if s[k] != quote {
            lemma_string_literal_bounds(s, k + 1, quote, line);
        }
    }
}

/// The tokens of a line from index `i` on, with the closing
/// [`TokenView::Eol`], or the first failure.
pub open spec fn scan(s: Seq<char>, i: int, line: usize) -> Lexed
    decreases s.len() - i,
{
    if i < 0 || i >= s.len() {
        Ok(seq![TokenView::Eol])
    } else {
        let c = s[i];
        if c == ' ' || c == '\t' {
            scan(s, i + 1, line)
        } else if is_digit(c) {
            proof {
                lemma_number_end_bounds(s, i);
            }
            let j = number_end(s, i);
            match number_token(s.subrange(i, j), line) {
                Ok(t) => token_then(t, scan(s, j, line)),
                Err(e) => Err(e),
            }
        } else if is_letter(c) {
            proof {
                lemma_word_end_bounds(s, i);
            }
            let j = word_end(s, i);
            token_then(word_token(s.subrange(i, j)), scan(s, j, line))
        } else if c == '"' || c == '\'' {
            proof {
                lemma_string_literal_bounds(s, i + 1, c, line);
            }
            match string_literal(s, i + 1, c, line) {
                Ok((text, j)) => token_then(TokenView::Str(text), scan(s, j, line)),
                Err(e) => Err(e),
            }
        } else if c == '/' {
            if i + 1 < s.len() && s[i + 1] == '/' {
                token_then(TokenView::IntDiv, scan(s, i + 2, line))
            } else {
                token_then(TokenView::Slash, scan(s, i + 1, line))
            }
        } else {
            match symbol(c) {
                Some(t) => token_then(t, scan(s, i + 1, line)),
                None => Err(ErrorView::UnknownCharacter { got: seq![c], line }),
            }
        }
    }
}

/// Tokens of which the last, and no other, ends a line.
pub open spec fn ends_in_one_eol(ts: Seq<TokenView>) -> bool {
    &&& ts.len() >= 1
    &&& ts.last() is Eol
    &&& forall|i: int| 0 <= i < ts.len() - 1 ==> !(#[trigger] ts[i] is Eol)
}

proof fn lemma_token_before(t: TokenView, ts: Seq<TokenView>)
    requires
        !(t is Eol),
        ends_in_one_eol(ts),
    ensures
        ends_in_one_eol(seq![t] + ts),
{
    let all = seq![t] + ts;
    assert(all.last() == ts.last());
    assert forall|i: int| 0 <= i < all.len() - 1 implies !(#[trigger] all[i] is Eol) by {
        if i > 0 {
            assert(all[i] == ts[i - 1]);
        }
    }
}

/// The tokens of a line end in one line end, and hold no other.
pub proof fn lemma_scan_ends_in_one_eol(s: Seq<char>, i: int, line: usize)
    requires
        0 <= i,
    ensures
        scan(s, i, line) is Ok ==> ends_in_one_eol(scan(s, i, line)->Ok_0),
    decreases s.len() - i,
{
    if i < s.len() {
        let c = s[i];
        if c == ' ' || c == '\t' {
            lemma_scan_ends_in_one_eol(s, i + 1, line);
        } else if is_digit(c) {
            lemma_number_end_bounds(s, i);
            let j = number_end(s, i);
            lemma_scan_ends_in_one_eol(s, j, line);
            if let Ok(t) = number_token(s.subrange(i, j), line) {
                if let Ok(ts) = scan(s, j, line) {
                    lemma_token_before(t, ts);
                }
            }
        } else if is_letter(c) {
            lemma_word_end_bounds(s, i);
            let j = word_end(s, i);
            lemma_scan_ends_in_one_eol(s, j, line);
            if let Ok(ts) = scan(s, j, line) {
                lemma_token_before(word_token(s.subrange(i, j)), ts);
            }
        } else if c == '"' || c == '\'' {
            lemma_string_literal_bounds(s, i + 1, c, line);
            if let Ok((text, j)) = string_literal(s, i + 1, c, line) {
                lemma_scan_ends_in_one_eol(s, j, line);
                if let Ok(ts) = scan(s, j, line) {
                    lemma_token_before(TokenView::Str(text), ts);
                }
            }
        } else if c == '/' {
            if i + 1 < s.len() && s[i + 1] == '/' {
                lemma_scan_ends_in_one_eol(s, i + 2, line);
                if let Ok(ts) = scan(s, i + 2, line) {
                    lemma_token_before(TokenView::IntDiv, ts);
                }
            } else {
                lemma_scan_ends_in_one_eol(s, i + 1, line);
                if let Ok(ts) = scan(s, i + 1, line) {
                    lemma_token_before(TokenView::Slash, ts);
                }
            }
        } else {
            if let Some(t) = symbol(c) {
                lemma_scan_ends_in_one_eol(s, i + 1, line);
                if let Ok(ts) = scan(s, i + 1, line) {
                    lemma_token_before(t, ts);
                }
            }
        }
    }
}

/// A line with content gives tokens that end in one line end; a line
/// without gives none.
pub proof fn lemma_line_ends_in_one_eol(line: Seq<char>, number: usize)
    ensures
        line_tokens(line, number) is Ok ==> if strip(line).len() == 0 {
            line_tokens(line, number)->Ok_0.len() == 0
        } else {
            ends_in_one_eol(line_tokens(line, number)->Ok_0)
        },
{
    lemma_scan_ends_in_one_eol(strip(line), 0, number);
}

/// The tokens of one line: none where nothing is left of it once its comment
/// and the white space at its ends are gone.
pub open spec fn line_tokens(line: Seq<char>, number: usize) -> Lexed {
    let body = strip(line);
    if body.len() == 0 {
        Ok(Seq::empty())
    } else {
        scan(body, 0, number)
    }
}

pub proof fn lemma_line_end_bounds(s: Seq<char>, from: int)
    requires
        0 <= from <= s.len(),
    ensures
        from <= line_end(s, from) <= s.len(),
    decreases s.len() - from,
{
    if from < s.len() && s[from] != '\n' {
        lemma_line_end_bounds(s, from + 1);
    }
}

/// The tokens of the lines that start at index `from`, where `number` is the
/// number of the first of them.
pub open spec fn lex_lines(s: Seq<char>, from: int, number: int) -> Lexed
    decreases s.len() - from,
{
    if from < 0 || from >= s.len() {
        Ok(Seq::empty())
    } else {
        proof {
            lemma_line_end_bounds(s, from);
        }
        let end = line_end(s, from);
        match line_tokens(s.subrange(from, end), #[verifier::truncate] (number as usize)) {
            Ok(ts) => if end < s.len() {
                tokens_then(ts, lex_lines(s, end + 1, number + 1))
            } else {
                Ok(ts)
            },
            Err(e) => Err(e),
        }
    }
}

/// The tokens of a source text, or its first lexical failure.
pub open spec fn lex(input: Seq<char>) -> Lexed {
    lex_lines(input, 0, 1)
}

// ---------------------------------------------------------------------
// The executable lexer
// ---------------------------------------------------------------------

/// The model of a lexing result.
pub open spec fn lexed_view(r: Result<Vec<Token>, PalladError>) -> Lexed {
    match r {
        Ok(tokens) => Ok(tokens.deep_view()),
        Err(e) => Err(e@),
    }
}

/// The model of the result of reading a string literal.
pub open spec fn quoted_view(r: Result<(String, usize), PalladError>) -> Quoted {
    match r {
        Ok((text, next)) => Ok((text@, next as int)),
        Err(e) => Err(e@),
    }
}

proof fn lemma_tokens_then_push(ts: Seq<TokenView>, t: TokenView, rest: Lexed)
    ensures
        tokens_then(ts.push(t), rest) == tokens_then(ts, token_then(t, rest)),
{
    if let Ok(more) = rest {
        assert(ts.push(t) + more =~= ts + (seq![t] + more));
    }
}

proof fn lemma_tokens_then_twice(a: Seq<TokenView>, b: Seq<TokenView>, rest: Lexed)
    ensures
        tokens_then(a + b, rest) == tokens_then(a, tokens_then(b, rest)),
{
    if let Ok(more) = rest {
        assert((a + b) + more =~= a + (b + more));
    }
}

fn find_line_end(s: &[char], from: usize) -> (end: usize)
    requires
        from <= s.len(),
    ensures
        end == line_end(s@, from as int),
        from <= end <= s.len(),
{
    let mut i = from;
    while i < s.len() && s[i] != '\n'
        invariant
            from <= i <= s.len(),
            line_end(s@, i as int) == line_end(s@, from as int),
        decreases s.len() - i,
    {
        i += 1;
    }
    i
}

fn find_string_end(s: &[char], k: usize, quote: char) -> (end: usize)
    requires
        k <= s.len(),
    ensures
        end == string_end(s@, k as int, quote),
        k <= end <= s.len(),
{
    let mut i = k;
    loop
        invariant
            k <= i <= s.len(),
            string_end(s@, i as int, quote) == string_end(s@, k as int, quote),
        decreases s.len() - i,
    {
        if i >= s.len() {
            return s.len();
        }
        let c = s[i];
        if c == '\\' {
            if i + 1 >= s.len() {
                return s.len();
            }
            i += 2;
        } else if c == quote {
            return i + 1;
        } else {
            i += 1;
        }
    }
}

fn find_comment(s: &[char]) -> (cut: usize)
    ensures
        cut == comment_start(s@, 0),
        cut <= s.len(),
{
    let mut i: usize = 0;
    loop
        invariant
            i <= s.len(),
            comment_start(s@, i as int) == comment_start(s@, 0),
        decreases s.len() - i,
    {
        if i >= s.len() {
            return s.len();
        }
        let c = s[i];
        if c == '#' {
            return i;
        } else if c == '"' || c == '\'' {
            let end = find_string_end(s, i + 1, c);
            i = end;
        } else {
            i += 1;
        }
    }
}

fn find_code_start(s: &[char]) -> (a: usize)
    ensures
        a == skip_space(s@, 0),
        a <= s.len(),
{
    let mut i: usize = 0;
    while i < s.len() && s[i].is_whitespace()
        invariant
            i <= s.len(),
            skip_space(s@, i as int) == skip_space(s@, 0),
        decreases s.len() - i,
    {
        i += 1;
    }
    i
}

fn find_code_end(s: &[char]) -> (b: usize)
    ensures
        b == drop_space(s@, s@.len() as int),
        b <= s.len(),
{
    let mut j: usize = s.len();
    while j > 0 && s[j - 1].is_whitespace()
        invariant
            j <= s.len(),
            drop_space(s@, j as int) == drop_space(s@, s@.len() as int),
        decreases j,
    {
        j -= 1;
    }
    j
}

/// The part of a line that is lexed: the line without its comment and
/// without the white space at its ends.
pub fn stripped<'a>(line: &'a [char]) -> (body: &'a [char])
    ensures
        body@ == strip(line@),
{
    let cut = find_comment(line);
    let code = slice_subrange(line, 0, cut);
    let a = find_code_start(code);
    let b = find_code_end(code);
    if a < b {
        slice_subrange(code, a, b)
    } else {
        let nothing = slice_subrange(code, 0, 0);
        assert(nothing@ =~= Seq::<char>::empty());
        nothing
    }
}

fn find_number_end(s: &[char], i: usize) -> (j: usize)
    requires
        i <= s.len(),
    ensures
        j == number_end(s@, i as int),
        i <= j <= s.len(),
{
    let mut j = i;
    while j < s.len() && (s[j].is_numeric() || s[j] == '.')
        invariant
            i <= j <= s.len(),
            number_end(s@, j as int) == number_end(s@, i as int),
        decreases s.len() - j,
    {
        j += 1;
    }
    j
}

fn find_word_end(s: &[char], i: usize) -> (j: usize)
    requires
        i <= s.len(),
    ensures
        j == word_end(s@, i as int),
        i <= j <= s.len(),
{
    let mut j = i;
    while j < s.len() && (s[j].is_alphanumeric() || s[j] == '_')
        invariant
            i <= j <= s.len(),
            word_end(s@, j as int) == word_end(s@, i as int),
        decreases s.len() - j,
    {
        j += 1;
    }
    j
}

fn find_dot(s: &[char], from: usize) -> (k: usize)
    requires
        from <= s.len(),
    ensures
        k == dot_index(s@, from as int),
        from <= k <= s.len(),
{
    let mut k = from;
    while k < s.len() && s[k] != '.'
        invariant
            from <= k <= s.len(),
            dot_index(s@, k as int) == dot_index(s@, from as int),
        decreases s.len() - k,
    {
        k += 1;
    }
    k
}

fn has_digits_around(s: &[char], skip: usize) -> (r: bool)
    ensures
        r == digits_around(s@, skip as int),
{
    let mut i: usize = 0;
    while i < s.len()
        invariant
            i <= s.len(),
            forall|j: int| 0 <= j < i && j != skip ==> is_digit(#[trigger] s@[j]),
        decreases s.len() - i,
    {
        if i != skip && (s[i] < '0' || s[i] > '9') {
            assert(!is_digit(s@[i as int]));
            return false;
        }
        i += 1;
    }
    true
}

/// The token of a number, from the chars that were taken for it.
fn number_token_of(text: &[char], line: usize) -> (r: Result<Token, PalladError>)
    ensures
        match number_token(text@, line) {
            Ok(t) => r is Ok && r->Ok_0@ == t,
            Err(e) => r is Err && r->Err_0@ == e,
        },
{
    let first = find_dot(text, 0);
    if first >= text.len() {
        match read_i64(text) {
            Some(n) => Ok(Token::Int(n)),
            None => Err(PalladError::InvalidNumber { value: text_of(text), line }),
        }
    } else {
        let second = find_dot(text, first + 1);
        if second < text.len() {
            let shown = slice_subrange(text, 0, second + 1);
            Err(PalladError::InvalidNumber { value: text_of(shown), line })
        } else if has_digits_around(text, first) {
            Ok(Token::Float(text_of(text)))
        } else {
            Err(PalladError::InvalidNumber { value: text_of(text), line })
        }
    }
}

/// Whether the chars spell the word.
fn spells(text: &[char], word: &str) -> (r: bool)
    ensures
        r == (text@ == word@),
{
    let n = word.unicode_len();
    if text.len() != n {
        return false;
    }
    let mut i: usize = 0;
    while i < n
        invariant
            i <= n,
            n == text@.len(),
            n == word@.len(),
            forall|j: int| 0 <= j < i ==> text@[j] == word@[j],
        decreases n - i,
    {
        if text[i] != word.get_char(i) {
            return false;
        }
        i += 1;
    }
    assert(text@ =~= word@);
    true
}

/// The token of a word, from the chars that were taken for it.
fn word_token_of(text: &[char]) -> (t: Token)
    ensures
        t@ == word_token(text@),
{
    if spells(text, "var") {
        Token::Var
    } else if spells(text, "none") {
        Token::Unit
    } else if spells(text, "print") {
        Token::Print
    } else {
        Token::Ident(text_of(text))
    }
}

fn symbol_of(c: char) -> (r: Option<Token>)
    ensures
        match symbol(c) {
            Some(t) => r is Some && r->Some_0@ == t,
            None => r is None,
        },
{
    if c == '+' {
        Some(Token::Plus)
    } else if c == '-' {
        Some(Token::Minus)
    } else if c == '*' {
        Some(Token::Star)
    } else if c == '%' {
        Some(Token::Mod)
    } else if c == '=' {
        Some(Token::Eq)
    } else if c == '(' {
        Some(Token::LParen)
    } else if c == ')' {
        Some(Token::RParen)
    } else if c == ',' {
        Some(Token::Comma)
    } else {
        None
    }
}

fn unescape_of(c: char, quote: char) -> (r: Option<char>)
    ensures
        r == unescape(c, quote),
{
    if c == 'n' {
        Some('\n')
    } else if c == 't' {
        Some('\t')
    } else if c == 'r' {
        Some('\r')
    } else if c == quote {
        Some(quote)
    } else if c == '\\' {
        Some('\\')
    } else {
        None
    }
}

/// Puts chars before the content of a result; a failure stays as it is.
pub open spec fn prefixed(text: Seq<char>, rest: Quoted) -> Quoted {
    match rest {
        Ok((more, next)) => Ok((text + more, next)),
        Err(e) => Err(e),
    }
}

proof fn lemma_char_then_push(text: Seq<char>, c: char, rest: Quoted)
    ensures
        prefixed(text.push(c), rest) == prefixed(text, char_then(c, rest)),
{
    if let Ok((more, next)) = rest {
        assert(text.push(c) + more =~= text + (seq![c] + more));
    }
}

/// Reads a string literal whose content starts at `start`; `line` is the
/// number of the line, counted from one.
fn read_string(chars: &[char], start: usize, quote: char, line: usize) -> (r: Result<
    (String, usize),
    PalladError,
>)
    ensures
        quoted_view(r) == string_literal(chars@, start as int, quote, line),
{
    let mut text = String::new();
    let mut k = start;
    let ghost goal = string_literal(chars@, start as int, quote, line);
    assert(prefixed(text@, string_literal(chars@, k as int, quote, line)) == goal) by {
        if let Ok((more, next)) = goal {
            assert(text@ + more =~= more);
        }
    }
    loop
        invariant
            start <= k,
            goal == string_literal(chars@, start as int, quote, line),
            prefixed(text@, string_literal(chars@, k as int, quote, line)) == goal,
        decreases chars.len() - k,
    {
        if k >= chars.len() {
            return Err(PalladError::UnterminatedString { line });
        }
        let c = chars[k];
        if c == '\\' {
            if k + 1 >= chars.len() {
                return Err(PalladError::UnterminatedString { line });
            }
            let escaped = chars[k + 1];
            match unescape_of(escaped, quote) {
                Some(e) => {
                    proof {
                        lemma_char_then_push(
                            text@,
                            e,
                            string_literal(chars@, k + 2, quote, line),
                        );
                    }
                    text.push(e);
                    k += 2;
                },
                None => {
                    return Err(PalladError::InvalidEscape { char: escaped, line });
                },
            }
        } else if c == quote {
            assert(text@ + Seq::<char>::empty() =~= text@);
            return Ok((text, k + 1));
        } else {
            proof {
                lemma_char_then_push(text@, c, string_literal(chars@, k + 1, quote, line));
            }
            text.push(c);
            k += 1;
        }
    }
}

/// The number, counted from one, of the line whose index, counted from
/// zero, is given; the largest number that the machine holds stands for
/// itself.
pub open spec fn line_number(line_no: usize) -> usize {
    if line_no < usize::MAX {
        (line_no + 1) as usize
    } else {
        line_no
    }
}

/// Reads the content of a string literal.
///
/// `start` is the index just behind the opening quote, `quote` the char
/// that closes the literal, `line_no` the line's index, counted from zero.
/// The result holds the content, with its escapes resolved, and the index
/// just behind the closing quote. A failure names the line counted from one.
pub fn parse_string(chars: &[char], start: usize, quote: char, line_no: usize) -> (r: Result<
    (String, usize),
    PalladError,
>)
    ensures
        quoted_view(r) == string_literal(chars@, start as int, quote, line_number(line_no)),
{
    let line = if line_no < usize::MAX {
        line_no + 1
    } else {
        line_no
    };
    read_string(chars, start, quote, line)
}

/// Appends the tokens of a line, and its closing [`Token::Eol`], to `tokens`.
/// On a failure `tokens` holds what was read before it.
fn scan_line(line: &[char], number: usize, tokens: &mut Vec<Token>) -> (r: Result<
    (),
    PalladError,
>)
    ensures
        match scan(line@, 0, number) {
            Ok(ts) => r is Ok && final(tokens).deep_view() == old(tokens).deep_view() + ts,
            Err(e) => r is Err && r->Err_0@ == e,
        },
{
    let ghost before = tokens.deep_view();
    let ghost goal = tokens_then(before, scan(line@, 0, number));
    let mut i: usize = 0;
    while i < line.len()
        invariant
            i <= line.len(),
            goal == tokens_then(before, scan(line@, 0, number)),
            tokens_then(tokens.deep_view(), scan(line@, i as int, number)) == goal,
        decreases line.len() - i,
    {
        let c = line[i];
        let ghost seen = tokens.deep_view();
        if c == ' ' || c == '\t' {
            i += 1;
        } else if c >= '0' && c <= '9' {
            let j = find_number_end(line, i);
            proof {
                lemma_number_end_bounds(line@, i as int);
            }
            match number_token_of(slice_subrange(line, i, j), number) {
                Ok(t) => {
                    proof {
                        lemma_tokens_then_push(seen, t@, scan(line@, j as int, number));
                    }
                    tokens.push(t);
                    assert(tokens.deep_view() =~= seen.push(t@));
                    i = j;
                },
                Err(e) => {
                    return Err(e);
                },
            }
        } else if (c >= 'a' && c <= 'z') || (c >= 'A' && c <= 'Z') {
            let j = find_word_end(line, i);
            proof {
                lemma_word_end_bounds(line@, i as int);
            }
            let t = word_token_of(slice_subrange(line, i, j));
            proof {
                lemma_tokens_then_push(seen, t@, scan(line@, j as int, number));
            }
            tokens.push(t);
            assert(tokens.deep_view() =~= seen.push(t@));
            i = j;
        } else if c == '"' || c == '\'' {
            proof {
                lemma_string_literal_bounds(line@, i + 1, c, number);
            }
            match read_string(line, i + 1, c, number) {
                Ok((text, j)) => {
                    let t = Token::Str(text);
                    proof {
                        lemma_tokens_then_push(seen, t@, scan(line@, j as int, number));
                    }
                    tokens.push(t);
                    assert(tokens.deep_view() =~= seen.push(t@));
                    i = j;
                },
                Err(e) => {
                    return Err(e);
                },
            }
        } else if c == '/' {
            if i + 1 < line.len() && line[i + 1] == '/' {
                proof {
                    lemma_tokens_then_push(seen, TokenView::IntDiv, scan(line@, i + 2, number));
                }
                tokens.push(Token::IntDiv);
                assert(tokens.deep_view() =~= seen.push(TokenView::IntDiv));
                i += 2;
            } else {
                proof {
                    lemma_tokens_then_push(seen, TokenView::Slash, scan(line@, i + 1, number));
                }
                tokens.push(Token::Slash);
                assert(tokens.deep_view() =~= seen.push(TokenView::Slash));
                i += 1;
            }
        } else {
            match symbol_of(c) {
                Some(t) => {
                    proof {
                        lemma_tokens_then_push(seen, t@, scan(line@, i + 1, number));
                    }
                    tokens.push(t);
                    assert(tokens.deep_view() =~= seen.push(t@));
                    i += 1;
                },
                None => {
                    let mut got = String::new();
                    got.push(c);
                    assert(got@ =~= seq![c]);
                    return Err(PalladError::UnknownCharacter { got, line: number });
                },
            }
        }
    }
    let ghost seen = tokens.deep_view();
    tokens.push(Token::Eol);
    assert(tokens.deep_view() =~= seen + seq![TokenView::Eol]);
    Ok(())
}

/// Lexes a source text.
///
/// Gives the tokens of all lines in order, or the first lexical failure with
/// the number of its line.
pub fn tokenize(input: &str) -> (r: Result<Vec<Token>, PalladError>)
    ensures
        lexed_view(r) == lex(input@),
{
    let chars = chars_of(input);
    let s = chars.as_slice();
    let mut tokens: Vec<Token> = Vec::new();
    let mut from: usize = 0;
    let mut number: usize = 1;
    assert(tokens.deep_view() =~= Seq::<TokenView>::empty());
    assert(tokens_then(tokens.deep_view(), lex_lines(s@, 0, 1)) == lex(input@)) by {
        if let Ok(more) = lex_lines(s@, 0, 1) {
            assert(tokens.deep_view() + more =~= more);
        }
    }
    while from < s.len()
        invariant
            from <= s.len(),
            1 <= number <= from + 1,
            s@ == input@,
            tokens_then(tokens.deep_view(), lex_lines(s@, from as int, number as int)) == lex(
                input@,
            ),
        decreases s.len() - from,
    {
        let end = find_line_end(s, from);
        let body = stripped(slice_subrange(s, from, end));
        let ghost seen = tokens.deep_view();
        let ghost rest = if end < s.len() {
            lex_lines(s@, end + 1, number + 1)
        } else {
            Ok(Seq::<TokenView>::empty())
        };
        if body.len() > 0 {
            match scan_line(body, number, &mut tokens) {
                Ok(()) => {
                    proof {
                        let ts = scan(body@, 0, number)->Ok_0;
                        lemma_tokens_then_twice(seen, ts, rest);
                        if end >= s.len() {
                            assert(ts + Seq::<TokenView>::empty() =~= ts);
                        }
                    }
                },
                Err(e) => {
                    return Err(e);
                },
            }
        } else {
            proof {
                if let Ok(more) = rest {
                    assert(Seq::<TokenView>::empty() + more =~= more);
                }
            }
        }
        if end < s.len() {
            from = end + 1;
            if from < s.len() {
                number += 1;
            }
        } else {
            from = end;
        }
    }
    assert(tokens.deep_view() + Seq::<TokenView>::empty() =~= tokens.deep_view());
    Ok(tokens)
}

} // verus!
