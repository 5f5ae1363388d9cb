use pallad::decimal::{read_i64, render_i64};
use pallad::error::PalladError;
use pallad::lexer::{parse_string, stripped, tokenize, Token};

fn ident(name: &str) -> Token {
    Token::Ident(name.to_string())
}

fn chars(text: &str) -> Vec<char> {
    text.chars().collect()
}

#[test]
fn lexes_a_binding_and_a_call() {
    let tokens = tokenize("var x = 42\nprint(x)\n").unwrap();
    assert_eq!(
        tokens,
        vec![
            Token::Var,
            ident("x"),
            Token::Eq,
            Token::Int(42),
            Token::Eol,
            Token::Print,
            Token::LParen,
            ident("x"),
            Token::RParen,
            Token::Eol,
        ]
    );
}

#[test]
fn unterminated_string_names_its_line() {
    assert_eq!(
        tokenize("print(\"abc"),
        Err(PalladError::UnterminatedString { line: 1 })
    );
    assert_eq!(
        tokenize("var x = 1\n\nprint('abc"),
        Err(PalladError::UnterminatedString { line: 3 })
    );
    assert_eq!(
        tokenize("print(\"abc\\"),
        Err(PalladError::UnterminatedString { line: 1 })
    );
}

#[test]
fn empty_text_has_no_tokens() {
    assert_eq!(tokenize(""), Ok(vec![]));
    assert_eq!(tokenize("\n\n\n"), Ok(vec![]));
    assert_eq!(tokenize("   \n\t\n"), Ok(vec![]));
    assert_eq!(tokenize("# only a comment\n  # another"), Ok(vec![]));
}

#[test]
fn every_line_with_content_ends_in_one_eol() {
    let tokens = tokenize("var a = 1\n\n   \nvar b = 2").unwrap();
    let eols = tokens.iter().filter(|t| **t == Token::Eol).count();
    assert_eq!(eols, 2);
    assert_eq!(tokens.last(), Some(&Token::Eol));
}

#[test]
fn all_operators_and_brackets() {
    assert_eq!(
        tokenize("+ - * / // % = ( ) ,"),
        Ok(vec![
            Token::Plus,
            Token::Minus,
            Token::Star,
            Token::Slash,
            Token::IntDiv,
            Token::Mod,
            Token::Eq,
            Token::LParen,
            Token::RParen,
            Token::Comma,
            Token::Eol,
        ])
    );
}

#[test]
fn slashes_pair_up_from_the_left() {
    assert_eq!(
        tokenize("a///b"),
        Ok(vec![ident("a"), Token::IntDiv, Token::Slash, ident("b"), Token::Eol])
    );
    assert_eq!(
        tokenize("a/ /b"),
        Ok(vec![ident("a"), Token::Slash, Token::Slash, ident("b"), Token::Eol])
    );
}

#[test]
fn keywords_and_identifiers() {
    assert_eq!(
        tokenize("var none print variable printer None x_1 a1b2"),
        Ok(vec![
            Token::Var,
            Token::Unit,
            Token::Print,
            ident("variable"),
            ident("printer"),
            ident("None"),
            ident("x_1"),
            ident("a1b2"),
            Token::Eol,
        ])
    );
}

#[test]
fn identifier_cannot_start_with_underscore() {
    assert_eq!(
        tokenize("_x"),
        Err(PalladError::UnknownCharacter { got: "_".to_string(), line: 1 })
    );
}

#[test]
fn identifier_goes_on_over_letters_outside_ascii() {
    assert_eq!(tokenize("caf\u{e9}"), Ok(vec![ident("caf\u{e9}"), Token::Eol]));
    assert_eq!(
        tokenize("\u{e9}t"),
        Err(PalladError::UnknownCharacter { got: "\u{e9}".to_string(), line: 1 })
    );
}

#[test]
fn integers() {
    assert_eq!(tokenize("0"), Ok(vec![Token::Int(0), Token::Eol]));
    assert_eq!(tokenize("007"), Ok(vec![Token::Int(7), Token::Eol]));
    assert_eq!(
        tokenize("9223372036854775807"),
        Ok(vec![Token::Int(i64::MAX), Token::Eol])
    );
    assert_eq!(
        tokenize("-5"),
        Ok(vec![Token::Minus, Token::Int(5), Token::Eol])
    );
}

#[test]
fn integer_that_does_not_fit() {
    assert_eq!(
        tokenize("9223372036854775808"),
        Err(PalladError::InvalidNumber { value: "9223372036854775808".to_string(), line: 1 })
    );
    assert_eq!(
        tokenize("var x = 1\nvar y = 99999999999999999999"),
        Err(PalladError::InvalidNumber { value: "99999999999999999999".to_string(), line: 2 })
    );
}

#[test]
fn floats_keep_their_text() {
    assert_eq!(tokenize("2.5"), Ok(vec![Token::Float("2.5".to_string()), Token::Eol]));
    assert_eq!(tokenize("1."), Ok(vec![Token::Float("1.".to_string()), Token::Eol]));
    assert_eq!(tokenize("10.250"), Ok(vec![Token::Float("10.250".to_string()), Token::Eol]));
}

#[test]
fn a_point_cannot_start_a_number() {
    assert_eq!(
        tokenize(".5"),
        Err(PalladError::UnknownCharacter { got: ".".to_string(), line: 1 })
    );
}

#[test]
fn second_decimal_point() {
    assert_eq!(
        tokenize("1.2.3"),
        Err(PalladError::InvalidNumber { value: "1.2.".to_string(), line: 1 })
    );
    assert_eq!(
        tokenize("\n\n1..5"),
        Err(PalladError::InvalidNumber { value: "1..".to_string(), line: 3 })
    );
}

#[test]
fn digits_outside_ascii_make_no_number() {
    assert_eq!(
        tokenize("1\u{0663}"),
        Err(PalladError::InvalidNumber { value: "1\u{0663}".to_string(), line: 1 })
    );
    assert_eq!(
        tokenize("1.\u{0663}"),
        Err(PalladError::InvalidNumber { value: "1.\u{0663}".to_string(), line: 1 })
    );
}

#[test]
fn a_number_ends_where_a_letter_starts() {
    assert_eq!(
        tokenize("12ab"),
        Ok(vec![Token::Int(12), ident("ab"), Token::Eol])
    );
}

#[test]
fn strings_with_both_quotes() {
    assert_eq!(
        tokenize("\"it's\" 'say \"hi\"'"),
        Ok(vec![
            Token::Str("it's".to_string()),
            Token::Str("say \"hi\"".to_string()),
            Token::Eol,
        ])
    );
    assert_eq!(tokenize("''"), Ok(vec![Token::Str(String::new()), Token::Eol]));
}

#[test]
fn escapes() {
    assert_eq!(
        tokenize(r#""a\nb\tc\rd\\e\"f""#),
        Ok(vec![Token::Str("a\nb\tc\rd\\e\"f".to_string()), Token::Eol])
    );
    assert_eq!(
        tokenize(r#"'it\'s'"#),
        Ok(vec![Token::Str("it's".to_string()), Token::Eol])
    );
}

#[test]
fn the_other_quote_cannot_be_escaped() {
    assert_eq!(
        tokenize(r#""a\'b""#),
        Err(PalladError::InvalidEscape { char: '\'', line: 1 })
    );
    assert_eq!(
        tokenize(r#"'a\"b'"#),
        Err(PalladError::InvalidEscape { char: '"', line: 1 })
    );
}

#[test]
fn invalid_escape() {
    assert_eq!(
        tokenize("var a = 1\nprint(\"a\\qb\")"),
        Err(PalladError::InvalidEscape { char: 'q', line: 2 })
    );
}

#[test]
fn unknown_character() {
    assert_eq!(
        tokenize("var x = 1 $ 2"),
        Err(PalladError::UnknownCharacter { got: "$".to_string(), line: 1 })
    );
    assert_eq!(
        tokenize("print(1)\nprint(2)\nx ! y"),
        Err(PalladError::UnknownCharacter { got: "!".to_string(), line: 3 })
    );
}

#[test]
fn the_first_failure_wins() {
    assert_eq!(
        tokenize("1.2.3 $"),
        Err(PalladError::InvalidNumber { value: "1.2.".to_string(), line: 1 })
    );
    assert_eq!(
        tokenize("$ 1.2.3"),
        Err(PalladError::UnknownCharacter { got: "$".to_string(), line: 1 })
    );
}

#[test]
fn comments_are_cut() {
    assert_eq!(
        tokenize("var x = 1 # the rest $ is not read"),
        Ok(vec![Token::Var, ident("x"), Token::Eq, Token::Int(1), Token::Eol])
    );
}

#[test]
fn a_hash_inside_a_string_is_no_comment() {
    assert_eq!(
        tokenize("print(\"a#b\") # real comment"),
        Ok(vec![
            Token::Print,
            Token::LParen,
            Token::Str("a#b".to_string()),
            Token::RParen,
            Token::Eol,
        ])
    );
    assert_eq!(
        tokenize("print('\\'#') # c"),
        Ok(vec![
            Token::Print,
            Token::LParen,
            Token::Str("'#".to_string()),
            Token::RParen,
            Token::Eol,
        ])
    );
}

#[test]
fn lines_are_trimmed() {
    assert_eq!(
        tokenize("  \t var x = 1 \r\n\u{a0}print(x)\u{a0}\n"),
        Ok(vec![
            Token::Var,
            ident("x"),
            Token::Eq,
            Token::Int(1),
            Token::Eol,
            Token::Print,
            Token::LParen,
            ident("x"),
            Token::RParen,
            Token::Eol,
        ])
    );
}

#[test]
fn white_space_inside_a_line() {
    assert_eq!(
        tokenize("a\u{a0}b"),
        Err(PalladError::UnknownCharacter { got: "\u{a0}".to_string(), line: 1 })
    );
    assert_eq!(tokenize("a \t b"), Ok(vec![ident("a"), ident("b"), Token::Eol]));
}

#[test]
fn stripped_line() {
    let line = chars("  x = \"a # b\"  # c ");
    let body: String = stripped(&line).iter().collect();
    assert_eq!(body, "x = \"a # b\"");
    let blank = chars(" \t # nothing");
    assert!(stripped(&blank).is_empty());
}

#[test]
fn parse_string_reads_to_the_closing_quote() {
    let text = chars("\"ab\\n\" + 1");
    assert_eq!(parse_string(&text, 1, '"', 0), Ok(("ab\n".to_string(), 6)));
    let other = chars("abc'def");
    assert_eq!(parse_string(&other, 0, '\'', 4), Ok(("abc".to_string(), 4)));
}

#[test]
fn parse_string_failures_count_lines_from_one() {
    let open = chars("abc");
    assert_eq!(
        parse_string(&open, 0, '"', 0),
        Err(PalladError::UnterminatedString { line: 1 })
    );
    assert_eq!(
        parse_string(&open, 7, '"', 2),
        Err(PalladError::UnterminatedString { line: 3 })
    );
    let bad = chars("a\\zb\"");
    assert_eq!(
        parse_string(&bad, 0, '"', 9),
        Err(PalladError::InvalidEscape { char: 'z', line: 10 })
    );
}

#[test]
fn integer_literals_round_trip() {
    for text in ["0", "7", "42", "1000", "9223372036854775807"] {
        let tokens = tokenize(text).unwrap();
        assert_eq!(tokens.len(), 2);
        match &tokens[0] {
            Token::Int(n) => {
                assert_eq!(render_i64(*n), text);
                assert_eq!(tokenize(&render_i64(*n)).unwrap(), tokens);
            }
            other => panic!("no integer: {:?}", other),
        }
    }
    let padded = tokenize("00042").unwrap();
    assert_eq!(padded[0], Token::Int(42));
    assert_eq!(render_i64(42), "42");
}

#[test]
fn decimal_notation() {
    assert_eq!(render_i64(0), "0");
    assert_eq!(render_i64(-1), "-1");
    assert_eq!(render_i64(i64::MIN), "-9223372036854775808");
    assert_eq!(render_i64(i64::MAX), "9223372036854775807");
    assert_eq!(read_i64(&chars("123")), Some(123));
    assert_eq!(read_i64(&chars("")), Some(0));
    assert_eq!(read_i64(&chars("12a")), None);
    assert_eq!(read_i64(&chars("-12")), None);
    assert_eq!(read_i64(&chars("9223372036854775808")), None);
}

#[test]
fn tokens_describe_themselves() {
    assert_eq!(Token::Var.describe(), "Var");
    assert_eq!(Token::Unit.describe(), "None");
    assert_eq!(Token::Eol.describe(), "Eol");
    assert_eq!(Token::IntDiv.describe(), "IntDiv");
    assert_eq!(Token::Int(-3).describe(), "Int(-3)");
    assert_eq!(Token::Float("2.50".to_string()).describe(), "Float(2.50)");
    assert_eq!(ident("x").describe(), "Ident(\"x\")");
    assert_eq!(Token::Str("a\"b\n".to_string()).describe(), "Str(\"a\\\"b\\n\")");
}
