//! Edge policies of the tokenizer: malformed numeric literals and the
//! exact spans they report, radix detection, comment termination, and
//! silently skipped characters.

use script_lexer::lexer;
use script_lexer::LexError;
use script_lexer::Token;
use script_lexer::TokenType;

fn number(line: usize, value: u64) -> Token {
    Token {
        line_number: line,
        token_type: TokenType::Number(value),
    }
}

fn word(line: usize, text: &str) -> Token {
    Token {
        line_number: line,
        token_type: TokenType::Word(text.to_string()),
    }
}

#[test]
fn decimal_run_with_hex_letters_fails() {
    // A base-10 run stops at the first non-hex-digit, so the `a` is part
    // of the span and makes it malformed.
    assert_eq!(
        lexer("1a"),
        Err(LexError {
            line_number: 0,
            start: 0,
            end: 2
        })
    );
}

#[test]
fn bare_hex_prefix_fails() {
    assert_eq!(
        lexer("0x"),
        Err(LexError {
            line_number: 0,
            start: 0,
            end: 2
        })
    );
}

#[test]
fn hex_prefix_without_digits_fails() {
    assert_eq!(
        lexer("0xZ"),
        Err(LexError {
            line_number: 0,
            start: 0,
            end: 2
        })
    );
}

#[test]
fn decimal_overflow_fails() {
    assert_eq!(
        lexer("99999999999999999999"),
        Err(LexError {
            line_number: 0,
            start: 0,
            end: 20
        })
    );
}

#[test]
fn hex_overflow_fails() {
    assert_eq!(
        lexer("0x10000000000000000"),
        Err(LexError {
            line_number: 0,
            start: 0,
            end: 19
        })
    );
}

#[test]
fn error_reports_line_and_span() {
    assert_eq!(
        lexer("\n\n1a"),
        Err(LexError {
            line_number: 2,
            start: 2,
            end: 4
        })
    );
}

#[test]
fn error_discards_earlier_tokens() {
    // The call fails as a unit: no partial result survives the error.
    assert_eq!(
        lexer("5 1a"),
        Err(LexError {
            line_number: 0,
            start: 2,
            end: 4
        })
    );
}

#[test]
fn largest_values_parse() {
    assert_eq!(
        lexer("18446744073709551615").unwrap(),
        vec![number(0, u64::MAX)]
    );
    assert_eq!(lexer("0xffffffffffffffff").unwrap(), vec![number(0, u64::MAX)]);
}

#[test]
fn leading_zeros_are_decimal() {
    assert_eq!(lexer("007").unwrap(), vec![number(0, 7)]);
}

#[test]
fn uppercase_radix_prefix_is_not_hex() {
    // Only a lowercase `x` selects base 16: `0X7` is the decimal 0, the
    // word `X`, and the decimal 7.
    assert_eq!(
        lexer("0X7").unwrap(),
        vec![number(0, 0), word(0, "X"), number(0, 7)]
    );
}

#[test]
fn hex_digits_mix_case() {
    assert_eq!(lexer("0xAbC").unwrap(), vec![number(0, 0xabc)]);
}

#[test]
fn lone_slash_is_skipped() {
    assert_eq!(lexer("/").unwrap(), Vec::new());
    assert_eq!(lexer("a/b").unwrap(), vec![word(0, "a"), word(0, "b")]);
}

#[test]
fn block_comment_ends_at_closing_pair() {
    assert_eq!(lexer("/* x */ 0").unwrap(), vec![number(0, 0)]);
}

#[test]
fn inner_slash_does_not_close_block_comment() {
    assert_eq!(lexer("/* a / b */ 0").unwrap(), vec![number(0, 0)]);
}

#[test]
fn unterminated_block_comment_consumes_rest() {
    assert_eq!(lexer("/*").unwrap(), Vec::new());
    assert_eq!(lexer("0 /* tail\n").unwrap(), vec![number(0, 0)]);
}

#[test]
fn carriage_return_is_blank() {
    assert_eq!(lexer("\r\n0").unwrap(), vec![number(1, 0)]);
}

#[test]
fn punctuation_tokens() {
    assert_eq!(
        lexer("(.+)").unwrap(),
        vec![
            Token {
                line_number: 0,
                token_type: TokenType::ParOpen
            },
            Token {
                line_number: 0,
                token_type: TokenType::Dot
            },
            Token {
                line_number: 0,
                token_type: TokenType::Plus
            },
            Token {
                line_number: 0,
                token_type: TokenType::ParClose
            },
        ]
    );
}

#[test]
fn unrecognized_characters_are_skipped() {
    assert_eq!(
        lexer("a_b-c;").unwrap(),
        vec![word(0, "a"), word(0, "b"), word(0, "c")]
    );
}

#[test]
fn whitespace_and_comments_tokenize_empty() {
    assert_eq!(lexer("  /* a\nb */ // c\n\t ").unwrap(), Vec::new());
}

#[test]
fn advance_while_stops_where_the_class_ends() {
    let chars: Vec<char> = "0123abcXYZ".chars().collect();
    assert_eq!(
        script_lexer::advance_while(&chars, script_lexer::CharClass::HexDigit, 0),
        7
    );
    assert_eq!(
        script_lexer::advance_while(&chars, script_lexer::CharClass::Alpha, 4),
        10
    );
    let lines: Vec<char> = "ab\ncd".chars().collect();
    assert_eq!(
        script_lexer::advance_while(&lines, script_lexer::CharClass::NotNewline, 0),
        2
    );
    assert_eq!(
        script_lexer::advance_while(&lines, script_lexer::CharClass::NotNewline, 3),
        5
    );
}

#[test]
fn tokenizing_twice_is_identical() {
    let script = "MEMORY\n{\n  FLASH : ORIGIN = 0x00000000, LENGTH = 256K\n}";
    assert_eq!(lexer(script), lexer(script));
}

#[test]
fn lines_never_decrease() {
    let script = "a\nb /* x\ny */ c\nd + e";
    let tokens = lexer(script).unwrap();
    for pair in tokens.windows(2) {
        assert!(pair[0].line_number <= pair[1].line_number);
    }
}
