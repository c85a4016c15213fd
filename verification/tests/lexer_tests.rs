//! The tokenizer on whole scripts: whitespace, numeric literals of both
//! radixes, comments and their line counting, words, and punctuation.

use script_lexer::lexer;
use script_lexer::Token;
use script_lexer::TokenType;

fn create_token_number(line: usize, number: u64) -> Token {
    Token {
        line_number: line,
        token_type: TokenType::Number(number),
    }
}

fn create_token_word(line: usize, string: &str) -> Token {
    Token {
        line_number: line,
        token_type: TokenType::Word(string.to_string()),
    }
}

#[test]
fn lexer_1() {
    let empty: Vec<Token> = Vec::new();
    assert_eq!(lexer("").unwrap(), empty);
}

#[test]
fn lexer_1_1() {
    let empty: Vec<Token> = Vec::new();
    assert_eq!(lexer(" ").unwrap(), empty);
}

#[test]
fn lexer_1_2() {
    let empty: Vec<Token> = Vec::new();
    assert_eq!(lexer("     ").unwrap(), empty);
}

#[test]
fn lexer_1_2_with_tab() {
    let empty: Vec<Token> = Vec::new();
    assert_eq!(lexer("    \t ").unwrap(), empty);
}

#[test]
fn lexer_2_1() {
    assert_eq!(lexer("0").unwrap(), vec![create_token_number(0, 0)]);
}

#[test]
fn lexer_2_1_with_space_before() {
    assert_eq!(lexer(" 0").unwrap(), vec![create_token_number(0, 0)]);
}

#[test]
fn lexer_2_1_with_space_after() {
    assert_eq!(lexer("0 ").unwrap(), vec![create_token_number(0, 0)]);
}

#[test]
fn lexer_2_1_with_space_after_12() {
    assert_eq!(lexer("12 ").unwrap(), vec![create_token_number(0, 12)]);
}

#[test]
fn lexer_2_1_with_space_before_after() {
    assert_eq!(lexer(" 0 ").unwrap(), vec![create_token_number(0, 0)]);
}

#[test]
fn lexer_2_1_with_tabs() {
    assert_eq!(lexer("  \t  0     ").unwrap(), vec![create_token_number(0, 0)]);
}

#[test]
fn lexer_2_2() {
    assert_eq!(lexer("1").unwrap(), vec![create_token_number(0, 1)]);
}

#[test]
fn lexer_2_3() {
    assert_eq!(lexer("12").unwrap(), vec![create_token_number(0, 12)]);
}

#[test]
fn lexer_2_4() {
    assert_eq!(lexer("00000001").unwrap(), vec![create_token_number(0, 1)]);
}

#[test]
fn lexer_2_5() {
    assert_eq!(lexer("0x0").unwrap(), vec![create_token_number(0, 0)]);
}

#[test]
fn lexer_2_6() {
    assert_eq!(lexer("0x1").unwrap(), vec![create_token_number(0, 1)]);
}

#[test]
fn lexer_2_7() {
    assert_eq!(lexer("0x0017").unwrap(), vec![create_token_number(0, 0x0017)]);
}

#[test]
fn lexer_2_8() {
    assert_eq!(lexer("0x0Af17").unwrap(), vec![create_token_number(0, 0xaf17)]);
}

#[test]
fn lexer_3() {
    let three_elems: Vec<Token> = vec![
        create_token_word(0, "nx"),
        create_token_word(0, "nx"),
        create_token_number(0, 1),
    ];

    assert_eq!(lexer("nx nx 0x1").unwrap(), three_elems);
}

#[test]
fn lexer_4_1() {
    let test_new_lines = "
//
0";
    assert_eq!(lexer(test_new_lines).unwrap(), vec![create_token_number(2, 0)]);
}

#[test]
fn lexer_4_2() {
    let test_new_lines = "
// some comment
0";
    assert_eq!(lexer(test_new_lines).unwrap(), vec![create_token_number(2, 0)]);
}

#[test]
fn lexer_4_3() {
    let test_new_lines = "
// some comment
0
// some comment
// more comment";
    assert_eq!(lexer(test_new_lines).unwrap(), vec![create_token_number(2, 0)]);
}

#[test]
fn lexer_4_4() {
    let test_new_lines = "
/*
Very unclear comment
*/
0";
    assert_eq!(lexer(test_new_lines).unwrap(), vec![create_token_number(4, 0)]);
}

#[test]
fn lexer_4_5() {
    assert_eq!(lexer("/**/").unwrap(), Vec::new());
}

#[test]
fn lexer_4_6() {
    assert_eq!(lexer("//").unwrap(), Vec::new());
}

#[test]
fn lexer_5() {
    let number_and_unit = "256K";
    assert_eq!(
        lexer(number_and_unit).unwrap(),
        vec![create_token_number(0, 256), create_token_word(0, "K")]
    );
}

#[test]
fn lexer_6_1() {
    let number_and_unit = "256, 368";
    assert_eq!(
        lexer(number_and_unit).unwrap(),
        vec![
            create_token_number(0, 256),
            Token {
                line_number: 0,
                token_type: TokenType::Comma
            },
            create_token_number(0, 368)
        ]
    );
}

#[test]
fn lexer_6_2() {
    let number_and_unit = "
256
,
368";
    assert_eq!(
        lexer(number_and_unit).unwrap(),
        vec![
            create_token_number(1, 256),
            Token {
                line_number: 2,
                token_type: TokenType::Comma
            },
            create_token_number(3, 368)
        ]
    );
}

#[test]
fn lexer_7_1_1() {
    const LINKER_SCRIPT: &str = "MEMORY
        PROBLEMS
";

    let expected = vec![
        create_token_word(0, "MEMORY"),
        create_token_word(1, "PROBLEMS"),
    ];
    assert_eq!(lexer(LINKER_SCRIPT).unwrap(), expected);
}

#[test]
fn lexer_7_1() {
    const LINKER_SCRIPT: &str = "MEMORY
        {
          FLASH : ORIGIN = 0x00000000, LENGTH = 256K
        }
        ";

    let expected = vec![
        create_token_word(0, "MEMORY"),
        Token {
            line_number: 1,
            token_type: TokenType::CurlyOpen,
        },
        create_token_word(2, "FLASH"),
        Token {
            line_number: 2,
            token_type: TokenType::Colon,
        },
        create_token_word(2, "ORIGIN"),
        Token {
            line_number: 2,
            token_type: TokenType::Equal,
        },
        create_token_number(2, 0),
        Token {
            line_number: 2,
            token_type: TokenType::Comma,
        },
        create_token_word(2, "LENGTH"),
        Token {
            line_number: 2,
            token_type: TokenType::Equal,
        },
        create_token_number(2, 256),
        create_token_word(2, "K"),
        Token {
            line_number: 3,
            token_type: TokenType::CurlyClose,
        },
    ];

    assert_eq!(lexer(LINKER_SCRIPT).unwrap(), expected);
}

#[test]
fn lexer_7_2() {
    const LINKER_SCRIPT: &str = "MEMORY
        LINKER.x
        ";

    let expected = vec![
        create_token_word(0, "MEMORY"),
        create_token_word(1, "LINKER"),
        Token {
            line_number: 1,
            token_type: TokenType::Dot,
        },
        create_token_word(1, "x"),
    ];

    assert_eq!(lexer(LINKER_SCRIPT).unwrap(), expected);
}
