//! The tokenizer itself: a single forward pass over the characters of
//! the script, verified against the model in [`crate::model`].

use crate::model::all_dec_digits;
use crate::model::block_comment_end;
use crate::model::digit_val;
use crate::model::digits_val;
use crate::model::emit;
use crate::model::in_class;
use crate::model::is_hex_digit;
use crate::model::is_punct;
use crate::model::lemma_digits_val_prefix_le;
use crate::model::lemma_prepend_emit;
use crate::model::lemma_run_end_chars;
use crate::model::lemma_views_push;
use crate::model::lex_from;
use crate::model::lex_spec;
use crate::model::newline_count;
use crate::model::prepend_tokens;
use crate::model::punct_token_type;
use crate::model::run_end;
use crate::model::views_of;
use crate::model::CharClass;
use crate::token::LexError;
use crate::token::SpecLexError;
use crate::token::SpecToken;
use crate::token::Token;
use crate::token::TokenType;
use vstd::prelude::*;
use vstd::string::StrSliceExecFns;
use vstd::string::StringExecFns;

verus! {

/// Decides membership of a character in a scanning class.
fn char_in_class(class: CharClass, c: char) -> (b: bool)
    ensures
        b == in_class(class, c),
{
    match class {
        CharClass::HexDigit => ('0' <= c && c <= '9') || ('a' <= c && c <= 'f') || ('A' <= c
            && c <= 'F'),
        CharClass::Alpha => ('a' <= c && c <= 'z') || ('A' <= c && c <= 'Z'),
        CharClass::NotNewline => c != '\n',
    }
}

/// Advances from `start` while the characters stay in `class` and
/// returns the index where the run stops: the first position whose
/// character leaves the class, or the end of the text.
pub fn advance_while(chars: &Vec<char>, class: CharClass, start: usize) -> (stop: usize)
    requires
        start <= chars@.len(),
    ensures
        stop == run_end(chars@, class, start as int),
        start <= stop <= chars@.len(),
{
    let mut i = start;
    while i < chars.len() && char_in_class(class, chars[i])
        invariant
            start <= i <= chars@.len(),
            run_end(chars@, class, start as int) == run_end(chars@, class, i as int),
        decreases chars@.len() - i,
    {
        i = i + 1;
    }
    i
}

/// The token a punctuation character stands for, or nothing for any
/// other character.
fn punct_token(c: char) -> (t: Option<TokenType>)
    ensures
        match t {
            Some(tt) => is_punct(c) && tt@ == punct_token_type(c),
            None => !is_punct(c),
        },
{
    match c {
        ':' => Some(TokenType::Colon),
        ',' => Some(TokenType::Comma),
        '{' => Some(TokenType::CurlyOpen),
        '}' => Some(TokenType::CurlyClose),
        '=' => Some(TokenType::Equal),
        '(' => Some(TokenType::ParOpen),
        ')' => Some(TokenType::ParClose),
        '.' => Some(TokenType::Dot),
        '+' => Some(TokenType::Plus),
        _ => None,
    }
}

/// The numeric value of one digit character.
fn digit_value(c: char) -> (d: u64)
    requires
        is_hex_digit(c),
    ensures
        d == digit_val(c),
        d < 16,
{
    if '0' <= c && c <= '9' {
        (c as u32 - '0' as u32) as u64
    } else if 'a' <= c && c <= 'f' {
        (c as u32 - 'a' as u32 + 10) as u64
    } else {
        (c as u32 - 'A' as u32 + 10) as u64
    }
}

/// Reads the digit span `[from, to)` in base 16 when `hex` and base 10
/// otherwise. Fails exactly when a character is no digit of the radix or
/// the value does not fit in a `u64`.
fn parse_digits(chars: &Vec<char>, from: usize, to: usize, hex: bool) -> (r: Option<u64>)
    requires
        from <= to <= chars@.len(),
        forall|k: int| from <= k < to ==> is_hex_digit(#[trigger] chars@[k]),
    ensures
        ({
            let span = chars@.subrange(from as int, to as int);
            let radix: nat = if hex {
                16
            } else {
                10
            };
            match r {
                Some(v) => (hex || all_dec_digits(chars@, from as int, to as int)) && digits_val(
                    span,
                    radix,
                ) <= u64::MAX && v == digits_val(span, radix),
                None => (!hex && !all_dec_digits(chars@, from as int, to as int)) || digits_val(
                    span,
                    radix,
                ) > u64::MAX,
            }
        }),
{
    let ghost span = chars@.subrange(from as int, to as int);
    let ghost radix: nat = if hex {
        16
    } else {
        10
    };
    let mut acc: u64 = 0;
    let mut k = from;
    while k < to
        invariant
            from <= k <= to <= chars@.len(),
            forall|j: int| from <= j < to ==> is_hex_digit(#[trigger] chars@[j]),
            hex || all_dec_digits(chars@, from as int, k as int),
            span == chars@.subrange(from as int, to as int),
            radix == if hex {
                16nat
            } else {
                10nat
            },
            acc == digits_val(chars@.subrange(from as int, k as int), radix),
        decreases to - k,
    {
        let c = chars[k];
        if !hex && !('0' <= c && c <= '9') {
            assert(!all_dec_digits(chars@, from as int, to as int));
            return None;
        }
        let d = digit_value(c);
        let wide: u128 = if hex {
            (acc as u128) * 16 + (d as u128)
        } else {
            (acc as u128) * 10 + (d as u128)
        };
        proof {
            let prefix = chars@.subrange(from as int, k as int);
            let longer = chars@.subrange(from as int, k as int + 1);
            assert(longer.drop_last() =~= prefix);
            assert(digits_val(longer, radix) == digits_val(prefix, radix) * radix + digit_val(
                chars@[k as int],
            ));
            if wide > u64::MAX as u128 {
                assert(span.take(k as int + 1 - from) =~= longer);
                lemma_digits_val_prefix_le(span, k as int + 1 - from, radix);
            }
        }
        if wide > u64::MAX as u128 {
            return None;
        }
        acc = wide as u64;
        k = k + 1;
    }
    assert(chars@.subrange(from as int, k as int) == span);
    Some(acc)
}

/// Tokenizes the whole script in one forward pass. Returns the ordered
/// token sequence, or the error locating the malformed numeric literal
/// that stopped the scan: its digit run is empty, holds a character that
/// is no digit of the detected radix, or names a value over `u64::MAX`.
/// For every input, the result is pinned by `lex_spec` on the script's
/// characters.
#[verifier::rlimit(20)]
pub fn lexer(script: &str) -> (r: Result<Vec<Token>, LexError>)
    ensures
        match r {
            Ok(tokens) => lex_spec(script@) == Ok::<Seq<SpecToken>, SpecLexError>(
                views_of(tokens@),
            ),
            Err(e) => lex_spec(script@) == Err::<Seq<SpecToken>, SpecLexError>(e@),
        },
{
    let chars = chars_of(script);
    let n = chars.len();
    let mut tokens: Vec<Token> = Vec::new();
    let mut line: usize = 0;
    let mut i: usize = 0;
    proof {
        assert(views_of(tokens@) =~= Seq::<SpecToken>::empty());
        match lex_from(chars@, 0, 0) {
            Ok(rest) => {
                assert(views_of(tokens@) + rest =~= rest);
            },
            Err(_) => {},
        }
    }
    while i < n
        invariant
            chars@ == script@,
            n == chars@.len(),
            i <= n,
            line <= i,
            lex_from(chars@, 0, 0) == prepend_tokens(
                views_of(tokens@),
                lex_from(chars@, i as int, line as int),
            ),
        decreases n - i,
    {
        let ghost s = chars@;
        let ghost ts0 = views_of(tokens@);
        let ghost line0 = line as int;
        let ghost i0 = i as int;
        let c = chars[i];
        if let Some(tt) = punct_token(c) {
            let tok = Token { line_number: line, token_type: tt };
            proof {
                assert(lex_from(s, i0, line0) == emit(tok@, lex_from(s, i0 + 1, line0)));
                lemma_prepend_emit(ts0, tok@, lex_from(s, i0 + 1, line0));
                lemma_views_push(tokens@, tok);
            }
            tokens.push(tok);
            i = i + 1;
        } else if c == '\n' {
            proof {
                assert(lex_from(s, i0, line0) == lex_from(s, i0 + 1, line0 + 1));
            }
            line = line + 1;
            i = i + 1;
        } else if c == ' ' || c == '\t' || c == '\r' {
            proof {
                assert(lex_from(s, i0, line0) == lex_from(s, i0 + 1, line0));
            }
            i = i + 1;
        } else if c == '/' {
            if i + 1 < n && chars[i + 1] == '*' {
                // A block comment: consume up to and including the closing
                // `*/` (or the whole rest of the text when unterminated),
                // counting every newline inside it.
                let mut j: usize = i + 2;
                proof {
                    assert(newline_count(s, i0, i0) == 0);
                    assert(newline_count(s, i0, i0 + 1) == 0);
                    assert(newline_count(s, i0, i0 + 2) == 0);
                }
                while j < n
                    invariant_except_break
                        n == chars@.len(),
                        s == chars@,
                        i0 + 2 <= j <= n,
                        line <= j,
                        line0 <= i0,
                        block_comment_end(s, i0 + 2) == block_comment_end(s, j as int),
                        line == line0 + newline_count(s, i0, j as int),
                    ensures
                        i0 + 2 <= j <= n,
                        line <= j,
                        j == block_comment_end(s, i0 + 2),
                        line == line0 + newline_count(s, i0, j as int),
                    decreases n - j,
                {
                    let cj = chars[j];
                    if cj == '*' && j + 1 < n {
                        if chars[j + 1] == '/' {
                            proof {
                                assert(block_comment_end(s, j as int) == j + 2);
                                assert(newline_count(s, i0, j as int + 1) == newline_count(
                                    s,
                                    i0,
                                    j as int,
                                ));
                                assert(newline_count(s, i0, j as int + 2) == newline_count(
                                    s,
                                    i0,
                                    j as int + 1,
                                ));
                            }
                            j = j + 2;
                            break ;
                        }
                    }
                    proof {
                        assert(block_comment_end(s, j as int) == block_comment_end(
                            s,
                            j as int + 1,
                        ));
                        assert(newline_count(s, i0, j as int + 1) == newline_count(s, i0, j as int)
                            + (if s[j as int] == '\n' {
                            1nat
                        } else {
                            0nat
                        }));
                    }
                    if cj == '\n' {
                        line = line + 1;
                    }
                    j = j + 1;
                }
                proof {
                    assert(lex_from(s, i0, line0) == lex_from(
                        s,
                        j as int,
                        line0 + newline_count(s, i0, j as int),
                    ));
                }
                i = j;
            } else if i + 1 < n && chars[i + 1] == '/' {
                // A line comment: consume up to, but not including, the
                // next newline; the newline itself is handled by the
                // ordinary rule on the next iteration.
                let stop = advance_while(&chars, CharClass::NotNewline, i + 2);
                proof {
                    assert(lex_from(s, i0, line0) == lex_from(s, stop as int, line0));
                }
                i = stop;
            } else {
                // A lone slash starts no comment and is silently dropped.
                proof {
                    assert(lex_from(s, i0, line0) == lex_from(s, i0 + 1, line0));
                }
                i = i + 1;
            }
        } else if '0' <= c && c <= '9' {
            // A numeric literal. A literal `0x` selects base 16 and the
            // digits start after it; any other leading digit selects base
            // 10. Either way the run stops at the first character that is
            // not a hexadecimal digit.
            let is_hex = c == '0' && i + 1 < n && chars[i + 1] == 'x';
            let scan_from = if is_hex {
                i + 2
            } else {
                i + 1
            };
            let stop = advance_while(&chars, CharClass::HexDigit, scan_from);
            let span_from = if is_hex {
                i + 2
            } else {
                i
            };
            proof {
                lemma_run_end_chars(s, CharClass::HexDigit, scan_from as int);
                assert(forall|k: int|
                    span_from <= k < stop ==> is_hex_digit(#[trigger] s[k]));
            }
            if is_hex && stop == i + 2 {
                let e = LexError { line_number: line, start: i, end: stop };
                proof {
                    assert(lex_from(s, i0, line0) == Err::<Seq<SpecToken>, SpecLexError>(e@));
                }
                return Err(e);
            }
            match parse_digits(&chars, span_from, stop, is_hex) {
                Some(v) => {
                    let tok = Token { line_number: line, token_type: TokenType::Number(v) };
                    proof {
                        assert(lex_from(s, i0, line0) == emit(
                            tok@,
                            lex_from(s, stop as int, line0),
                        ));
                        lemma_prepend_emit(ts0, tok@, lex_from(s, stop as int, line0));
                        lemma_views_push(tokens@, tok);
                    }
                    tokens.push(tok);
                    i = stop;
                },
                None => {
                    let e = LexError { line_number: line, start: i, end: stop };
                    proof {
                        assert(lex_from(s, i0, line0) == Err::<Seq<SpecToken>, SpecLexError>(e@));
                    }
                    return Err(e);
                },
            }
        } else if ('a' <= c && c <= 'z') || ('A' <= c && c <= 'Z') {
            // A word: the maximal run of letters starting here, with its
            // exact text as the payload.
            let stop = advance_while(&chars, CharClass::Alpha, i + 1);
            let word = String::from_str(script.substring_char(i, stop));
            let tok = Token { line_number: line, token_type: TokenType::Word(word) };
            proof {
                assert(lex_from(s, i0, line0) == emit(tok@, lex_from(s, stop as int, line0)));
                lemma_prepend_emit(ts0, tok@, lex_from(s, stop as int, line0));
                lemma_views_push(tokens@, tok);
            }
            tokens.push(tok);
            i = stop;
        } else {
            // Any other character is silently skipped.
            proof {
                assert(lex_from(s, i0, line0) == lex_from(s, i0 + 1, line0));
            }
            i = i + 1;
        }
    }
    proof {
        assert(lex_from(chars@, i as int, line as int) == Ok::<Seq<SpecToken>, SpecLexError>(
            Seq::empty(),
        ));
        assert(views_of(tokens@) + Seq::<SpecToken>::empty() =~= views_of(tokens@));
    }
    Ok(tokens)
}

/// The characters of the script, in order.
fn chars_of(script: &str) -> (chars: Vec<char>)
    ensures
        chars@ == script@,
{
    let n = script.unicode_len();
    let mut chars: Vec<char> = Vec::new();
    let mut i: usize = 0;
    while i < n
        invariant
            n == script@.len(),
            i <= n,
            chars@ == script@.take(i as int),
        decreases n - i,
    {
        let c = script.get_char(i);
        chars.push(c);
        proof {
            assert(chars@ =~= script@.take(i as int + 1));
        }
        i = i + 1;
    }
    proof {
        assert(chars@ =~= script@);
    }
    chars
}

} // verus!
