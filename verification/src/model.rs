//! The mathematical model of the tokenizer: character classes, maximal
//! runs, comment spans, numeric values, and the specification function
//! `lex_from` that pins down the whole scan.

use crate::token::SpecLexError;
use crate::token::SpecToken;
use crate::token::SpecTokenType;
use crate::token::Token;
use vstd::prelude::*;

verus! {

/// Whitespace that is consumed without effect: space, tab, carriage
/// return. The newline is not among them; it advances the line counter.
pub open spec fn is_blank(c: char) -> bool {
    c == ' ' || c == '\t' || c == '\r'
}

/// The single-character punctuation tokens of the grammar.
pub open spec fn is_punct(c: char) -> bool {
    ||| c == ':'
    ||| c == ','
    ||| c == '{'
    ||| c == '}'
    ||| c == '='
    ||| c == '('
    ||| c == ')'
    ||| c == '.'
    ||| c == '+'
}

/// The token kind a punctuation character stands for.
pub open spec fn punct_token_type(c: char) -> SpecTokenType
    recommends
        is_punct(c),
{
    if c == ':' {
        SpecTokenType::Colon
    } else if c == ',' {
        SpecTokenType::Comma
    } else if c == '{' {
        SpecTokenType::CurlyOpen
    } else if c == '}' {
        SpecTokenType::CurlyClose
    } else if c == '=' {
        SpecTokenType::Equal
    } else if c == '(' {
        SpecTokenType::ParOpen
    } else if c == ')' {
        SpecTokenType::ParClose
    } else if c == '.' {
        SpecTokenType::Dot
    } else {
        SpecTokenType::Plus
    }
}

/// An ASCII decimal digit.
pub open spec fn is_dec_digit(c: char) -> bool {
    '0' <= c && c <= '9'
}

/// An ASCII hexadecimal digit. Digit runs of either radix stop at the
/// first character outside this class.
pub open spec fn is_hex_digit(c: char) -> bool {
    is_dec_digit(c) || ('a' <= c && c <= 'f') || ('A' <= c && c <= 'F')
}

/// An ASCII letter; words are maximal runs of these.
pub open spec fn is_alpha(c: char) -> bool {
    ('a' <= c && c <= 'z') || ('A' <= c && c <= 'Z')
}

/// The character classes the scanner advances over: hexadecimal digits
/// for numeric literals, letters for words, and everything up to the next
/// newline for line comments.
#[derive(Debug, Clone, Copy, PartialEq, Eq, Structural)]
pub enum CharClass {
    HexDigit,
    Alpha,
    NotNewline,
}

/// Membership of a character in a scanning class.
pub open spec fn in_class(class: CharClass, c: char) -> bool {
    match class {
        CharClass::HexDigit => is_hex_digit(c),
        CharClass::Alpha => is_alpha(c),
        CharClass::NotNewline => c != '\n',
    }
}

/// The first position at or after `i` whose character leaves `class`, or
/// the end of the text: the exclusive end of the maximal run at `i`.
pub open spec fn run_end(s: Seq<char>, class: CharClass, i: int) -> int
    recommends
        0 <= i <= s.len(),
    decreases s.len() - i,
{
    if !(0 <= i < s.len()) {
        s.len() as int
    } else if in_class(class, s[i]) {
        run_end(s, class, i + 1)
    } else {
        i
    }
}

/// A maximal run neither moves backwards nor leaves the text.
pub proof fn lemma_run_end_bounds(s: Seq<char>, class: CharClass, i: int)
    requires
        0 <= i <= s.len(),
    ensures
        i <= run_end(s, class, i) <= s.len(),
    decreases s.len() - i,
{
    if i < s.len() && in_class(class, s[i]) {
        lemma_run_end_bounds(s, class, i + 1);
    }
}

/// Every character strictly inside a maximal run belongs to its class,
/// and the character at its end (if any) does not.
pub proof fn lemma_run_end_chars(s: Seq<char>, class: CharClass, i: int)
    requires
        0 <= i <= s.len(),
    ensures
        forall|k: int| i <= k < run_end(s, class, i) ==> in_class(class, s[k]),
        run_end(s, class, i) < s.len() ==> !in_class(class, s[run_end(s, class, i)]),
    decreases s.len() - i,
{
    if i < s.len() && in_class(class, s[i]) {
        lemma_run_end_chars(s, class, i + 1);
    }
}

/// The position just past the first `*/` at or after `j`, or the end of
/// the text when no such pair follows: where a block comment opened
/// before `j` ends.
pub open spec fn block_comment_end(s: Seq<char>, j: int) -> int
    recommends
        0 <= j <= s.len(),
    decreases s.len() - j,
{
    if j + 1 >= s.len() {
        s.len() as int
    } else if s[j] == '*' && s[j + 1] == '/' {
        j + 2
    } else {
        block_comment_end(s, j + 1)
    }
}

/// A block comment neither moves backwards nor leaves the text.
pub proof fn lemma_block_comment_end_bounds(s: Seq<char>, j: int)
    requires
        0 <= j <= s.len(),
    ensures
        j <= block_comment_end(s, j) <= s.len(),
    decreases s.len() - j,
{
    if j + 1 < s.len() && !(s[j] == '*' && s[j + 1] == '/') {
        lemma_block_comment_end_bounds(s, j + 1);
    }
}

/// How many newline characters `s` holds in the half-open range
/// `[from, to)`: what a consumed span adds to the line counter.
pub open spec fn newline_count(s: Seq<char>, from: int, to: int) -> nat
    recommends
        0 <= from <= to <= s.len(),
    decreases to - from,
{
    if from >= to {
        0
    } else {
        newline_count(s, from, to - 1) + (if s[to - 1] == '\n' {
            1nat
        } else {
            0nat
        })
    }
}

/// The numeric value of a digit character, for either radix.
pub open spec fn digit_val(c: char) -> nat
    recommends
        is_hex_digit(c),
{
    if is_dec_digit(c) {
        (c as u32 - '0' as u32) as nat
    } else if 'a' <= c && c <= 'f' {
        (c as u32 - 'a' as u32 + 10) as nat
    } else if 'A' <= c && c <= 'F' {
        (c as u32 - 'A' as u32 + 10) as nat
    } else {
        0
    }
}

/// The value of a digit run read in the given radix, most significant
/// digit first. Leading zeros do not change the value.
pub open spec fn digits_val(digits: Seq<char>, radix: nat) -> nat
    recommends
        forall|k: int| 0 <= k < digits.len() ==> is_hex_digit(#[trigger] digits[k]),
    decreases digits.len(),
{
    if digits.len() == 0 {
        0
    } else {
        digits_val(digits.drop_last(), radix) * radix + digit_val(digits.last())
    }
}

/// Whether every character of the span `[from, to)` is a decimal digit:
/// what a base-10 run must satisfy to parse.
pub open spec fn all_dec_digits(s: Seq<char>, from: int, to: int) -> bool {
    forall|k: int| from <= k < to ==> is_dec_digit(#[trigger] s[k])
}

/// Prepends one token to the result of scanning the rest of the text; an
/// error swallows everything scanned before it.
pub open spec fn emit(
    t: SpecToken,
    rest: Result<Seq<SpecToken>, SpecLexError>,
) -> Result<Seq<SpecToken>, SpecLexError> {
    match rest {
        Ok(tokens) => Ok(seq![t] + tokens),
        Err(e) => Err(e),
    }
}

/// The scan from position `i` on, with the line counter at `line`: the
/// token sequence of the remaining text, or the error that stops it.
/// This is the reference meaning of the tokenizer; `lex_spec` instantiates
/// it at the start of the text.
pub open spec fn lex_from(s: Seq<char>, i: int, line: int) -> Result<
    Seq<SpecToken>,
    SpecLexError,
>
    recommends
        0 <= i <= s.len(),
    decreases s.len() - i,
    via lex_from_decreases
{
    if !(0 <= i < s.len()) {
        Ok(Seq::empty())
    } else {
        let c = s[i];
        if is_punct(c) {
            emit(
                SpecToken { line_number: line, token_type: punct_token_type(c) },
                lex_from(s, i + 1, line),
            )
        } else if c == '\n' {
            lex_from(s, i + 1, line + 1)
        } else if is_blank(c) {
            lex_from(s, i + 1, line)
        } else if c == '/' && i + 1 < s.len() && s[i + 1] == '*' {
            let j = block_comment_end(s, i + 2);
            lex_from(s, j, line + newline_count(s, i, j))
        } else if c == '/' && i + 1 < s.len() && s[i + 1] == '/' {
            lex_from(s, run_end(s, CharClass::NotNewline, i + 2), line)
        } else if is_dec_digit(c) {
            if c == '0' && i + 1 < s.len() && s[i + 1] == 'x' {
                let stop = run_end(s, CharClass::HexDigit, i + 2);
                if stop == i + 2 || digits_val(s.subrange(i + 2, stop), 16) > u64::MAX {
                    Err(SpecLexError { line_number: line, start: i, end: stop })
                } else {
                    emit(
                        SpecToken {
                            line_number: line,
                            token_type: SpecTokenType::Number(
                                digits_val(s.subrange(i + 2, stop), 16) as u64,
                            ),
                        },
                        lex_from(s, stop, line),
                    )
                }
            } else {
                let stop = run_end(s, CharClass::HexDigit, i + 1);
                if !all_dec_digits(s, i, stop) || digits_val(s.subrange(i, stop), 10) > u64::MAX {
                    Err(SpecLexError { line_number: line, start: i, end: stop })
                } else {
                    emit(
                        SpecToken {
                            line_number: line,
                            token_type: SpecTokenType::Number(
                                digits_val(s.subrange(i, stop), 10) as u64,
                            ),
                        },
                        lex_from(s, stop, line),
                    )
                }
            }
        } else if is_alpha(c) {
            let stop = run_end(s, CharClass::Alpha, i + 1);
            emit(
                SpecToken {
                    line_number: line,
                    token_type: SpecTokenType::Word(s.subrange(i, stop)),
                },
                lex_from(s, stop, line),
            )
        } else {
            lex_from(s, i + 1, line)
        }
    }
}

#[via_fn]
proof fn lex_from_decreases(s: Seq<char>, i: int, line: int) {
    if 0 <= i < s.len() {
        if i + 1 < s.len() {
            lemma_block_comment_end_bounds(s, i + 2);
            lemma_run_end_bounds(s, CharClass::NotNewline, i + 2);
            lemma_run_end_bounds(s, CharClass::HexDigit, i + 2);
        }
        lemma_run_end_bounds(s, CharClass::HexDigit, i + 1);
        lemma_run_end_bounds(s, CharClass::Alpha, i + 1);
    }
}

/// The meaning of tokenizing a whole text: the scan from its start, with
/// the line counter at zero.
pub open spec fn lex_spec(s: Seq<char>) -> Result<Seq<SpecToken>, SpecLexError> {
    lex_from(s, 0, 0)
}

/// The mathematical images of a sequence of tokens.
pub open spec fn views_of(tokens: Seq<Token>) -> Seq<SpecToken> {
    tokens.map_values(|t: Token| t@)
}

/// Puts tokens already emitted in front of the scan of the remaining
/// text; an error discards them, as the whole call fails as a unit.
pub open spec fn prepend_tokens(
    ts: Seq<SpecToken>,
    r: Result<Seq<SpecToken>, SpecLexError>,
) -> Result<Seq<SpecToken>, SpecLexError> {
    match r {
        Ok(rest) => Ok(ts + rest),
        Err(e) => Err(e),
    }
}

/// Emitting a token and then prepending is prepending the token at the
/// back of what was already emitted.
pub proof fn lemma_prepend_emit(
    ts: Seq<SpecToken>,
    t: SpecToken,
    r: Result<Seq<SpecToken>, SpecLexError>,
)
    ensures
        prepend_tokens(ts.push(t), r) == prepend_tokens(ts, emit(t, r)),
{
    match r {
        Ok(rest) => {
            assert(ts.push(t) + rest =~= ts + (seq![t] + rest));
        },
        Err(_) => {},
    }
}

/// Taking images commutes with appending one token.
pub proof fn lemma_views_push(tokens: Seq<Token>, t: Token)
    ensures
        views_of(tokens.push(t)) == views_of(tokens).push(t@),
{
    assert(views_of(tokens.push(t)) =~= views_of(tokens).push(t@));
}

/// A digit run is worth at least any of its prefixes: once a prefix
/// overflows, the whole run does.
pub proof fn lemma_digits_val_prefix_le(digits: Seq<char>, k: int, radix: nat)
    requires
        0 <= k <= digits.len(),
        radix >= 1,
    ensures
        digits_val(digits.take(k), radix) <= digits_val(digits, radix),
    decreases digits.len(),
{
    if k == digits.len() {
        assert(digits.take(k) =~= digits);
    } else {
        let shorter = digits.drop_last();
        lemma_digits_val_prefix_le(shorter, k, radix);
        assert(shorter.take(k) =~= digits.take(k));
        assert(digits_val(shorter, radix) <= digits_val(shorter, radix) * radix)
            by (nonlinear_arith)
            requires
                radix >= 1,
        ;
    }
}

} // verus!
