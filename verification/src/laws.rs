//! General properties of the tokenizer, proved of the model that pins
//! down `lexer`: determinism, line monotonicity, and the emptiness of
//! the scan of pure whitespace and comments.

use crate::model::block_comment_end;
use crate::model::digits_val;
use crate::model::is_alpha;
use crate::model::is_blank;
use crate::model::is_dec_digit;
use crate::model::is_punct;
use crate::model::lemma_block_comment_end_bounds;
use crate::model::lemma_run_end_bounds;
use crate::model::lex_from;
use crate::model::lex_spec;
use crate::model::newline_count;
use crate::model::punct_token_type;
use crate::model::run_end;
use crate::model::CharClass;
use crate::token::SpecLexError;
use crate::token::SpecToken;
use crate::token::SpecTokenType;
use vstd::prelude::*;

verus! {

/// Tokenizing is a pure function of the text: any two results that the
/// tokenizer's contract admits for the same text are identical, so
/// tokenizing the same text twice yields identical sequences.
pub proof fn lemma_lex_deterministic(
    s: Seq<char>,
    r1: Result<Seq<SpecToken>, SpecLexError>,
    r2: Result<Seq<SpecToken>, SpecLexError>,
)
    requires
        r1 == lex_spec(s),
        r2 == lex_spec(s),
    ensures
        r1 == r2,
{
}

/// All line numbers in `tokens` are at least `line`, and they never
/// decrease from one token to the next.
pub open spec fn lines_sorted_from(tokens: Seq<SpecToken>, line: int) -> bool {
    &&& forall|k: int| 0 <= k < tokens.len() ==> (#[trigger] tokens[k]).line_number >= line
    &&& forall|k1: int, k2: int|
        0 <= k1 <= k2 < tokens.len() ==> (#[trigger] tokens[k1]).line_number <= (
        #[trigger] tokens[k2]).line_number
}

proof fn lemma_sorted_weaken(tokens: Seq<SpecToken>, line: int, line2: int)
    requires
        line <= line2,
        lines_sorted_from(tokens, line2),
    ensures
        lines_sorted_from(tokens, line),
{
}

proof fn lemma_sorted_cons(t: SpecToken, tokens: Seq<SpecToken>, line: int, line2: int)
    requires
        line <= line2,
        t.line_number == line,
        lines_sorted_from(tokens, line2),
    ensures
        lines_sorted_from(seq![t] + tokens, line),
{
    let whole = seq![t] + tokens;
    assert forall|k: int| 0 <= k < whole.len() implies (#[trigger] whole[k]).line_number
        >= line by {
        if k > 0 {
            assert(whole[k] == tokens[k - 1]);
        }
    }
    assert forall|k1: int, k2: int| 0 <= k1 <= k2 < whole.len() implies (
    #[trigger] whole[k1]).line_number <= (#[trigger] whole[k2]).line_number by {
        if k1 > 0 {
            assert(whole[k1] == tokens[k1 - 1]);
            assert(whole[k2] == tokens[k2 - 1]);
        } else if k2 > 0 {
            assert(whole[k2] == tokens[k2 - 1]);
        }
    }
}

/// The scan from position `i` with the counter at `line` only ever emits
/// tokens at `line` or later, in non-decreasing order of line number.
pub proof fn lemma_lex_from_lines_sorted(s: Seq<char>, i: int, line: int)
    requires
        0 <= i <= s.len(),
    ensures
        match lex_from(s, i, line) {
            Ok(tokens) => lines_sorted_from(tokens, line),
            Err(_) => true,
        },
    decreases s.len() - i,
{
    if !(0 <= i < s.len()) {
    } else {
        let c = s[i];
        if is_punct(c) {
            lemma_lex_from_lines_sorted(s, i + 1, line);
            if let Ok(rest) = lex_from(s, i + 1, line) {
                lemma_sorted_cons(
                    SpecToken {
                        line_number: line,
                        token_type: punct_token_type(c),
                    },
                    rest,
                    line,
                    line,
                );
            }
        } else if c == '\n' {
            lemma_lex_from_lines_sorted(s, i + 1, line + 1);
            if let Ok(rest) = lex_from(s, i + 1, line + 1) {
                lemma_sorted_weaken(rest, line, line + 1);
            }
        } else if is_blank(c) {
            lemma_lex_from_lines_sorted(s, i + 1, line);
        } else if c == '/' && i + 1 < s.len() && s[i + 1] == '*' {
            let j = block_comment_end(s, i + 2);
            lemma_block_comment_end_bounds(s, i + 2);
            let line2 = line + newline_count(s, i, j);
            lemma_lex_from_lines_sorted(s, j, line2);
            if let Ok(rest) = lex_from(s, j, line2) {
                lemma_sorted_weaken(rest, line, line2);
            }
        } else if c == '/' && i + 1 < s.len() && s[i + 1] == '/' {
            lemma_run_end_bounds(s, CharClass::NotNewline, i + 2);
            lemma_lex_from_lines_sorted(s, run_end(s, CharClass::NotNewline, i + 2), line);
        } else if is_dec_digit(c) {
            if c == '0' && i + 1 < s.len() && s[i + 1] == 'x' {
                let stop = run_end(s, CharClass::HexDigit, i + 2);
                lemma_run_end_bounds(s, CharClass::HexDigit, i + 2);
                lemma_lex_from_lines_sorted(s, stop, line);
                if let Ok(rest) = lex_from(s, stop, line) {
                    lemma_sorted_cons(
                        SpecToken {
                            line_number: line,
                            token_type: SpecTokenType::Number(
                                digits_val(s.subrange(i + 2, stop), 16) as u64,
                            ),
                        },
                        rest,
                        line,
                        line,
                    );
                }
            } else {
                let stop = run_end(s, CharClass::HexDigit, i + 1);
                lemma_run_end_bounds(s, CharClass::HexDigit, i + 1);
                lemma_lex_from_lines_sorted(s, stop, line);
                if let Ok(rest) = lex_from(s, stop, line) {
                    lemma_sorted_cons(
                        SpecToken {
                            line_number: line,
                            token_type: SpecTokenType::Number(
                                digits_val(s.subrange(i, stop), 10) as u64,
                            ),
                        },
                        rest,
                        line,
                        line,
                    );
                }
            }
        } else if is_alpha(c) {
            let stop = run_end(s, CharClass::Alpha, i + 1);
            lemma_run_end_bounds(s, CharClass::Alpha, i + 1);
            lemma_lex_from_lines_sorted(s, stop, line);
            if let Ok(rest) = lex_from(s, stop, line) {
                lemma_sorted_cons(
                    SpecToken {
                        line_number: line,
                        token_type: SpecTokenType::Word(s.subrange(i, stop)),
                    },
                    rest,
                    line,
                    line,
                );
            }
        } else {
            lemma_lex_from_lines_sorted(s, i + 1, line);
        }
    }
}

/// Line monotonicity: whenever tokenizing succeeds, the line number of
/// each token is at least that of every token before it.
pub proof fn lemma_lines_monotonic(s: Seq<char>)
    ensures
        match lex_spec(s) {
            Ok(tokens) => forall|k1: int, k2: int|
                0 <= k1 <= k2 < tokens.len() ==> (#[trigger] tokens[k1]).line_number <= (
                #[trigger] tokens[k2]).line_number,
            Err(_) => true,
        },
{
    lemma_lex_from_lines_sorted(s, 0, 0);
}

/// Whether the text from position `i` on consists of nothing but
/// whitespace, newlines, and comments.
pub open spec fn trivia_only(s: Seq<char>, i: int) -> bool
    recommends
        0 <= i <= s.len(),
    decreases s.len() - i,
    via trivia_only_decreases
{
    if !(0 <= i < s.len()) {
        true
    } else {
        let c = s[i];
        if is_blank(c) || c == '\n' {
            trivia_only(s, i + 1)
        } else if c == '/' && i + 1 < s.len() && s[i + 1] == '*' {
            trivia_only(s, block_comment_end(s, i + 2))
        } else if c == '/' && i + 1 < s.len() && s[i + 1] == '/' {
            trivia_only(s, run_end(s, CharClass::NotNewline, i + 2))
        } else {
            false
        }
    }
}

#[via_fn]
proof fn trivia_only_decreases(s: Seq<char>, i: int) {
    if 0 <= i < s.len() && i + 1 < s.len() {
        lemma_block_comment_end_bounds(s, i + 2);
        lemma_run_end_bounds(s, CharClass::NotNewline, i + 2);
    }
}

proof fn lemma_trivia_scan_empty(s: Seq<char>, i: int, line: int)
    requires
        0 <= i <= s.len(),
        trivia_only(s, i),
    ensures
        lex_from(s, i, line) == Ok::<Seq<SpecToken>, SpecLexError>(Seq::empty()),
    decreases s.len() - i,
{
    if !(0 <= i < s.len()) {
    } else {
        let c = s[i];
        if c == '\n' {
            lemma_trivia_scan_empty(s, i + 1, line + 1);
        } else if is_blank(c) {
            lemma_trivia_scan_empty(s, i + 1, line);
        } else if c == '/' && i + 1 < s.len() && s[i + 1] == '*' {
            let j = block_comment_end(s, i + 2);
            lemma_block_comment_end_bounds(s, i + 2);
            lemma_trivia_scan_empty(s, j, line + newline_count(s, i, j));
        } else {
            lemma_run_end_bounds(s, CharClass::NotNewline, i + 2);
            lemma_trivia_scan_empty(s, run_end(s, CharClass::NotNewline, i + 2), line);
        }
    }
}

/// Coverage of trivia: a text of nothing but whitespace and comments
/// tokenizes to the empty sequence, without error.
pub proof fn lemma_trivia_tokenizes_empty(s: Seq<char>)
    requires
        trivia_only(s, 0),
    ensures
        lex_spec(s) == Ok::<Seq<SpecToken>, SpecLexError>(Seq::<SpecToken>::empty()),
{
    lemma_trivia_scan_empty(s, 0, 0);
}

} // verus!
