//! The mathematical model of the scan: character classes, helper
//! functions that locate run and literal boundaries in the character
//! sequence, and the recursive specification of the whole scan.

use crate::tokens::{SpecError, SpecLiteral, SpecToken, TokenType};
use vstd::prelude::*;

verus! {

/// An ASCII decimal digit.
pub open spec fn is_digit(c: char) -> bool {
    '0' <= c && c <= '9'
}

/// An ASCII letter or underscore: a character that may begin an
/// identifier or keyword.
pub open spec fn is_alpha(c: char) -> bool {
    ('a' <= c && c <= 'z') || ('A' <= c && c <= 'Z') || c == '_'
}

/// A character that may continue an identifier or keyword.
pub open spec fn is_alnum(c: char) -> bool {
    is_digit(c) || is_alpha(c)
}

/// Horizontal whitespace: discarded without producing a token.
pub open spec fn is_blank(c: char) -> bool {
    c == ' ' || c == '\r' || c == '\t'
}

/// The end of the maximal digit run starting at `i`: the first index at
/// or after `i` that is out of range or holds a non-digit.
pub open spec fn digit_run_end(s: Seq<char>, i: int) -> int
    decreases s.len() - i,
{
    if 0 <= i < s.len() && is_digit(s[i]) {
        digit_run_end(s, i + 1)
    } else {
        i
    }
}

/// What `digit_run_end` returns: the first non-digit position at or
/// after `i`, bounded by the sequence's length.
pub proof fn lemma_digit_run_end(s: Seq<char>, i: int)
    requires
        0 <= i <= s.len(),
    ensures
        i <= digit_run_end(s, i) <= s.len(),
        forall|k: int| i <= k < digit_run_end(s, i) ==> is_digit(s[k]),
        digit_run_end(s, i) < s.len() ==> !is_digit(s[digit_run_end(s, i)]),
    decreases s.len() - i,
{
    if i < s.len() && is_digit(s[i]) {
        lemma_digit_run_end(s, i + 1);
    }
}

/// A position that looks like the end of the digit run starting at `i`
/// is the end: `digit_run_end` is determined by its characterization.
pub proof fn lemma_digit_run_end_agrees(s: Seq<char>, i: int, j: int)
    requires
        0 <= i <= j <= s.len(),
        forall|k: int| i <= k < j ==> is_digit(s[k]),
        j < s.len() ==> !is_digit(s[j]),
    ensures
        digit_run_end(s, i) == j,
    decreases j - i,
{
    if i < j {
        lemma_digit_run_end_agrees(s, i + 1, j);
    }
}

/// The end of the maximal identifier run starting at `i`: the first
/// index at or after `i` that is out of range or holds a character that
/// cannot continue an identifier.
pub open spec fn ident_run_end(s: Seq<char>, i: int) -> int
    decreases s.len() - i,
{
    if 0 <= i < s.len() && is_alnum(s[i]) {
        ident_run_end(s, i + 1)
    } else {
        i
    }
}

/// What `ident_run_end` returns, in the style of `lemma_digit_run_end`.
pub proof fn lemma_ident_run_end(s: Seq<char>, i: int)
    requires
        0 <= i <= s.len(),
    ensures
        i <= ident_run_end(s, i) <= s.len(),
        forall|k: int| i <= k < ident_run_end(s, i) ==> is_alnum(s[k]),
        ident_run_end(s, i) < s.len() ==> !is_alnum(s[ident_run_end(s, i)]),
    decreases s.len() - i,
{
    if i < s.len() && is_alnum(s[i]) {
        lemma_ident_run_end(s, i + 1);
    }
}

/// `ident_run_end` is determined by its characterization.
pub proof fn lemma_ident_run_end_agrees(s: Seq<char>, i: int, j: int)
    requires
        0 <= i <= j <= s.len(),
        forall|k: int| i <= k < j ==> is_alnum(s[k]),
        j < s.len() ==> !is_alnum(s[j]),
    ensures
        ident_run_end(s, i) == j,
    decreases j - i,
{
    if i < j {
        lemma_ident_run_end_agrees(s, i + 1, j);
    }
}

/// The first index at or after `i` holding a double quote, or the
/// sequence's length if there is none.
pub open spec fn find_quote(s: Seq<char>, i: int) -> int
    decreases s.len() - i,
{
    if 0 <= i < s.len() && s[i] != '"' {
        find_quote(s, i + 1)
    } else {
        i
    }
}

/// What `find_quote` returns: the first quote at or after `i`, or the
/// length when the rest of the sequence holds none.
pub proof fn lemma_find_quote(s: Seq<char>, i: int)
    requires
        0 <= i <= s.len(),
    ensures
        i <= find_quote(s, i) <= s.len(),
        forall|k: int| i <= k < find_quote(s, i) ==> s[k] != '"',
        find_quote(s, i) < s.len() ==> s[find_quote(s, i)] == '"',
    decreases s.len() - i,
{
    if i < s.len() && s[i] != '"' {
        lemma_find_quote(s, i + 1);
    }
}

/// `find_quote` is determined by its characterization.
pub proof fn lemma_find_quote_agrees(s: Seq<char>, i: int, j: int)
    requires
        0 <= i <= j <= s.len(),
        forall|k: int| i <= k < j ==> s[k] != '"',
        j < s.len() ==> s[j] == '"',
    ensures
        find_quote(s, i) == j,
    decreases j - i,
{
    if i < j {
        lemma_find_quote_agrees(s, i + 1, j);
    }
}

/// The first index at or after `i` holding a newline, or the sequence's
/// length if there is none: where a line comment ends.
pub open spec fn find_line_end(s: Seq<char>, i: int) -> int
    decreases s.len() - i,
{
    if 0 <= i < s.len() && s[i] != '\n' {
        find_line_end(s, i + 1)
    } else {
        i
    }
}

/// What `find_line_end` returns.
pub proof fn lemma_find_line_end(s: Seq<char>, i: int)
    requires
        0 <= i <= s.len(),
    ensures
        i <= find_line_end(s, i) <= s.len(),
        forall|k: int| i <= k < find_line_end(s, i) ==> s[k] != '\n',
        find_line_end(s, i) < s.len() ==> s[find_line_end(s, i)] == '\n',
    decreases s.len() - i,
{
    if i < s.len() && s[i] != '\n' {
        lemma_find_line_end(s, i + 1);
    }
}

/// `find_line_end` is determined by its characterization.
pub proof fn lemma_find_line_end_agrees(s: Seq<char>, i: int, j: int)
    requires
        0 <= i <= j <= s.len(),
        forall|k: int| i <= k < j ==> s[k] != '\n',
        j < s.len() ==> s[j] == '\n',
    ensures
        find_line_end(s, i) == j,
    decreases j - i,
{
    if i < j {
        lemma_find_line_end_agrees(s, i + 1, j);
    }
}

/// The number of newline characters in `s[i .. j)`.
pub open spec fn count_newlines(s: Seq<char>, i: int, j: int) -> nat
    decreases j - i,
{
    if i >= j {
        0
    } else {
        count_newlines(s, i, j - 1) + (if s[j - 1] == '\n' {
            1nat
        } else {
            0nat
        })
    }
}

/// There are no more newlines in a range than characters.
pub proof fn lemma_count_newlines_le(s: Seq<char>, i: int, j: int)
    requires
        i <= j,
    ensures
        count_newlines(s, i, j) <= j - i,
    decreases j - i,
{
    if i < j {
        lemma_count_newlines_le(s, i, j - 1);
    }
}

/// Newline counting splits at any midpoint.
pub proof fn lemma_count_newlines_split(s: Seq<char>, a: int, b: int, c: int)
    requires
        a <= b <= c,
    ensures
        count_newlines(s, a, c) == count_newlines(s, a, b) + count_newlines(s, b, c),
    decreases c - b,
{
    if b < c {
        lemma_count_newlines_split(s, a, b, c - 1);
    }
}

/// A range without newline characters counts none.
pub proof fn lemma_count_newlines_none(s: Seq<char>, a: int, b: int)
    requires
        a <= b,
        forall|k: int| a <= k < b ==> s[k] != '\n',
    ensures
        count_newlines(s, a, b) == 0,
    decreases b - a,
{
    if a < b {
        lemma_count_newlines_none(s, a, b - 1);
    }
}

/// The token kind of an identifier-shaped lexeme: one of the reserved
/// keywords when the lexeme matches it exactly, IDENTIFIER otherwise.
pub open spec fn keyword_kind(w: Seq<char>) -> TokenType {
    if w == "and"@ {
        TokenType::AND
    } else if w == "class"@ {
        TokenType::CLASS
    } else if w == "else"@ {
        TokenType::ELSE
    } else if w == "false"@ {
        TokenType::FALSE
    } else if w == "fun"@ {
        TokenType::FUN
    } else if w == "for"@ {
        TokenType::FOR
    } else if w == "if"@ {
        TokenType::IF
    } else if w == "nil"@ {
        TokenType::NIL
    } else if w == "or"@ {
        TokenType::OR
    } else if w == "print"@ {
        TokenType::PRINT
    } else if w == "return"@ {
        TokenType::RETURN
    } else if w == "super"@ {
        TokenType::SUPER
    } else if w == "this"@ {
        TokenType::THIS
    } else if w == "true"@ {
        TokenType::TRUE
    } else if w == "var"@ {
        TokenType::VAR
    } else if w == "while"@ {
        TokenType::WHILE
    } else {
        TokenType::IDENTIFIER
    }
}

/// The outcome of classifying the lexeme that starts at one scan
/// position: where the cursor lands, the line count after it, and the
/// token or error the position contributes, if any.
pub struct Step {
    pub next: int,
    pub line: nat,
    pub tok: Option<SpecToken>,
    pub err: Option<SpecError>,
}

/// A token with no literal payload spanning `s[i .. j)`.
pub open spec fn plain_token(s: Seq<char>, i: int, j: int, kind: TokenType, line: nat) -> SpecToken {
    SpecToken { kind, lexeme: s.subrange(i, j), literal: SpecLiteral::Absent, line }
}

/// A step that consumes `s[i .. j)` and emits a token with no literal
/// payload.
pub open spec fn plain_step(s: Seq<char>, i: int, j: int, kind: TokenType, line: nat) -> Step {
    Step { next: j, line, tok: Some(plain_token(s, i, j, kind, line)), err: None }
}

/// For `!`, `=`, `<`, `>`: the two-character kind when the next
/// character is exactly `=`, else the one-character kind. There is no
/// backtracking once the `=` is consumed.
pub open spec fn operator_step(
    s: Seq<char>,
    i: int,
    one: TokenType,
    two: TokenType,
    line: nat,
) -> Step {
    if i + 1 < s.len() && s[i + 1] == '=' {
        plain_step(s, i, i + 2, two, line)
    } else {
        plain_step(s, i, i + 1, one, line)
    }
}

/// Classifies the single lexeme, discarded span, or error that starts
/// at position `i` of the source, with `line` the current line count.
pub open spec fn step(s: Seq<char>, i: int, line: nat) -> Step {
    let c = s[i];
    if is_blank(c) {
        Step { next: i + 1, line, tok: None, err: None }
    } else if c == '\n' {
        Step { next: i + 1, line: line + 1, tok: None, err: None }
    } else if c == '(' {
        plain_step(s, i, i + 1, TokenType::LEFTPAREN, line)
    } else if c == ')' {
        plain_step(s, i, i + 1, TokenType::RIGHTPAREN, line)
    } else if c == '{' {
        plain_step(s, i, i + 1, TokenType::LEFTBRACE, line)
    } else if c == '}' {
        plain_step(s, i, i + 1, TokenType::RIGHTBRACE, line)
    } else if c == ',' {
        plain_step(s, i, i + 1, TokenType::COMMA, line)
    } else if c == '.' {
        plain_step(s, i, i + 1, TokenType::DOT, line)
    } else if c == '-' {
        plain_step(s, i, i + 1, TokenType::MINUS, line)
    } else if c == '+' {
        plain_step(s, i, i + 1, TokenType::PLUS, line)
    } else if c == ';' {
        plain_step(s, i, i + 1, TokenType::SEMICOLON, line)
    } else if c == '*' {
        plain_step(s, i, i + 1, TokenType::STAR, line)
    } else if c == '!' {
        operator_step(s, i, TokenType::BANG, TokenType::BANGEQUAL, line)
    } else if c == '=' {
        operator_step(s, i, TokenType::EQUAL, TokenType::EQUALEQUAL, line)
    } else if c == '<' {
        operator_step(s, i, TokenType::LESS, TokenType::LESSEQUAL, line)
    } else if c == '>' {
        operator_step(s, i, TokenType::GREATER, TokenType::GREATEREQUAL, line)
    } else if c == '/' {
        if i + 1 < s.len() && s[i + 1] == '/' {
            // A line comment: discard up to just before the newline (or
            // the end of input); the newline itself is the next lexeme.
            Step { next: find_line_end(s, i + 2), line, tok: None, err: None }
        } else {
            plain_step(s, i, i + 1, TokenType::SLASH, line)
        }
    } else if c == '"' {
        let q = find_quote(s, i + 1);
        if q >= s.len() {
            // No closing quote before end of input: an error at the line
            // where the string started; the cursor has consumed the rest.
            Step {
                next: s.len() as int,
                line: line + count_newlines(s, i + 1, s.len() as int),
                tok: None,
                err: Some(SpecError::UnterminatedString { line }),
            }
        } else {
            // The lexeme keeps the delimiting quotes; the payload strips
            // them. Newlines inside the literal advance the line count,
            // but the token carries the line where the string started.
            Step {
                next: q + 1,
                line: line + count_newlines(s, i + 1, q),
                tok: Some(
                    SpecToken {
                        kind: TokenType::STRING,
                        lexeme: s.subrange(i, q + 1),
                        literal: SpecLiteral::Text(s.subrange(i + 1, q)),
                        line,
                    },
                ),
                err: None,
            }
        }
    } else if is_digit(c) {
        let d = digit_run_end(s, i);
        // A fractional part needs a dot followed by at least one digit;
        // a trailing dot is left for the next lexeme.
        let k = if d < s.len() && s[d] == '.' && d + 1 < s.len() && is_digit(s[d + 1]) {
            digit_run_end(s, d + 1)
        } else {
            d
        };
        Step {
            next: k,
            line,
            tok: Some(
                SpecToken {
                    kind: TokenType::NUMBER,
                    lexeme: s.subrange(i, k),
                    literal: SpecLiteral::Num(s.subrange(i, k)),
                    line,
                },
            ),
            err: None,
        }
    } else if is_alpha(c) {
        let j = ident_run_end(s, i);
        Step {
            next: j,
            line,
            tok: Some(
                SpecToken {
                    kind: keyword_kind(s.subrange(i, j)),
                    lexeme: s.subrange(i, j),
                    literal: SpecLiteral::Absent,
                    line,
                },
            ),
            err: None,
        }
    } else {
        Step { next: i + 1, line, tok: None, err: Some(SpecError::UnexpectedCharacter { ch: c, line }) }
    }
}

/// Every step moves the cursor strictly forward and stays within the
/// source, and never moves the line count backwards.
pub proof fn lemma_step_advances(s: Seq<char>, i: int, line: nat)
    requires
        0 <= i < s.len(),
    ensures
        i < step(s, i, line).next <= s.len(),
        step(s, i, line).line >= line,
{
    let c = s[i];
    if c == '/' && i + 1 < s.len() && s[i + 1] == '/' {
        lemma_find_line_end(s, i + 2);
    } else if c == '"' {
        lemma_find_quote(s, i + 1);
    } else if is_digit(c) {
        lemma_digit_run_end(s, i);
        let d = digit_run_end(s, i);
        if d < s.len() && s[d] == '.' && d + 1 < s.len() && is_digit(s[d + 1]) {
            lemma_digit_run_end(s, d + 1);
        }
    } else if is_alpha(c) && !is_digit(c) {
        lemma_ident_run_end(s, i);
    }
}

/// The token sequence and error sequence the scan produces from
/// position `i` onward, with `line` the line count at `i`. The token
/// sequence always ends with a single end-of-input token carrying an
/// empty lexeme and the final line count.
pub open spec fn scan_from(s: Seq<char>, i: int, line: nat) -> (Seq<SpecToken>, Seq<SpecError>)
    decreases s.len() - i,
    via scan_from_decreases
{
    if !(0 <= i < s.len()) {
        (
            seq![
                SpecToken {
                    kind: TokenType::EOF,
                    lexeme: Seq::empty(),
                    literal: SpecLiteral::Absent,
                    line,
                },
            ],
            Seq::empty(),
        )
    } else {
        let st = step(s, i, line);
        let rest = scan_from(s, st.next, st.line);
        (
            match st.tok {
                Some(t) => seq![t] + rest.0,
                None => rest.0,
            },
            match st.err {
                Some(e) => seq![e] + rest.1,
                None => rest.1,
            },
        )
    }
}

#[via_fn]
proof fn scan_from_decreases(s: Seq<char>, i: int, line: nat) {
    if 0 <= i < s.len() {
        lemma_step_advances(s, i, line);
    }
}

/// The whole scan: tokens and errors from the start of the source, with
/// the line count starting at 1.
pub open spec fn spec_scan(s: Seq<char>) -> (Seq<SpecToken>, Seq<SpecError>) {
    scan_from(s, 0, 1)
}

} // verus!
