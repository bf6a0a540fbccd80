//! Laws of the scan, stated and proved over the model: every scan ends
//! in exactly one end-of-input token, clean input produces no errors,
//! token lines never decrease, scanning is deterministic, and the
//! emitted lexemes reproduce the input's significant characters.

use crate::model::{
    count_newlines, digit_run_end, find_quote, is_alpha, is_blank, is_digit,
    lemma_count_newlines_none, lemma_count_newlines_split, lemma_digit_run_end,
    lemma_find_line_end, lemma_find_quote, lemma_ident_run_end, lemma_step_advances, scan_from,
    spec_scan, step,
};
use crate::tokens::{SpecError, SpecToken, TokenType};
use vstd::prelude::*;

verus! {

/// Every token a step emits carries the line count the step began at,
/// and so does every error it records.
proof fn lemma_step_token_line(s: Seq<char>, i: int, line: nat)
    requires
        0 <= i < s.len(),
    ensures
        match step(s, i, line).tok {
            Some(tk) => tk.line == line,
            None => true,
        },
        match step(s, i, line).err {
            Some(SpecError::UnexpectedCharacter { line: l, .. }) => l == line,
            Some(SpecError::UnterminatedString { line: l }) => l == line,
            None => true,
        },
{
}

/// The shape every scan suffix has: at least one token, the last of
/// them the end-of-input marker with an empty lexeme, and all token
/// lines at least the line count the scan entered with, in
/// non-decreasing order.
proof fn lemma_scan_from_shape(s: Seq<char>, i: int, line: nat)
    requires
        0 <= i <= s.len(),
    ensures
        ({
            let toks = scan_from(s, i, line).0;
            &&& toks.len() >= 1
            &&& toks.last().kind == TokenType::EOF
            &&& toks.last().lexeme == Seq::<char>::empty()
            &&& toks.last().line >= line
            &&& forall|k: int| 0 <= k < toks.len() ==> #[trigger] toks[k].line >= line
            &&& forall|a: int, b: int|
                0 <= a <= b < toks.len() ==> #[trigger] toks[a].line <= #[trigger] toks[b].line
        }),
    decreases s.len() - i,
{
    if i < s.len() {
        lemma_step_advances(s, i, line);
        lemma_step_token_line(s, i, line);
        let st = step(s, i, line);
        lemma_scan_from_shape(s, st.next, st.line);
    }
}

/// Law: for every input, the scan's token sequence is non-empty and its
/// last element is the end-of-input token with an empty lexeme.
pub proof fn lemma_scan_ends_with_eof(s: Seq<char>)
    ensures
        spec_scan(s).0.len() >= 1,
        spec_scan(s).0.last().kind == TokenType::EOF,
        spec_scan(s).0.last().lexeme == Seq::<char>::empty(),
{
    lemma_scan_from_shape(s, 0, 1);
}

/// Law: token line numbers are non-decreasing across the scan's token
/// sequence, and never below 1.
pub proof fn lemma_token_lines_non_decreasing(s: Seq<char>)
    ensures
        forall|a: int, b: int|
            0 <= a <= b < spec_scan(s).0.len() ==> #[trigger] spec_scan(s).0[a].line
                <= #[trigger] spec_scan(s).0[b].line,
        forall|k: int| 0 <= k < spec_scan(s).0.len() ==> #[trigger] spec_scan(s).0[k].line >= 1,
{
    lemma_scan_from_shape(s, 0, 1);
}

/// Every step advances the line count by exactly the newlines in the
/// span it consumes.
proof fn lemma_step_counts_lines(s: Seq<char>, i: int, line: nat)
    requires
        0 <= i < s.len(),
    ensures
        step(s, i, line).line == line + count_newlines(s, i, step(s, i, line).next),
{
    let st = step(s, i, line);
    let c = s[i];
    if c == '\n' {
        assert(count_newlines(s, i, i) == 0);
    } else if c == '/' && i + 1 < s.len() && s[i + 1] == '/' {
        lemma_find_line_end(s, i + 2);
        lemma_count_newlines_none(s, i, st.next);
    } else if c == '"' {
        lemma_find_quote(s, i + 1);
        let q = find_quote(s, i + 1);
        lemma_count_newlines_none(s, i, i + 1);
        if q >= s.len() {
            lemma_count_newlines_split(s, i, i + 1, s.len() as int);
        } else {
            lemma_count_newlines_none(s, q, q + 1);
            lemma_count_newlines_split(s, i, i + 1, q);
            lemma_count_newlines_split(s, i, q, q + 1);
        }
    } else if is_digit(c) {
        lemma_digit_run_end(s, i);
        let d = digit_run_end(s, i);
        if d < s.len() && s[d] == '.' && d + 1 < s.len() && is_digit(s[d + 1]) {
            lemma_digit_run_end(s, d + 1);
        }
        lemma_count_newlines_none(s, i, st.next);
    } else if is_alpha(c) {
        lemma_ident_run_end(s, i);
        lemma_count_newlines_none(s, i, st.next);
    } else {
        // The remaining one- and two-character spans hold no newline.
        lemma_count_newlines_none(s, i, st.next);
    }
}

proof fn lemma_scan_from_final_line(s: Seq<char>, i: int, line: nat)
    requires
        0 <= i <= s.len(),
    ensures
        scan_from(s, i, line).0.last().line == line + count_newlines(s, i, s.len() as int),
    decreases s.len() - i,
{
    if i < s.len() {
        lemma_step_advances(s, i, line);
        lemma_step_counts_lines(s, i, line);
        let st = step(s, i, line);
        lemma_scan_from_shape(s, st.next, st.line);
        lemma_scan_from_final_line(s, st.next, st.line);
        lemma_count_newlines_split(s, i, st.next, s.len() as int);
    }
}

/// Law: the end-of-input token stands at the final line count: one more
/// than the number of newline characters in the input.
pub proof fn lemma_eof_line_is_final_line_count(s: Seq<char>)
    ensures
        spec_scan(s).0.last().line == 1 + count_newlines(s, 0, s.len() as int),
{
    lemma_scan_from_final_line(s, 0, 1);
}

/// Law: scanning is deterministic; the tokens and errors are a function
/// of the input characters alone, so scanning the same input twice
/// yields identical sequences.
pub proof fn lemma_scan_deterministic(s1: Seq<char>, s2: Seq<char>)
    requires
        s1 == s2,
    ensures
        spec_scan(s1).0 == spec_scan(s2).0,
        spec_scan(s1).1 == spec_scan(s2).1,
{
}

/// Where the cursor lands after the lexeme at `i`, independent of the
/// line count the scan carries.
pub open spec fn next_of(s: Seq<char>, i: int) -> int {
    step(s, i, 1).next
}

/// The step's cursor landing, token emission and error emission do not
/// depend on the line count it is given.
proof fn lemma_step_line_irrelevant(s: Seq<char>, i: int, line: nat)
    requires
        0 <= i < s.len(),
    ensures
        step(s, i, line).next == next_of(s, i),
        step(s, i, line).tok is Some <==> step(s, i, 1).tok is Some,
        step(s, i, line).err is Some <==> step(s, i, 1).err is Some,
{
}

/// A character that can begin a recognized construct: a token, a
/// discarded whitespace or comment span, or a string literal.
pub open spec fn starts_construct(c: char) -> bool {
    ||| is_blank(c)
    ||| c == '\n'
    ||| c == '('
    ||| c == ')'
    ||| c == '{'
    ||| c == '}'
    ||| c == ','
    ||| c == '.'
    ||| c == '-'
    ||| c == '+'
    ||| c == ';'
    ||| c == '*'
    ||| c == '!'
    ||| c == '='
    ||| c == '<'
    ||| c == '>'
    ||| c == '/'
    ||| c == '"'
    ||| is_digit(c)
    ||| is_alpha(c)
}

/// Input with no stray character and no unterminated string: every
/// position the scan visits begins a recognized construct, and every
/// string literal closes before end of input.
pub open spec fn cleanly_lexable_from(s: Seq<char>, i: int) -> bool
    decreases s.len() - i,
    via cleanly_lexable_from_decreases
{
    if !(0 <= i < s.len()) {
        true
    } else {
        &&& starts_construct(s[i])
        &&& (s[i] == '"' ==> find_quote(s, i + 1) < s.len())
        &&& cleanly_lexable_from(s, next_of(s, i))
    }
}

#[via_fn]
proof fn cleanly_lexable_from_decreases(s: Seq<char>, i: int) {
    if 0 <= i < s.len() {
        lemma_step_advances(s, i, 1);
    }
}

/// Input with no stray character and no unterminated string.
pub open spec fn cleanly_lexable(s: Seq<char>) -> bool {
    cleanly_lexable_from(s, 0)
}

proof fn lemma_clean_scan_from_no_errors(s: Seq<char>, i: int, line: nat)
    requires
        0 <= i <= s.len(),
        cleanly_lexable_from(s, i),
    ensures
        scan_from(s, i, line).1 == Seq::<SpecError>::empty(),
    decreases s.len() - i,
{
    if i < s.len() {
        lemma_step_advances(s, i, line);
        lemma_step_line_irrelevant(s, i, line);
        let st = step(s, i, line);
        lemma_clean_scan_from_no_errors(s, st.next, st.line);
        assert(st.err is None);
        assert(scan_from(s, i, line).1 =~= Seq::<SpecError>::empty());
    }
}

/// Law: for every input with no stray character and no unterminated
/// string, the scan's error sequence is empty.
pub proof fn lemma_clean_input_no_errors(s: Seq<char>)
    requires
        cleanly_lexable(s),
    ensures
        spec_scan(s).1 == Seq::<SpecError>::empty(),
{
    lemma_clean_scan_from_no_errors(s, 0, 1);
}

proof fn lemma_scan_from_no_errors_clean(s: Seq<char>, i: int, line: nat)
    requires
        0 <= i <= s.len(),
        scan_from(s, i, line).1 == Seq::<SpecError>::empty(),
    ensures
        cleanly_lexable_from(s, i),
    decreases s.len() - i,
{
    if i < s.len() {
        lemma_step_advances(s, i, line);
        lemma_step_line_irrelevant(s, i, line);
        let st = step(s, i, line);
        let rest = scan_from(s, st.next, st.line);
        if st.err is Some {
            assert(scan_from(s, i, line).1.len() >= 1);
        }
        assert(rest.1 =~= Seq::<SpecError>::empty());
        lemma_scan_from_no_errors_clean(s, st.next, st.line);
    }
}

/// The converse: an input whose scan records no error has no stray
/// character and no unterminated string, so `cleanly_lexable` captures
/// exactly the inputs the scan accepts without complaint.
pub proof fn lemma_no_errors_means_clean(s: Seq<char>)
    requires
        spec_scan(s).1 == Seq::<SpecError>::empty(),
    ensures
        cleanly_lexable(s),
{
    lemma_scan_from_no_errors_clean(s, 0, 1);
}

/// Whether position `i` begins a span that is emitted as a token (as
/// opposed to whitespace, a newline, a comment, a stray character, or
/// an unterminated string, all of which are discarded).
pub open spec fn starts_token(s: Seq<char>, i: int) -> bool {
    ||| s[i] == '('
    ||| s[i] == ')'
    ||| s[i] == '{'
    ||| s[i] == '}'
    ||| s[i] == ','
    ||| s[i] == '.'
    ||| s[i] == '-'
    ||| s[i] == '+'
    ||| s[i] == ';'
    ||| s[i] == '*'
    ||| s[i] == '!'
    ||| s[i] == '='
    ||| s[i] == '<'
    ||| s[i] == '>'
    ||| (s[i] == '/' && !(i + 1 < s.len() && s[i + 1] == '/'))
    ||| (s[i] == '"' && find_quote(s, i + 1) < s.len())
    ||| is_digit(s[i])
    ||| is_alpha(s[i])
}

/// The input's significant characters from position `i` on: the
/// characters of every span that is emitted as a token, in source
/// order, with whitespace, comments and erroneous spans left out.
pub open spec fn significant_chars_from(s: Seq<char>, i: int) -> Seq<char>
    decreases s.len() - i,
    via significant_chars_from_decreases
{
    if !(0 <= i < s.len()) {
        Seq::empty()
    } else if starts_token(s, i) {
        s.subrange(i, next_of(s, i)) + significant_chars_from(s, next_of(s, i))
    } else {
        significant_chars_from(s, next_of(s, i))
    }
}

#[via_fn]
proof fn significant_chars_from_decreases(s: Seq<char>, i: int) {
    if 0 <= i < s.len() {
        lemma_step_advances(s, i, 1);
    }
}

/// The input's significant characters: what remains of the input after
/// whitespace, newlines, comments, stray characters and unterminated
/// strings are dropped.
pub open spec fn significant_chars(s: Seq<char>) -> Seq<char> {
    significant_chars_from(s, 0)
}

/// The concatenation of a token sequence's lexemes, in order.
pub open spec fn concat_lexemes(ts: Seq<SpecToken>) -> Seq<char>
    decreases ts.len(),
{
    if ts.len() == 0 {
        Seq::empty()
    } else {
        ts[0].lexeme + concat_lexemes(ts.drop_first())
    }
}

/// A step emits a token exactly when its position starts one, and the
/// token's lexeme is then exactly the consumed span.
proof fn lemma_step_token_span(s: Seq<char>, i: int, line: nat)
    requires
        0 <= i < s.len(),
    ensures
        step(s, i, line).tok is Some <==> starts_token(s, i),
        match step(s, i, line).tok {
            Some(tk) => tk.lexeme == s.subrange(i, step(s, i, line).next),
            None => true,
        },
{
}

proof fn lemma_round_trip_from(s: Seq<char>, i: int, line: nat)
    requires
        0 <= i <= s.len(),
    ensures
        concat_lexemes(scan_from(s, i, line).0) == significant_chars_from(s, i),
    decreases s.len() - i,
{
    if !(0 <= i < s.len()) {
        let toks = scan_from(s, i, line).0;
        assert(toks.drop_first() =~= Seq::<SpecToken>::empty());
        assert(concat_lexemes(toks.drop_first()) == Seq::<char>::empty());
        assert(concat_lexemes(toks) =~= Seq::<char>::empty());
    } else {
        lemma_step_advances(s, i, line);
        lemma_step_line_irrelevant(s, i, line);
        lemma_step_token_span(s, i, line);
        let st = step(s, i, line);
        let rest = scan_from(s, st.next, st.line);
        lemma_round_trip_from(s, st.next, st.line);
        match st.tok {
            Some(tk) => {
                let toks = seq![tk] + rest.0;
                assert(toks.drop_first() =~= rest.0);
                assert(concat_lexemes(toks) == tk.lexeme + concat_lexemes(rest.0));
            },
            None => {},
        }
    }
}

/// Law: concatenating the lexemes of every emitted token, in order,
/// reproduces exactly the significant characters of the input. The
/// end-of-input token's lexeme is empty, so it contributes nothing.
pub proof fn lemma_round_trip(s: Seq<char>)
    ensures
        concat_lexemes(spec_scan(s).0) == significant_chars(s),
{
    lemma_round_trip_from(s, 0, 1);
}

} // verus!
