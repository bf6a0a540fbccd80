//! The executable scanner: a cursor over one immutable source string
//! that groups its characters into tokens, proved to produce exactly
//! the token and error sequences of the model's `spec_scan`.

use crate::model::{
    count_newlines, digit_run_end, find_quote, ident_run_end, is_alnum, is_alpha, is_digit,
    keyword_kind, lemma_count_newlines_le, lemma_digit_run_end_agrees, lemma_find_line_end_agrees,
    lemma_find_quote_agrees, lemma_ident_run_end_agrees, lemma_step_advances, scan_from, spec_scan,
    step,
};
use crate::tokens::{LexError, LiteralType, SpecError, SpecLiteral, SpecToken, Token, TokenType};
use vstd::prelude::*;
use vstd::string::StrSliceExecFns;

verus! {

/// Executable test for the model's `is_digit`.
fn is_digit_char(c: char) -> (r: bool)
    ensures
        r == is_digit(c),
{
    '0' <= c && c <= '9'
}

/// Executable test for the model's `is_alpha`.
fn is_alpha_char(c: char) -> (r: bool)
    ensures
        r == is_alpha(c),
{
    ('a' <= c && c <= 'z') || ('A' <= c && c <= 'Z') || c == '_'
}

/// Executable test for the model's `is_alnum`.
fn is_alnum_char(c: char) -> (r: bool)
    ensures
        r == is_alnum(c),
{
    is_digit_char(c) || is_alpha_char(c)
}

/// Looks an identifier-shaped lexeme up in the keyword table,
/// case-sensitively: the matching keyword kind, or IDENTIFIER.
fn keyword_or_identifier(w: &String) -> (t: TokenType)
    ensures
        t == keyword_kind(w@),
{
    if *w == "and".to_owned() {
        TokenType::AND
    } else if *w == "class".to_owned() {
        TokenType::CLASS
    } else if *w == "else".to_owned() {
        TokenType::ELSE
    } else if *w == "false".to_owned() {
        TokenType::FALSE
    } else if *w == "fun".to_owned() {
        TokenType::FUN
    } else if *w == "for".to_owned() {
        TokenType::FOR
    } else if *w == "if".to_owned() {
        TokenType::IF
    } else if *w == "nil".to_owned() {
        TokenType::NIL
    } else if *w == "or".to_owned() {
        TokenType::OR
    } else if *w == "print".to_owned() {
        TokenType::PRINT
    } else if *w == "return".to_owned() {
        TokenType::RETURN
    } else if *w == "super".to_owned() {
        TokenType::SUPER
    } else if *w == "this".to_owned() {
        TokenType::THIS
    } else if *w == "true".to_owned() {
        TokenType::TRUE
    } else if *w == "var".to_owned() {
        TokenType::VAR
    } else if *w == "while".to_owned() {
        TokenType::WHILE
    } else {
        TokenType::IDENTIFIER
    }
}

/// The tokens produced by one scan, in source order.
#[derive(Debug)]
pub struct TokenVec {
    pub tokens: Vec<Token>,
}

impl View for TokenVec {
    type V = Seq<SpecToken>;

    open spec fn view(&self) -> Seq<SpecToken> {
        self.tokens.deep_view()
    }
}

impl TokenVec {
    /// An empty token collection.
    pub fn new() -> (r: TokenVec)
        ensures
            r@ == Seq::<SpecToken>::empty(),
    {
        TokenVec { tokens: Vec::new() }
    }

    /// Appends one token.
    pub fn push(&mut self, token: Token)
        ensures
            final(self)@ == old(self)@.push(token@),
    {
        self.tokens.push(token);
        proof {
            assert(final(self)@ =~= old(self)@.push(token@));
        }
    }
}

/// The scanner: one immutable source string and the cursor state of a
/// single scan over it.
pub struct Scanner {
    /// The source text being scanned, read-only for the scan's duration.
    pub source: String,
    /// Index of the next unconsumed character.
    pub current: usize,
    /// Index of the first character of the lexeme currently being built.
    pub start: usize,
    /// 1-based line number, incremented on every newline consumed.
    pub line: usize,
    /// The lexical errors recorded so far; the scan never aborts on them.
    pub errors: Vec<LexError>,
}

impl Scanner {
    /// The cursor invariant: the lexeme window lies within the source,
    /// and the line count never exceeds one more than the characters
    /// consumed. The length bound leaves room to count a line for every
    /// character without overflow.
    pub open spec fn wf(&self) -> bool {
        &&& self.start <= self.current <= self.source@.len()
        &&& self.source@.len() < usize::MAX
        &&& 1 <= self.line
        &&& self.line <= self.current + 1
    }

    /// A fresh scanner over `source`, cursor at the first character.
    pub fn new(source: String) -> (s: Scanner)
        requires
            source@.len() < usize::MAX,
        ensures
            s.source@ == source@,
            s.current == 0,
            s.start == 0,
            s.line == 1,
            s.errors@ == Seq::<LexError>::empty(),
            s.wf(),
    {
        let s = Scanner { source, current: 0, start: 0, line: 1, errors: Vec::new() };
        proof {
            assert(s.errors@ =~= Seq::<LexError>::empty());
        }
        s
    }

    /// Begins a new lexeme at the cursor.
    pub fn sync(&mut self)
        ensures
            *final(self) == (Scanner { start: old(self).current, ..*old(self) }),
    {
        self.start = self.current;
    }

    /// Moves the cursor one character forward.
    pub fn forward(&mut self)
        requires
            old(self).current < usize::MAX,
        ensures
            *final(self) == (Scanner { current: (old(self).current + 1) as usize, ..*old(self) }),
    {
        self.current += 1;
    }

    /// Whether the cursor has consumed the whole source.
    pub fn is_end(&self) -> (r: bool)
        ensures
            r == (self.current >= self.source@.len()),
    {
        self.current >= self.source.as_str().unicode_len()
    }

    /// Consumes and returns the character at the cursor, or nothing when
    /// the cursor is already past the end; the cursor moves either way.
    pub fn advance(&mut self) -> (c: Option<char>)
        requires
            old(self).current < usize::MAX,
        ensures
            *final(self) == (Scanner { current: (old(self).current + 1) as usize, ..*old(self) }),
            c == if old(self).current < old(self).source@.len() {
                Some(old(self).source@[old(self).current as int])
            } else {
                None::<char>
            },
    {
        let c = if self.current < self.source.as_str().unicode_len() {
            Some(self.source.as_str().get_char(self.current))
        } else {
            None
        };
        self.forward();
        c
    }

    /// The character at the cursor without consuming it, or nothing at
    /// the end of the source.
    pub fn peek(&self) -> (c: Option<char>)
        ensures
            c == if self.current < self.source@.len() {
                Some(self.source@[self.current as int])
            } else {
                None::<char>
            },
    {
        if self.current < self.source.as_str().unicode_len() {
            Some(self.source.as_str().get_char(self.current))
        } else {
            None
        }
    }

    /// Consumes the character at the cursor exactly when it is
    /// `expected`, and says whether it did.
    pub fn match_next(&mut self, expected: char) -> (r: bool)
        requires
            old(self).current < usize::MAX,
        ensures
            r == (old(self).current < old(self).source@.len() && old(self).source@[old(
                self,
            ).current as int] == expected),
            *final(self) == (Scanner {
                current: if r {
                    (old(self).current + 1) as usize
                } else {
                    old(self).current
                },
                ..*old(self)
            }),
    {
        if self.current >= self.source.as_str().unicode_len() {
            return false;
        }
        let c = self.source.as_str().get_char(self.current);
        if c != expected {
            return false;
        }
        self.current += 1;
        true
    }

    /// Builds a token whose lexeme is the current window
    /// `source[start .. current)`, at the current line.
    pub fn build_token(&self, token_type: TokenType, literal: LiteralType) -> (t: Token)
        requires
            self.start <= self.current <= self.source@.len(),
        ensures
            t@ == (SpecToken {
                kind: token_type,
                lexeme: self.source@.subrange(self.start as int, self.current as int),
                literal: literal@,
                line: self.line as nat,
            }),
    {
        let lexeme = self.source.as_str().substring_char(self.start, self.current).to_owned();
        Token::new(token_type, lexeme, literal, self.line)
    }

    /// Records one lexical error; the scan goes on after it.
    fn record_error(&mut self, e: LexError)
        ensures
            *final(self) == (Scanner { errors: final(self).errors, ..*old(self) }),
            final(self).errors.deep_view() == old(self).errors.deep_view().push(e@),
    {
        let ghost ev = e@;
        self.errors.push(e);
        proof {
            assert(self.errors.deep_view() =~= old(self).errors.deep_view().push(ev));
        }
    }

    /// Scans the rest of a string literal, the opening quote already
    /// consumed: up to the closing quote, or to the end of input, in
    /// which case the error is recorded at the line where the string
    /// started. Newlines inside the literal advance the line count.
    fn scan_string(&mut self) -> (t: Option<Token>)
        requires
            old(self).wf(),
            old(self).current == old(self).start + 1,
            old(self).start < old(self).source@.len(),
            old(self).source@[old(self).start as int] == '"',
            old(self).line <= old(self).start + 1,
        ensures
            ({
                let s = old(self).source@;
                let i = old(self).start as int;
                let q = find_quote(s, i + 1);
                &&& final(self).source@ == s
                &&& final(self).start == old(self).start
                &&& final(self).wf()
                &&& if q >= s.len() {
                    &&& t is None
                    &&& final(self).current == s.len()
                    &&& final(self).line as nat == old(self).line + count_newlines(
                        s,
                        i + 1,
                        s.len() as int,
                    )
                    &&& final(self).errors.deep_view() == old(self).errors.deep_view().push(
                        SpecError::UnterminatedString { line: old(self).line as nat },
                    )
                } else {
                    &&& t.deep_view() == Some(
                        SpecToken {
                            kind: TokenType::STRING,
                            lexeme: s.subrange(i, q + 1),
                            literal: SpecLiteral::Text(s.subrange(i + 1, q)),
                            line: old(self).line as nat,
                        },
                    )
                    &&& final(self).current == q + 1
                    &&& final(self).line as nat == old(self).line + count_newlines(s, i + 1, q)
                    &&& final(self).errors == old(self).errors
                }
            }),
    {
        let ghost s = self.source@;
        let ghost i = self.start as int;
        let line_start = self.line;
        let n = self.source.as_str().unicode_len();
        while self.current < n && self.source.as_str().get_char(self.current) != '"'
            invariant
                self.source@ == s,
                n == s.len(),
                s.len() < usize::MAX,
                self.start == old(self).start,
                self.errors == old(self).errors,
                i == self.start as int,
                i + 1 <= self.current <= n,
                forall|k: int| i + 1 <= k < self.current ==> s[k] != '"',
                line_start == old(self).line,
                line_start <= i + 1,
                1 <= line_start,
                self.line as nat == line_start + count_newlines(s, i + 1, self.current as int),
            decreases n - self.current,
        {
            let c = self.source.as_str().get_char(self.current);
            if c == '\n' {
                proof {
                    lemma_count_newlines_le(s, i + 1, self.current as int);
                }
                self.line += 1;
            }
            self.current += 1;
        }
        proof {
            lemma_find_quote_agrees(s, i + 1, self.current as int);
            lemma_count_newlines_le(s, i + 1, self.current as int);
        }
        if self.current < n {
            // The closing quote: the lexeme keeps both quotes, the
            // payload strips them; the token carries the start line.
            let q = self.current;
            let lexeme = self.source.as_str().substring_char(self.start, q + 1).to_owned();
            let payload = self.source.as_str().substring_char(self.start + 1, q).to_owned();
            self.current = q + 1;
            Some(Token::new(TokenType::STRING, lexeme, LiteralType::STRING(payload), line_start))
        } else {
            let e = LexError::UnterminatedString { line: line_start };
            self.record_error(e);
            None
        }
    }

    /// Scans the rest of a number literal, the first digit already
    /// consumed: the maximal digit run, then a fractional part only
    /// when a dot is followed by at least one digit. A trailing dot is
    /// left for the next lexeme.
    fn scan_number(&mut self) -> (t: Option<Token>)
        requires
            old(self).wf(),
            old(self).current == old(self).start + 1,
            old(self).start < old(self).source@.len(),
            is_digit(old(self).source@[old(self).start as int]),
        ensures
            ({
                let s = old(self).source@;
                let i = old(self).start as int;
                let d = digit_run_end(s, i);
                let k = if d < s.len() && s[d] == '.' && d + 1 < s.len() && is_digit(s[d + 1]) {
                    digit_run_end(s, d + 1)
                } else {
                    d
                };
                &&& i < k <= s.len()
                &&& *final(self) == (Scanner { current: k as usize, ..*old(self) })
                &&& final(self).wf()
                &&& t.deep_view() == Some(
                    SpecToken {
                        kind: TokenType::NUMBER,
                        lexeme: s.subrange(i, k),
                        literal: SpecLiteral::Num(s.subrange(i, k)),
                        line: old(self).line as nat,
                    },
                )
            }),
    {
        let ghost s = self.source@;
        let ghost i = self.start as int;
        let n = self.source.as_str().unicode_len();
        while self.current < n && is_digit_char(self.source.as_str().get_char(self.current))
            invariant
                *self == (Scanner { current: self.current, ..*old(self) }),
                self.source@ == s,
                n == s.len(),
                i == self.start as int,
                i + 1 <= self.current <= n,
                forall|k: int| i <= k < self.current ==> is_digit(s[k]),
            decreases n - self.current,
        {
            self.current += 1;
        }
        proof {
            lemma_digit_run_end_agrees(s, i, self.current as int);
        }
        let ghost d = self.current as int;
        if self.current < n {
            let c0 = self.source.as_str().get_char(self.current);
            if c0 == '.' && self.current + 1 < n {
                let c1 = self.source.as_str().get_char(self.current + 1);
                if is_digit_char(c1) {
                    // Consume the dot, then the fraction's digit run.
                    self.current += 1;
                    while self.current < n && is_digit_char(
                        self.source.as_str().get_char(self.current),
                    )
                        invariant
                            *self == (Scanner { current: self.current, ..*old(self) }),
                            self.source@ == s,
                            n == s.len(),
                            d + 1 <= self.current <= n,
                            forall|k: int| d + 1 <= k < self.current ==> is_digit(s[k]),
                        decreases n - self.current,
                    {
                        self.current += 1;
                    }
                    proof {
                        lemma_digit_run_end_agrees(s, d + 1, self.current as int);
                    }
                }
            }
        }
        let payload = self.source.as_str().substring_char(self.start, self.current).to_owned();
        Some(self.build_token(TokenType::NUMBER, LiteralType::NUMBER(payload)))
    }

    /// Scans the rest of an identifier or keyword, the first character
    /// already consumed: the maximal run of letters, digits and
    /// underscores, then the keyword table decides the kind.
    fn scan_identifier(&mut self) -> (t: Option<Token>)
        requires
            old(self).wf(),
            old(self).current == old(self).start + 1,
            old(self).start < old(self).source@.len(),
            is_alpha(old(self).source@[old(self).start as int]),
        ensures
            ({
                let s = old(self).source@;
                let i = old(self).start as int;
                let j = ident_run_end(s, i);
                &&& i < j <= s.len()
                &&& *final(self) == (Scanner { current: j as usize, ..*old(self) })
                &&& final(self).wf()
                &&& t.deep_view() == Some(
                    SpecToken {
                        kind: keyword_kind(s.subrange(i, j)),
                        lexeme: s.subrange(i, j),
                        literal: SpecLiteral::Absent,
                        line: old(self).line as nat,
                    },
                )
            }),
    {
        let ghost s = self.source@;
        let ghost i = self.start as int;
        let n = self.source.as_str().unicode_len();
        while self.current < n && is_alnum_char(self.source.as_str().get_char(self.current))
            invariant
                *self == (Scanner { current: self.current, ..*old(self) }),
                self.source@ == s,
                n == s.len(),
                i == self.start as int,
                i + 1 <= self.current <= n,
                forall|k: int| i <= k < self.current ==> is_alnum(s[k]),
            decreases n - self.current,
        {
            self.current += 1;
        }
        proof {
            lemma_ident_run_end_agrees(s, i, self.current as int);
        }
        let lexeme = self.source.as_str().substring_char(self.start, self.current).to_owned();
        let kind = keyword_or_identifier(&lexeme);
        Some(self.build_token(kind, LiteralType::NONE))
    }

    /// Classifies the lexeme that starts at the lexeme window, whose
    /// first character `c` has just been consumed: emits the token it
    /// produces, or nothing for discarded spans, recording any lexical
    /// error. The outcome is exactly the model's `step` at the window's
    /// start.
    #[verifier::rlimit(60)]
    pub fn scan_token(&mut self, c: &Option<char>) -> (t: Option<Token>)
        requires
            old(self).wf(),
            old(self).current == old(self).start + 1,
            old(self).start < old(self).source@.len(),
            old(self).line <= old(self).start + 1,
            *c == Some(old(self).source@[old(self).start as int]),
        ensures
            ({
                let st = step(old(self).source@, old(self).start as int, old(self).line as nat);
                &&& final(self).source@ == old(self).source@
                &&& final(self).start == old(self).start
                &&& final(self).current as int == st.next
                &&& final(self).line as nat == st.line
                &&& t.deep_view() == st.tok
                &&& final(self).errors.deep_view() == match st.err {
                    Some(e) => old(self).errors.deep_view().push(e),
                    None => old(self).errors.deep_view(),
                }
                &&& final(self).wf()
            }),
    {
        let ghost s = old(self).source@;
        let ghost i = old(self).start as int;
        let v = match c {
            Some(x) => *x,
            // The caller always hands over the character it consumed at
            // the window's start, so there is nothing to classify here.
            None => {
                return None;
            },
        };
        let t: Option<Token> = if v == ' ' || v == '\r' || v == '\t' {
            None
        } else if v == '\n' {
            self.line += 1;
            None
        } else if v == '(' {
            Some(self.build_token(TokenType::LEFTPAREN, LiteralType::NONE))
        } else if v == ')' {
            Some(self.build_token(TokenType::RIGHTPAREN, LiteralType::NONE))
        } else if v == '{' {
            Some(self.build_token(TokenType::LEFTBRACE, LiteralType::NONE))
        } else if v == '}' {
            Some(self.build_token(TokenType::RIGHTBRACE, LiteralType::NONE))
        } else if v == ',' {
            Some(self.build_token(TokenType::COMMA, LiteralType::NONE))
        } else if v == '.' {
            Some(self.build_token(TokenType::DOT, LiteralType::NONE))
        } else if v == '-' {
            Some(self.build_token(TokenType::MINUS, LiteralType::NONE))
        } else if v == '+' {
            Some(self.build_token(TokenType::PLUS, LiteralType::NONE))
        } else if v == ';' {
            Some(self.build_token(TokenType::SEMICOLON, LiteralType::NONE))
        } else if v == '*' {
            Some(self.build_token(TokenType::STAR, LiteralType::NONE))
        } else if v == '!' {
            let kind = if self.match_next('=') {
                TokenType::BANGEQUAL
            } else {
                TokenType::BANG
            };
            Some(self.build_token(kind, LiteralType::NONE))
        } else if v == '=' {
            let kind = if self.match_next('=') {
                TokenType::EQUALEQUAL
            } else {
                TokenType::EQUAL
            };
            Some(self.build_token(kind, LiteralType::NONE))
        } else if v == '<' {
            let kind = if self.match_next('=') {
                TokenType::LESSEQUAL
            } else {
                TokenType::LESS
            };
            Some(self.build_token(kind, LiteralType::NONE))
        } else if v == '>' {
            let kind = if self.match_next('=') {
                TokenType::GREATEREQUAL
            } else {
                TokenType::GREATER
            };
            Some(self.build_token(kind, LiteralType::NONE))
        } else if v == '/' {
            if self.match_next('/') {
                // A line comment: discard up to just before the newline
                // or the end of input.
                let n = self.source.as_str().unicode_len();
                while self.current < n && self.source.as_str().get_char(self.current) != '\n'
                    invariant
                        *self == (Scanner { current: self.current, ..*old(self) }),
                        self.source@ == s,
                        n == s.len(),
                        i + 2 <= self.current <= n,
                        forall|k: int| i + 2 <= k < self.current ==> s[k] != '\n',
                    decreases n - self.current,
                {
                    self.current += 1;
                }
                proof {
                    lemma_find_line_end_agrees(s, i + 2, self.current as int);
                }
                None
            } else {
                Some(self.build_token(TokenType::SLASH, LiteralType::NONE))
            }
        } else if v == '"' {
            self.scan_string()
        } else if is_digit_char(v) {
            self.scan_number()
        } else if is_alpha_char(v) {
            self.scan_identifier()
        } else {
            let e = LexError::UnexpectedCharacter { ch: v, line: self.line };
            self.record_error(e);
            None
        };
        t
    }

    /// Hands the recorded errors to the caller, consuming the scanner:
    /// it is single-use and holds no state worth keeping across scans.
    pub fn into_errors(self) -> (r: Vec<LexError>)
        ensures
            r == self.errors,
    {
        self.errors
    }
}

/// Scans the whole input: every token found in source order, closed by
/// exactly one end-of-input token with an empty lexeme at the final
/// line count, together with every lexical error encountered. The
/// result is exactly what the model's `spec_scan` says; malformed input
/// becomes recorded errors, never a panic or an aborted scan.
pub fn scan_tokens(input: String) -> (r: (TokenVec, Vec<LexError>))
    requires
        input@.len() < usize::MAX,
    ensures
        r.0@ == spec_scan(input@).0,
        r.1.deep_view() == spec_scan(input@).1,
{
    let ghost src = input@;
    let mut token_vec = TokenVec::new();
    let mut scanner = Scanner::new(input);
    proof {
        assert(token_vec@ + scan_from(src, 0, 1).0 =~= spec_scan(src).0);
        assert(scanner.errors.deep_view() =~= Seq::<SpecError>::empty());
        assert(scanner.errors.deep_view() + scan_from(src, 0, 1).1 =~= spec_scan(src).1);
    }
    while !scanner.is_end()
        invariant
            scanner.wf(),
            scanner.start == scanner.current,
            scanner.source@ == src,
            token_vec@ + scan_from(src, scanner.current as int, scanner.line as nat).0
                == spec_scan(src).0,
            scanner.errors.deep_view() + scan_from(src, scanner.current as int, scanner.line as nat).1
                == spec_scan(src).1,
        decreases src.len() - scanner.current,
    {
        let ghost cur0 = scanner.current as int;
        let ghost line0 = scanner.line as nat;
        let ghost tv0 = token_vec@;
        let ghost ev0 = scanner.errors.deep_view();
        let c = scanner.advance();
        let t = scanner.scan_token(&c);
        proof {
            lemma_step_advances(src, cur0, line0);
        }
        let ghost st = step(src, cur0, line0);
        match t {
            Some(tok) => token_vec.push(tok),
            None => {},
        }
        scanner.sync();
        proof {
            let rest = scan_from(src, st.next, st.line);
            match st.tok {
                Some(tk) => {
                    assert(token_vec@ =~= tv0.push(tk));
                    assert(token_vec@ + rest.0 =~= tv0 + (seq![tk] + rest.0));
                },
                None => {
                    assert(token_vec@ + rest.0 =~= tv0 + rest.0);
                },
            }
            match st.err {
                Some(e) => {
                    assert(scanner.errors.deep_view() + rest.1 =~= ev0 + (seq![e] + rest.1));
                },
                None => {
                    assert(scanner.errors.deep_view() + rest.1 =~= ev0 + rest.1);
                },
            }
        }
    }
    scanner.sync();
    let eof = scanner.build_token(TokenType::EOF, LiteralType::NONE);
    proof {
        assert(src.subrange(src.len() as int, src.len() as int) =~= Seq::<char>::empty());
    }
    token_vec.push(eof);
    proof {
        assert(token_vec@ =~= spec_scan(src).0);
        assert(scanner.errors.deep_view() + scan_from(src, src.len() as int, scanner.line as nat).1
            =~= scanner.errors.deep_view());
    }
    let errors = scanner.into_errors();
    (token_vec, errors)
}

} // verus!
