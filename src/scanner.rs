use vstd::prelude::*;

use crate::error::{FeroxError, UNEXPECTED_CHARACTER, UNTERMINATED_STRING};
use crate::grammar::{
    count_newlines, digits_end, find_char, followed_by, is_alpha, is_alpha_numeric, is_digit,
    is_operator_prefix, lemma_digits_end_bounds, lemma_find_char_bounds, lemma_step_advances,
    lemma_word_end_bounds, lex_from, number_end, option_seq, scan_from, step, word_end,
    Diagnostic, Lexed,
};
use crate::text::{chars_of, string_of};
use crate::token::{single_char_type, with_equal_type, Decimal, Token, TokenType};

verus! {

broadcast use vstd::string::to_string_from_display_ensures_for_str;

pub struct Scanner {
    source: Vec<char>,
    start: usize,
    line_number: usize,
    current: usize,
    pub errors: Vec<FeroxError>,
}

/// What a scanner holds: the source, where the token being scanned starts,
/// the next unread position, the current line, and the errors found so far.
pub struct ScanState {
    pub source: Seq<char>,
    pub start: nat,
    pub current: nat,
    pub line: nat,
    pub errors: Seq<FeroxError>,
}

impl View for Scanner {
    type V = ScanState;

    closed spec fn view(&self) -> ScanState {
        ScanState {
            source: self.source@,
            start: self.start as nat,
            current: self.current as nat,
            line: self.line_number as nat,
            errors: self.errors@,
        }
    }
}

/// `ts` are the tokens that the grammar describes by `ls`, one for one.
pub open spec fn tokens_are(ts: Seq<Token>, ls: Seq<Lexed>) -> bool {
    &&& ts.len() == ls.len()
    &&& forall|i: int| 0 <= i < ts.len() ==> #[trigger] ts[i].is_token_of(ls[i])
}

/// `after` is `before` with the errors that the grammar describes by `ds` appended.
pub open spec fn errors_appended(
    before: Seq<FeroxError>,
    after: Seq<FeroxError>,
    ds: Seq<Diagnostic>,
) -> bool {
    &&& after.len() == before.len() + ds.len()
    &&& forall|i: int| 0 <= i < before.len() ==> after[i] == before[i]
    &&& forall|j: int| 0 <= j < ds.len() ==> #[trigger] after[before.len() + j].is_diagnostic(ds[j])
}

/// `after` is `before` with a token for `added` appended, where there is one.
pub open spec fn token_added(before: Seq<Token>, after: Seq<Token>, added: Option<Lexed>) -> bool {
    match added {
        Some(l) => {
            &&& after.len() == before.len() + 1
            &&& after.drop_last() == before
            &&& after.last().is_token_of(l)
        },
        None => after == before,
    }
}

/// `after` is `before` with an error for `added` appended, where there is one.
pub open spec fn error_added(
    before: Seq<FeroxError>,
    after: Seq<FeroxError>,
    added: Option<Diagnostic>,
) -> bool {
    match added {
        Some(d) => {
            &&& after.len() == before.len() + 1
            &&& after.drop_last() == before
            &&& after.last().is_diagnostic(d)
        },
        None => after == before,
    }
}

impl Scanner {
    /// The cursors lie within the source, and no more lines were counted
    /// than characters were read.
    pub open spec fn wf(&self) -> bool {
        &&& self@.start <= self@.current <= self@.source.len()
        &&& self@.line <= self@.current
    }

    /// `self` and `other` differ at most in the next unread position.
    pub open spec fn same_but_current(&self, other: &Scanner) -> bool {
        &&& self@.source == other@.source
        &&& self@.start == other@.start
        &&& self@.line == other@.line
        &&& self@.errors == other@.errors
    }

    /// The errors found so far.
    pub fn errors(&self) -> (r: &Vec<FeroxError>)
        ensures
            r@ == self@.errors,
    {
        &self.errors
    }

    pub fn new(source: &str) -> (r: Self)
        ensures
            r.wf(),
            r@ == (ScanState { source: source@, start: 0, current: 0, line: 0, errors: Seq::empty() }),
    {
        Self { source: chars_of(source), line_number: 0, current: 0, start: 0, errors: Vec::new() }
    }

    /// Scans the rest of the source. The tokens, closed by the end-of-input
    /// token, come back; the errors are appended to `errors`.
    pub fn scan_tokens(&mut self) -> (r: Result<Vec<Token>, FeroxError>)
        requires
            old(self).wf(),
        ensures
            final(self).wf(),
            final(self)@.source == old(self)@.source,
            final(self)@.current == old(self)@.source.len(),
            ({
                let l = lex_from(old(self)@.source, old(self)@.current as int, old(self)@.line);
                errors_appended(old(self)@.errors, final(self)@.errors, l.errors)
                    && match r {
                    Ok(tokens) => {
                        &&& tokens_are(tokens@, l.tokens)
                        &&& tokens@.last().token_type == TokenType::Eof
                        &&& tokens@.last().lexeme@.len() == 0
                        &&& forall|i: int|
                            0 <= i < tokens@.len() - 1 ==> #[trigger] tokens@[i].token_type
                                != TokenType::Eof
                    },
                    Err(_) => false,
                }
            }),
    {
        let ghost src = self@.source;
        let ghost whole = scan_from(src, self@.current as int, self@.line);
        let ghost e0 = self@.errors;
        let ghost mut done_tokens: Seq<Lexed> = Seq::empty();
        let ghost mut done_errors: Seq<Diagnostic> = Seq::empty();
        let mut tokens: Vec<Token> = Vec::new();
        proof {
            assert(done_tokens + whole.tokens =~= whole.tokens);
            assert(done_errors + whole.errors =~= whole.errors);
        }
        while !self.is_at_end()
            invariant
                self.wf(),
                self@.source == src,
                tokens_are(tokens@, done_tokens),
                errors_appended(e0, self@.errors, done_errors),
                ({
                    let rest = scan_from(src, self@.current as int, self@.line);
                    &&& done_tokens + rest.tokens == whole.tokens
                    &&& done_errors + rest.errors == whole.errors
                    &&& rest.line == whole.line
                }),
            decreases src.len() - self@.current,
        {
            self.start = self.current;
            let ghost s = step(src, self@.current as int, self@.line);
            let ghost rest = scan_from(src, s.next, s.next_line);
            let ghost before_tokens = tokens@;
            let ghost before_errors = self@.errors;
            proof {
                lemma_step_advances(src, self@.current as int, self@.line);
            }
            self.scan_token(&mut tokens);
            proof {
                assert((done_tokens + option_seq(s.token)) + rest.tokens =~= done_tokens + (
                option_seq(s.token) + rest.tokens));
                assert((done_errors + option_seq(s.error)) + rest.errors =~= done_errors + (
                option_seq(s.error) + rest.errors));
                let new_tokens = done_tokens + option_seq(s.token);
                let new_errors = done_errors + option_seq(s.error);
                assert forall|i: int| 0 <= i < tokens@.len() implies #[trigger] tokens@[i].is_token_of(
                    new_tokens[i],
                ) by {
                    if i < before_tokens.len() {
                        if s.token is Some {
                            assert(tokens@.drop_last()[i] == tokens@[i]);
                        }
                        assert(tokens@[i] == before_tokens[i]);
                        assert(new_tokens[i] == done_tokens[i]);
                    }
                }
                assert forall|i: int| 0 <= i < e0.len() implies self@.errors[i] == e0[i] by {
                    if s.error is Some {
                        assert(self@.errors.drop_last()[i] == self@.errors[i]);
                    }
                    assert(self@.errors[i] == before_errors[i]);
                }
                assert forall|j: int| 0 <= j < new_errors.len() implies #[trigger] self@.errors[e0.len()
                    + j].is_diagnostic(new_errors[j]) by {
                    if j < done_errors.len() {
                        if s.error is Some {
                            assert(self@.errors.drop_last()[e0.len() + j] == self@.errors[e0.len()
                                + j]);
                        }
                        assert(self@.errors[e0.len() + j] == before_errors[e0.len() + j]);
                        assert(new_errors[j] == done_errors[j]);
                    }
                }
                done_tokens = done_tokens + option_seq(s.token);
                done_errors = done_errors + option_seq(s.error);
            }
        }
        proof {
            assert(done_tokens =~= whole.tokens);
            assert(done_errors =~= whole.errors);
        }
        tokens.push(Token::new(TokenType::Eof, String::new(), self.line_number));
        proof {
            lemma_lexemes_not_empty(src, old(self)@.current as int, old(self)@.line);
            assert forall|i: int| 0 <= i < tokens@.len() - 1 implies #[trigger] tokens@[i].token_type
                != TokenType::Eof by {
                assert(tokens@[i].is_token_of(whole.tokens[i]));
                assert(whole.tokens[i].lexeme.len() > 0);
            }
        }
        Ok(tokens)
    }

    /// Scans one token, or skips what makes none, from the position where it starts.
    pub fn scan_token(&mut self, tokens: &mut Vec<Token>)
        requires
            old(self).wf(),
            old(self)@.start == old(self)@.current < old(self)@.source.len(),
        ensures
            final(self).wf(),
            final(self)@.source == old(self)@.source,
            ({
                let s = step(old(self)@.source, old(self)@.current as int, old(self)@.line);
                &&& final(self)@.current == s.next
                &&& final(self)@.line == s.next_line
                &&& token_added(old(tokens)@, final(tokens)@, s.token)
                &&& error_added(old(self)@.errors, final(self)@.errors, s.error)
            }),
    {
        if let Some(c) = self.advance() {
            match c {
                '(' | ')' | '{' | '}' | ',' | '.' | '-' | '+' | ';' | '*' => {
                    if let Ok(token_type) = TokenType::try_from(c) {
                        self.add_token(tokens, token_type);
                    }
                },
                '!' | '=' | '<' | '>' => {
                    if let Some(token_type) = self.single_or_double_character_token_type(c) {
                        self.add_token(tokens, token_type);
                    }
                },
                '/' => {
                    if self.match_current('/') {
                        self.skip_line_comment();
                    } else {
                        self.add_token(tokens, TokenType::Slash);
                    }
                },
                ' ' | '\r' | '\t' | '\n' => {
                    if c == '\n' {
                        self.line_number = self.line_number + 1;
                    }
                },
                '"' => {
                    self.handle_string_literal(tokens);
                },
                _ => {
                    if self.is_digit(c) {
                        self.handle_numeric_literal(tokens);
                    } else if self.is_alpha(c) {
                        self.handle_identifier(tokens);
                    } else {
                        self.errors.push(
                            FeroxError::SyntaxError {
                                error_description: UNEXPECTED_CHARACTER.to_string(),
                                line_number: self.line_number,
                            },
                        );
                        proof {
                            assert(self@.errors.drop_last() =~= old(self)@.errors);
                        }
                    }
                },
            }
        }
    }

    /// Appends a token of type `token_type` made of the characters from the
    /// token's start to the next unread position.
    fn add_token(&self, tokens: &mut Vec<Token>, token_type: TokenType)
        requires
            self.wf(),
            token_type.is_type_of(self@.source.subrange(self@.start as int, self@.current as int)),
        ensures
            final(tokens)@.last().token_type == token_type,
            token_added(
                old(tokens)@,
                final(tokens)@,
                Some(
                    Lexed {
                        lexeme: self@.source.subrange(self@.start as int, self@.current as int),
                        line: self@.line,
                    },
                ),
            ),
    {
        let token = Token::new(
            token_type,
            string_of(&self.source, self.start, self.current),
            self.line_number,
        );
        tokens.push(token);
        proof {
            assert(tokens@.drop_last() =~= old(tokens)@);
        }
    }

    /// Consumes the next character where it is `expected`.
    pub fn match_current(&mut self, expected: char) -> (r: bool)
        requires
            old(self).wf(),
        ensures
            final(self).wf(),
            final(self).same_but_current(old(self)),
            r == followed_by(old(self)@.source, old(self)@.current - 1, expected),
            final(self)@.current == old(self)@.current + if r {
                1int
            } else {
                0int
            },
    {
        if self.current >= self.source.len() {
            false
        } else if self.source[self.current] != expected {
            false
        } else {
            self.current = self.current + 1;
            true
        }
    }

    /// Consumes and returns the next character, where there is one.
    pub fn advance(&mut self) -> (r: Option<char>)
        requires
            old(self).wf(),
        ensures
            final(self).wf(),
            final(self).same_but_current(old(self)),
            old(self)@.current < old(self)@.source.len() ==> r == Some(
                old(self)@.source[old(self)@.current as int],
            ) && final(self)@.current == old(self)@.current + 1,
            old(self)@.current >= old(self)@.source.len() ==> r is None && final(self)@.current
                == old(self)@.current,
    {
        if self.current < self.source.len() {
            let c = self.source[self.current];
            self.current = self.current + 1;
            Some(c)
        } else {
            None
        }
    }

    /// The next unread character, where there is one.
    pub fn peek(&self) -> (r: Option<char>)
        requires
            self.wf(),
        ensures
            self@.current < self@.source.len() ==> r == Some(self@.source[self@.current as int]),
            self@.current >= self@.source.len() ==> r is None,
    {
        if self.current < self.source.len() {
            Some(self.source[self.current])
        } else {
            None
        }
    }

    /// The character after the next unread one, where there is one.
    pub fn peek_next(&self) -> (r: Option<char>)
        requires
            self.wf(),
        ensures
            self@.current + 1 < self@.source.len() ==> r == Some(
                self@.source[self@.current + 1int],
            ),
            self@.current + 1 >= self@.source.len() ==> r is None,
    {
        if self.current < self.source.len() && self.current + 1 < self.source.len() {
            Some(self.source[self.current + 1])
        } else {
            None
        }
    }

    pub fn is_at_end(&self) -> (r: bool)
        ensures
            r == (self@.current >= self@.source.len()),
    {
        self.current >= self.source.len()
    }

    /// Consumes the rest of a line comment, up to the next newline or the end of input.
    pub fn skip_line_comment(&mut self)
        requires
            old(self).wf(),
        ensures
            final(self).wf(),
            final(self).same_but_current(old(self)),
            final(self)@.current == find_char(old(self)@.source, old(self)@.current as int, '\n'),
    {
        let ghost src = self@.source;
        let ghost end = find_char(src, self@.current as int, '\n');
        let ghost before = *self;
        while self.current < self.source.len() && self.source[self.current] != '\n'
            invariant
                self.wf(),
                self.same_but_current(&before),
                self@.source == src,
                before@.current <= self@.current,
                find_char(src, self@.current as int, '\n') == end,
            decreases src.len() - self@.current,
        {
            self.current = self.current + 1;
        }
    }

    /// Scans a string literal whose opening quote was just read.
    pub fn handle_string_literal(&mut self, tokens: &mut Vec<Token>)
        requires
            old(self).wf(),
            old(self)@.current == old(self)@.start + 1,
            old(self)@.source[old(self)@.start as int] == '"',
        ensures
            final(self).wf(),
            final(self)@.source == old(self)@.source,
            ({
                let s = step(old(self)@.source, old(self)@.start as int, old(self)@.line);
                &&& final(self)@.current == s.next
                &&& final(self)@.line == s.next_line
                &&& token_added(old(tokens)@, final(tokens)@, s.token)
                &&& error_added(old(self)@.errors, final(self)@.errors, s.error)
            }),
    {
        let ghost src = self@.source;
        let ghost close = find_char(src, self@.current as int, '"');
        let ghost before = *self;
        let mut newlines: usize = 0;
        while self.current < self.source.len() && self.source[self.current] != '"'
            invariant
                self.wf(),
                self.same_but_current(&before),
                self@.source == src,
                before@.current <= self@.current,
                find_char(src, self@.current as int, '"') == close,
                newlines == count_newlines(src.subrange(before@.current as int, self@.current as int)),
                newlines <= self@.current - before@.current,
            decreases src.len() - self@.current,
        {
            let ghost seen = src.subrange(before@.current as int, self@.current as int + 1);
            assert(seen.drop_last() =~= src.subrange(before@.current as int, self@.current as int));
            if self.source[self.current] == '\n' {
                newlines = newlines + 1;
            }
            self.current = self.current + 1;
        }
        if self.is_at_end() {
            self.line_number = self.line_number + newlines;
            self.errors.push(
                FeroxError::SyntaxError {
                    error_description: UNTERMINATED_STRING.to_string(),
                    line_number: self.line_number,
                },
            );
            proof {
                assert(self@.errors.drop_last() =~= before@.errors);
            }
        } else {
            self.current = self.current + 1;
            let value = string_of(&self.source, self.start + 1, self.current - 1);
            proof {
                let lexeme = src.subrange(self@.start as int, self@.current as int);
                assert(lexeme.subrange(1, lexeme.len() - 1) =~= src.subrange(
                    self@.start + 1int,
                    self@.current - 1int,
                ));
            }
            self.add_token(tokens, TokenType::String { value });
            self.line_number = self.line_number + newlines;
        }
    }

    /// Scans a number literal whose first digit was just read.
    pub fn handle_numeric_literal(&mut self, tokens: &mut Vec<Token>)
        requires
            old(self).wf(),
            old(self)@.current == old(self)@.start + 1,
            is_digit(old(self)@.source[old(self)@.start as int]),
        ensures
            final(self).wf(),
            final(self).same_but_current(old(self)),
            final(self)@.current == number_end(old(self)@.source, old(self)@.start as int),
            token_added(
                old(tokens)@,
                final(tokens)@,
                Some(
                    Lexed {
                        lexeme: old(self)@.source.subrange(
                            old(self)@.start as int,
                            number_end(old(self)@.source, old(self)@.start as int),
                        ),
                        line: old(self)@.line,
                    },
                ),
            ),
    {
        let ghost src = self@.source;
        let ghost start = self@.start as int;
        let ghost whole_end = digits_end(src, start);
        proof {
            lemma_digits_end_bounds(src, start);
        }
        self.skip_digits();
        let integer_end = self.current;
        let dot_then_digit = match (self.peek(), self.peek_next()) {
            (Some('.'), Some(d)) => self.is_digit(d),
            _ => false,
        };
        let fraction_digits = if dot_then_digit {
            self.advance();
            let fraction_start = self.current;
            self.skip_digits();
            proof {
                lemma_digits_end_bounds(src, fraction_start as int);
            }
            string_of(&self.source, fraction_start, self.current)
        } else {
            String::new()
        };
        let integer_digits = string_of(&self.source, self.start, integer_end);
        proof {
            let end = self@.current as int;
            let lexeme = src.subrange(start, end);
            assert(end == number_end(src, start));
            lemma_digits_end_bounds(src, integer_end as int);
            lemma_digits_end_sub(src, start, end, start);
            assert(lexeme.subrange(0, integer_end - start) =~= src.subrange(
                start,
                integer_end as int,
            ));
            if dot_then_digit {
                assert(lexeme.subrange(integer_end - start + 1, lexeme.len() as int)
                    =~= src.subrange(integer_end + 1, end));
            }
        }
        self.add_token(tokens, TokenType::Number { value: Decimal { integer_digits, fraction_digits } });
    }

    /// Consumes a run of digits.
    pub fn skip_digits(&mut self)
        requires
            old(self).wf(),
        ensures
            final(self).wf(),
            final(self).same_but_current(old(self)),
            final(self)@.current == digits_end(old(self)@.source, old(self)@.current as int),
    {
        let ghost src = self@.source;
        let ghost end = digits_end(src, self@.current as int);
        let ghost before = *self;
        while self.current < self.source.len() && self.is_digit(self.source[self.current])
            invariant
                self.wf(),
                self.same_but_current(&before),
                self@.source == src,
                before@.current <= self@.current,
                digits_end(src, self@.current as int) == end,
            decreases src.len() - self@.current,
        {
            self.current = self.current + 1;
        }
    }

    /// Scans an identifier or keyword whose first letter was just read.
    pub fn handle_identifier(&mut self, tokens: &mut Vec<Token>)
        requires
            old(self).wf(),
            old(self)@.current == old(self)@.start + 1,
            is_alpha(old(self)@.source[old(self)@.start as int]),
        ensures
            final(self).wf(),
            final(self).same_but_current(old(self)),
            final(self)@.current == word_end(old(self)@.source, old(self)@.current as int),
            token_added(
                old(tokens)@,
                final(tokens)@,
                Some(
                    Lexed {
                        lexeme: old(self)@.source.subrange(
                            old(self)@.start as int,
                            word_end(old(self)@.source, old(self)@.current as int),
                        ),
                        line: old(self)@.line,
                    },
                ),
            ),
    {
        let ghost src = self@.source;
        let ghost end = word_end(src, self@.current as int);
        let ghost before = *self;
        while self.current < self.source.len() && self.is_alpha_numeric(self.source[self.current])
            invariant
                self.wf(),
                self.same_but_current(&before),
                self@.source == src,
                before@.current <= self@.current,
                word_end(src, self@.current as int) == end,
            decreases src.len() - self@.current,
        {
            self.current = self.current + 1;
        }
        let value = string_of(&self.source, self.start, self.current);
        let token_type = match TokenType::try_keyword_from_str(value.as_str()) {
            Ok(keyword) => keyword,
            Err(_) => TokenType::Identifier { name: value },
        };
        self.add_token(tokens, token_type);
    }

    pub fn is_digit(&self, c: char) -> (r: bool)
        ensures
            r == is_digit(c),
    {
        '0' <= c && c <= '9'
    }

    pub fn is_alpha(&self, c: char) -> (r: bool)
        ensures
            r == is_alpha(c),
    {
        ('a' <= c && c <= 'z') || ('A' <= c && c <= 'Z') || c == '_'
    }

    pub fn is_alpha_numeric(&self, c: char) -> (r: bool)
        ensures
            r == is_alpha_numeric(c),
    {
        self.is_alpha(c) || self.is_digit(c)
    }

    /// The type of an operator that starts with `c`, consuming a following
    /// `=` where there is one.
    pub fn single_or_double_character_token_type(&mut self, c: char) -> (r: Option<TokenType>)
        requires
            old(self).wf(),
        ensures
            final(self).wf(),
            final(self).same_but_current(old(self)),
            ({
                let more = followed_by(old(self)@.source, old(self)@.current - 1, '=');
                if !is_operator_prefix(c) {
                    r is None && final(self)@.current == old(self)@.current
                } else if more {
                    r == with_equal_type(c) && final(self)@.current == old(self)@.current + 1
                } else {
                    r == single_char_type(c) && final(self)@.current == old(self)@.current
                }
            }),
    {
        match c {
            '!' => Some(
                if self.match_current('=') {
                    TokenType::BangEqual
                } else {
                    TokenType::Bang
                },
            ),
            '=' => Some(
                if self.match_current('=') {
                    TokenType::EqualEqual
                } else {
                    TokenType::Equal
                },
            ),
            '<' => Some(
                if self.match_current('=') {
                    TokenType::LessEqual
                } else {
                    TokenType::Less
                },
            ),
            '>' => Some(
                if self.match_current('=') {
                    TokenType::GreaterEqual
                } else {
                    TokenType::Greater
                },
            ),
            _ => None,
        }
    }
}

impl Default for Scanner {
    /// A scanner of the empty source.
    fn default() -> (r: Self)
        ensures
            r.wf(),
            r@ == (ScanState { source: Seq::empty(), start: 0, current: 0, line: 0, errors: Seq::empty() }),
    {
        Self { source: Vec::new(), start: 0, line_number: 0, current: 0, errors: Vec::new() }
    }
}

/// Within `src[a..b]`, a run of digits ends where it ends in `src`, provided
/// that it ends by `b`.
proof fn lemma_digits_end_sub(src: Seq<char>, a: int, b: int, i: int)
    requires
        0 <= a <= i <= b <= src.len(),
        digits_end(src, i) <= b,
    ensures
        digits_end(src.subrange(a, b), i - a) == digits_end(src, i) - a,
    decreases b - i,
{
    lemma_digits_end_bounds(src, i);
    if i < b && is_digit(src[i]) {
        lemma_digits_end_sub(src, a, b, i + 1);
    }
}

/// Every token that a scan yields before the end of input has at least one character.
proof fn lemma_lexemes_not_empty(src: Seq<char>, pos: int, line: nat)
    requires
        0 <= pos <= src.len(),
    ensures
        forall|i: int|
            0 <= i < scan_from(src, pos, line).tokens.len() ==> #[trigger] scan_from(
                src,
                pos,
                line,
            ).tokens[i].lexeme.len() > 0,
    decreases src.len() - pos,
{
    if pos < src.len() {
        let s = step(src, pos, line);
        lemma_step_advances(src, pos, line);
        lemma_lexemes_not_empty(src, s.next, s.next_line);
        let c = src[pos];
        if c == '"' {
            lemma_find_char_bounds(src, pos + 1, '"');
        } else if is_digit(c) {
            lemma_digits_end_bounds(src, pos);
        } else if is_alpha(c) {
            lemma_word_end_bounds(src, pos + 1);
        }
        let all = scan_from(src, pos, line).tokens;
        let rest = scan_from(src, s.next, s.next_line).tokens;
        assert forall|i: int| 0 <= i < all.len() implies #[trigger] all[i].lexeme.len() > 0 by {
            if s.token is Some && i == 0 {
            } else {
                let k = if s.token is Some { i - 1 } else { i };
                assert(all[i] == rest[k]);
            }
        }
    }
}

} // verus!
