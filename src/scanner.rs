//! The scanner: a cursor over the source bytes that yields tokens.
use vstd::prelude::*;
use crate::error::{ErrorView, LoxError};
use crate::lexical::{
    emit_fixed, eof_at, lemma_newlines_bound, lemma_newlines_split, lemma_step_advances,
    newlines_in, number_step, run_len, scan_from, source_text, step, string_step, token_views,
    Lexed, Run, Step,
};
use crate::text::{digit, is_alphabetic, is_alphanumeric, is_digit, push_char};
use crate::token::{Token, TokenType, TokenView};

verus! {

/// The tokens of a scan result, without their positions, as values.
pub open spec fn scanned(r: Result<Vec<Token>, LoxError>) -> Result<Seq<TokenView>, ErrorView> {
    match r {
        Ok(v) => Ok(views(v@)),
        Err(e) => Err(e@),
    }
}

/// The values of a sequence of tokens.
pub open spec fn views(ts: Seq<Token>) -> Seq<TokenView> {
    ts.map_values(|t: Token| t@)
}

/// `p` put in front of a successful scan; an error stays as it is.
pub open spec fn prefixed(p: Seq<TokenView>, r: Result<Seq<TokenView>, ErrorView>) -> Result<
    Seq<TokenView>,
    ErrorView,
> {
    match r {
        Ok(s) => Ok(p + s),
        Err(e) => Err(e),
    }
}

/// The view of the tokens after an emitting step: the new token joins the
/// prefix.
proof fn lemma_emit_views(t: Seq<char>, i: int, line: nat, before: Seq<Token>, token: Token)
    requires
        0 <= i < t.len(),
        step(t, i, line) is Emit,
        token@ == step(t, i, line)->Emit_lexed.token,
        i < step(t, i, line)->Emit_lexed.end <= t.len(),
    ensures
        prefixed(views(before), token_views(scan_from(t, i, line))) == prefixed(
            views(before.push(token)),
            token_views(
                scan_from(t, step(t, i, line)->Emit_lexed.end, step(t, i, line)->Emit_line),
            ),
        ),
{
    let lexed = step(t, i, line)->Emit_lexed;
    let rest = scan_from(t, lexed.end, step(t, i, line)->Emit_line);
    assert(views(before.push(token)) =~= views(before).push(token@));
    if rest is Ok {
        let ls = rest->Ok_0;
        assert((seq![lexed] + ls).map_values(|l: Lexed| l.token) =~= seq![lexed.token] + ls.map_values(
            |l: Lexed| l.token,
        ));
        assert(views(before) + (seq![lexed.token] + ls.map_values(|l: Lexed| l.token))
            =~= views(before).push(token@) + ls.map_values(|l: Lexed| l.token));
    }
}

/// The cursor state of a scan over one source text.
pub struct Scanner {
    source: String,
    start: usize,
    current: usize,
    line: usize,
}

impl Default for Scanner {
    /// A scanner over the empty text.
    fn default() -> (r: Scanner)
        ensures
            r.text() == Seq::<char>::empty(),
            r.cursor() == 0,
            r.line_no() == 1,
            r.wf(),
    {
        let r = Scanner { source: String::new(), start: 0, current: 0, line: 1 };
        assert(r.text() =~= Seq::<char>::empty());
        r
    }
}

impl Scanner {
    /// The source as characters, one for each byte.
    pub closed spec fn text(&self) -> Seq<char> {
        source_text(self.source@)
    }

    /// The next unread position.
    pub closed spec fn cursor(&self) -> int {
        self.current as int
    }

    /// The current line number.
    pub closed spec fn line_no(&self) -> nat {
        self.line as nat
    }

    /// The cursor lies within the text, and the line number is one more than
    /// the newlines read so far.
    pub closed spec fn wf(&self) -> bool {
        &&& self.start <= self.current <= self.text().len()
        &&& self.text().len() < usize::MAX
        &&& self.line == 1 + newlines_in(self.text(), 0, self.current as int)
    }

    spec fn bounded(&self) -> bool {
        &&& self.start <= self.current <= self.text().len()
        &&& self.text().len() < usize::MAX
    }

    /// A scanner at the start of `source`, on line one.
    pub fn new(source: String) -> (r: Scanner)
        requires
            source_text(source@).len() < usize::MAX,
        ensures
            r.text() == source_text(source@),
            r.cursor() == 0,
            r.line_no() == 1,
            r.wf(),
    {
        let mut scanner = Scanner::default();
        scanner.source = source;
        scanner
    }

    fn len(&self) -> (r: usize)
        requires
            self.bounded(),
        ensures
            r == self.text().len(),
    {
        self.source.as_str().len()
    }

    fn is_at_end(&self) -> (r: bool)
        requires
            self.bounded(),
        ensures
            r == (self.current >= self.text().len()),
    {
        self.current >= self.len()
    }

    fn source_at(&self, i: usize) -> (r: char)
        requires
            i < self.text().len(),
        ensures
            r == self.text()[i as int],
    {
        self.source.as_str().as_bytes()[i] as char
    }

    /// Look at the next character without consuming it; NUL at the end.
    fn peek(&self) -> (r: char)
        requires
            self.bounded(),
        ensures
            r == if self.current < self.text().len() {
                self.text()[self.current as int]
            } else {
                '\0'
            },
    {
        if self.is_at_end() {
            '\0'
        } else {
            self.source_at(self.current)
        }
    }

    /// The character after the next one; there must be one.
    fn peek_next(&self) -> (r: Result<char, LoxError>)
        requires
            self.bounded(),
        ensures
            self.current + 1 >= self.text().len() ==> r == Err::<char, LoxError>(
                LoxError::UnterminatedFloat { line: self.line },
            ),
            self.current + 1 < self.text().len() ==> r == Ok::<char, LoxError>(
                self.text()[self.current + 1],
            ),
    {
        if self.current + 1 >= self.len() {
            Err(LoxError::UnterminatedFloat { line: self.line })
        } else {
            Ok(self.source_at(self.current + 1))
        }
    }

    /// Consume and return the next character.
    fn pop(&mut self) -> (r: char)
        requires
            old(self).bounded(),
            old(self).current < old(self).text().len(),
        ensures
            r == old(self).text()[old(self).current as int],
            final(self).current == old(self).current + 1,
            final(self).source == old(self).source,
            final(self).start == old(self).start,
            final(self).line == old(self).line,
    {
        self.current = self.current + 1;
        self.source_at(self.current - 1)
    }

    /// Consume the next character if it is `exp`.
    fn pop_if_exp_is_next(&mut self, exp: char) -> (r: Option<char>)
        requires
            old(self).bounded(),
        ensures
            final(self).source == old(self).source,
            final(self).start == old(self).start,
            final(self).line == old(self).line,
            if old(self).current < old(self).text().len() && old(self).text()[old(
                self,
            ).current as int] == exp {
                r == Some(exp) && final(self).current == old(self).current + 1
            } else {
                r.is_none() && final(self).current == old(self).current
            },
    {
        if self.is_at_end() || self.source_at(self.current) != exp {
            return None;
        }
        self.current = self.current + 1;
        Some(exp)
    }

    /// The characters `text[a..b]` as a string.
    fn slice(&self, a: usize, b: usize) -> (r: String)
        requires
            a <= b <= self.text().len(),
        ensures
            r@ == self.text().subrange(a as int, b as int),
    {
        let mut s = String::new();
        let mut i: usize = a;
        while i < b
            invariant
                a <= i <= b <= self.text().len(),
                s@ == self.text().subrange(a as int, i as int),
            decreases b - i,
        {
            push_char(&mut s, self.source_at(i));
            i = i + 1;
            assert(s@ =~= self.text().subrange(a as int, i as int));
        }
        s
    }

    /// A token of fixed spelling made of `text[start..current]`.
    fn fixed(&self) -> (r: Result<Option<Token>, LoxError>)
        requires
            self.bounded(),
        ensures
            match emit_fixed(self.text(), self.start as int, self.current as int, self.line as nat) {
                Step::Emit { lexed, .. } => r is Ok && r->Ok_0 is Some && r->Ok_0->Some_0@
                    == lexed.token,
                Step::Fail { error } => r is Err && r->Err_0@ == error,
                Step::Skip { .. } => false,
            },
    {
        let lexeme = self.slice(self.start, self.current);
        match Token::build(lexeme.as_str(), self.line) {
            Ok(t) => Ok(Some(t)),
            Err(e) => Err(e),
        }
    }

    /// The rest of a string literal whose opening quote was just consumed:
    /// its content, without the quotes.
    fn parse_string(&mut self) -> (r: Result<String, LoxError>)
        requires
            old(self).wf(),
            old(self).current == old(self).start + 1,
            old(self).text()[old(self).start as int] == '"',
        ensures
            final(self).wf(),
            final(self).source == old(self).source,
            final(self).start == old(self).start,
            ({
                let t = old(self).text();
                let i = old(self).start as int;
                match string_step(t, i, old(self).line as nat) {
                    Step::Emit { lexed, line } => r is Ok && r->Ok_0@ == lexed.token.lexeme
                        && final(self).current == lexed.end && final(self).line == line
                        && lexed.token.line == line,
                    Step::Fail { error } => r is Err && r->Err_0@ == error,
                    Step::Skip { .. } => false,
                }
            }),
    {
        let ghost t = self.text();
        let ghost i = self.start as int;
        let ghost l0 = self.line;
        proof {
            lemma_newlines_split(t, 0, i, i + 1);
            assert(newlines_in(t, i, i) == 0);
            assert(newlines_in(t, i, i + 1) == 0);
        }
        while self.peek() != '"'
            invariant
                self.bounded(),
                self.source == old(self).source,
                self.start == old(self).start,
                self.text() == t,
                t == old(self).text(),
                l0 == old(self).line,
                newlines_in(t, i, i + 1) == 0,
                self.start == i,
                i + 1 <= self.current,
                self.line == 1 + newlines_in(t, 0, self.current as int),
                l0 == 1 + newlines_in(t, 0, i + 1),
                run_len(t, i + 1, Run::Quoted) == (self.current - i - 1) + run_len(
                    t,
                    self.current as int,
                    Run::Quoted,
                ),
            decreases t.len() - self.current,
        {
            if self.is_at_end() {
                proof {
                    lemma_newlines_split(t, 0, i + 1, t.len() as int);
                    assert(run_len(t, t.len() as int, Run::Quoted) == 0);
                }
                return Err(LoxError::UnterminatedString { line: self.line });
            }
            if self.peek() == '\n' {
                proof {
                    lemma_newlines_bound(t, 0, self.current as int);
                }
                self.line = self.line + 1;
            }
            self.pop();
        }
        // Advance past the closing quote
        self.pop();
        proof {
            lemma_newlines_split(t, 0, i + 1, self.current - 1);
        }
        Ok(self.slice(self.start + 1, self.current - 1))
    }

    /// The rest of a number whose first digit was just consumed.
    fn parse_number(&mut self) -> (r: Result<String, LoxError>)
        requires
            old(self).wf(),
            old(self).current == old(self).start + 1,
            is_digit(old(self).text()[old(self).start as int]),
        ensures
            final(self).wf(),
            final(self).source == old(self).source,
            final(self).start == old(self).start,
            final(self).line == old(self).line,
            match number_step(old(self).text(), old(self).start as int, old(self).line as nat) {
                Step::Emit { lexed, .. } => r is Ok && r->Ok_0@ == lexed.token.lexeme
                    && final(self).current == lexed.end,
                Step::Fail { error } => r is Err && r->Err_0@ == error,
                Step::Skip { .. } => false,
            },
    {
        let ghost t = self.text();
        let ghost i = self.start as int;
        while digit(self.peek())
            invariant
                self.wf(),
                self.source == old(self).source,
                self.start == old(self).start,
                self.line == old(self).line,
                t == old(self).text(),
                i == old(self).start,
                i + 1 <= self.current,
                run_len(t, i + 1, Run::Digits) == (self.current - i - 1) + run_len(
                    t,
                    self.current as int,
                    Run::Digits,
                ),
            decreases t.len() - self.current,
        {
            self.pop();
        }
        assert(run_len(t, self.current as int, Run::Digits) == 0);
        let ghost j = self.current as int;
        if self.peek() == '.' {
            match self.peek_next() {
                Err(e) => {
                    return Err(e);
                },
                Ok(n) => {
                    if digit(n) {
                        self.pop();
                        while digit(self.peek())
                            invariant
                                self.wf(),
                                self.source == old(self).source,
                                self.start == old(self).start,
                                self.line == old(self).line,
                                t == old(self).text(),
                                i == old(self).start,
                                j + 1 <= self.current,
                                run_len(t, j + 1, Run::Digits) == (self.current - j - 1)
                                    + run_len(t, self.current as int, Run::Digits),
                            decreases t.len() - self.current,
                        {
                            self.pop();
                        }
                        assert(run_len(t, self.current as int, Run::Digits) == 0);
                    }
                },
            }
        }
        Ok(self.slice(self.start, self.current))
    }

    /// The rest of a word whose first letter was just consumed.
    fn parse_identifier(&mut self) -> (r: String)
        requires
            old(self).wf(),
            old(self).current == old(self).start + 1,
        ensures
            final(self).wf(),
            final(self).source == old(self).source,
            final(self).start == old(self).start,
            final(self).line == old(self).line,
            final(self).current == old(self).current + run_len(
                old(self).text(),
                old(self).current as int,
                Run::Word,
            ),
            r@ == old(self).text().subrange(old(self).start as int, final(self).current as int),
    {
        let ghost t = self.text();
        let ghost c0 = self.current as int;
        while !self.is_at_end() && is_alphanumeric(self.peek())
            invariant
                self.wf(),
                self.source == old(self).source,
                self.start == old(self).start,
                self.line == old(self).line,
                t == old(self).text(),
                c0 == old(self).current,
                c0 <= self.current,
                run_len(t, c0, Run::Word) == (self.current - c0) + run_len(
                    t,
                    self.current as int,
                    Run::Word,
                ),
            decreases t.len() - self.current,
        {
            self.pop();
        }
        assert(run_len(t, self.current as int, Run::Word) == 0);
        self.slice(self.start, self.current)
    }

    /// Read one token, or skip one piece of insignificant input, at the cursor.
    fn scan_token(&mut self) -> (r: Result<Option<Token>, LoxError>)
        requires
            old(self).wf(),
            old(self).start == old(self).current,
            old(self).current < old(self).text().len(),
        ensures
            final(self).wf(),
            final(self).source == old(self).source,
            match step(old(self).text(), old(self).current as int, old(self).line as nat) {
                Step::Skip { next, line } => r == Ok::<Option<Token>, LoxError>(None)
                    && final(self).current == next && final(self).line == line,
                Step::Emit { lexed, line } => r is Ok && r->Ok_0 is Some && r->Ok_0->Some_0@
                    == lexed.token && final(self).current == lexed.end && final(self).line == line,
                Step::Fail { error } => r is Err && r->Err_0@ == error,
            },
    {
        let ghost t = self.text();
        let ghost i = self.current as int;
        proof {
            lemma_newlines_bound(t, 0, i);
        }
        let c = self.pop();
        match c {
            '(' | ')' | '{' | '}' | ',' | '.' | '-' | '+' | ';' | '*' => self.fixed(),
            '!' | '=' | '<' | '>' => {
                self.pop_if_exp_is_next('=');
                self.fixed()
            },
            '/' => match self.pop_if_exp_is_next('/') {
                Some(_) => {
                    assert(newlines_in(t, 0, i + 1) == newlines_in(t, 0, i));
                    assert(newlines_in(t, 0, i + 2) == newlines_in(t, 0, i + 1));
                    while self.peek() != '\n' && !self.is_at_end()
                        invariant
                            self.bounded(),
                            self.source == old(self).source,
                            self.start == old(self).start,
                            self.line == old(self).line,
                            t == old(self).text(),
                            i == old(self).start,
                            i + 2 <= self.current,
                            self.line == 1 + newlines_in(t, 0, self.current as int),
                            run_len(t, i + 2, Run::Line) == (self.current - i - 2) + run_len(
                                t,
                                self.current as int,
                                Run::Line,
                            ),
                        decreases t.len() - self.current,
                    {
                        self.pop();
                    }
                    assert(run_len(t, self.current as int, Run::Line) == 0);
                    Ok(None)
                },
                None => self.fixed(),
            },
            ' ' | '\r' | '\t' => Ok(None),
            '\n' => {
                self.line = self.line + 1;
                Ok(None)
            },
            '"' => match self.parse_string() {
                Ok(s) => Ok(Some(Token::new(TokenType::String, s, self.line))),
                Err(e) => Err(e),
            },
            _ => {
                if digit(c) {
                    match self.parse_number() {
                        Ok(s) => Ok(Some(Token::new(TokenType::Number, s, self.line))),
                        Err(e) => Err(e),
                    }
                } else if is_alphabetic(c) {
                    let word = self.parse_identifier();
                    match Token::build(word.as_str(), self.line) {
                        Ok(tok) => Ok(Some(tok)),
                        Err(e) => Err(e),
                    }
                } else {
                    let mut token = String::new();
                    push_char(&mut token, c);
                    assert(token@ =~= seq![c]);
                    Err(LoxError::InvalidToken { line: self.line, token })
                }
            },
        }
    }

    /// Scan the rest of the source: every token up to the end, followed by
    /// the end-of-input token; or the first error, with no tokens.
    pub fn scan_tokens(&mut self) -> (r: Result<Vec<Token>, LoxError>)
        requires
            old(self).wf(),
        ensures
            final(self).wf(),
            final(self).text() == old(self).text(),
            scanned(r) == token_views(
                scan_from(old(self).text(), old(self).cursor(), old(self).line_no()),
            ),
            r is Ok ==> final(self).cursor() == final(self).text().len(),
            old(self).cursor() == old(self).text().len() ==> final(self).line_no() == old(
                self,
            ).line_no(),
    {
        let ghost t = self.text();
        let mut tokens: Vec<Token> = Vec::new();
        proof {
            let whole = token_views(scan_from(t, self.current as int, self.line as nat));
            if whole is Ok {
                assert(views(tokens@) + whole->Ok_0 =~= whole->Ok_0);
            }
        }
        while !self.is_at_end()
            invariant
                self.wf(),
                self.source == old(self).source,
                t == old(self).text(),
                old(self).current == t.len() ==> self.current == t.len() && self.line == old(
                    self,
                ).line,
                token_views(scan_from(t, old(self).current as int, old(self).line as nat))
                    == prefixed(
                    views(tokens@),
                    token_views(scan_from(t, self.current as int, self.line as nat)),
                ),
            decreases t.len() - self.current,
        {
            self.start = self.current;
            let ghost cur = self.current as int;
            let ghost line = self.line as nat;
            let ghost before = tokens@;
            proof {
                lemma_step_advances(t, cur, line);
            }
            match self.scan_token() {
                Err(e) => {
                    return Err(e);
                },
                Ok(Some(token)) => {
                    tokens.push(token);
                    proof {
                        lemma_emit_views(t, cur, line, before, token);
                    }
                },
                Ok(None) => {},
            }
        }
        let ghost before = tokens@;
        tokens.push(Token::new(TokenType::Eof, String::new(), self.line));
        proof {
            assert(views(tokens@) =~= views(before).push(tokens@.last()@));
            assert(views(before) + seq![tokens@.last()@] =~= views(before).push(tokens@.last()@));
            let eof = eof_at(self.current as int, self.line as nat);
            assert(seq![eof].map_values(|l: Lexed| l.token) =~= seq![eof.token]);
        }
        Ok(tokens)
    }
}

} // verus!
