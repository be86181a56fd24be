//! The meaning of a scan: a recursive description of which tokens, or which
//! error, a source text yields, and the laws that follow from it.
//!
//! The source is read byte by byte, each byte taken as the character with the
//! same code, so the model works on that sequence of characters.
use vstd::prelude::*;
use vstd::utf8::{encode_utf8, is_ascii_chars, is_ascii_chars_encode_utf8};
use crate::error::ErrorView;
use crate::text::{is_digit, word_char, word_start};
use crate::token::{built, kind1, kind2, spelling, spelling_round_trip, TokenType, TokenView};

verus! {

/// The source bytes, each read as the character with the same code.
pub open spec fn chars_of(bytes: Seq<u8>) -> Seq<char> {
    bytes.map_values(|b: u8| b as char)
}

/// The text of a source string as the scanner reads it: its UTF-8 bytes,
/// each taken as a character.
pub open spec fn source_text(s: Seq<char>) -> Seq<char> {
    chars_of(encode_utf8(s))
}

/// The number of newline characters in `t[a..b]`.
pub open spec fn newlines_in(t: Seq<char>, a: int, b: int) -> nat
    decreases b - a,
{
    if a >= b {
        0
    } else {
        newlines_in(t, a, b - 1) + if t[b - 1] == '\n' {
            1nat
        } else {
            0nat
        }
    }
}

/// The classes of characters that the scanner consumes in runs.
pub enum Run {
    /// ASCII digits (a number).
    Digits,
    /// Anything but a newline (a line comment).
    Line,
    /// Anything but a double quote (a string literal).
    Quoted,
    /// Alphanumeric characters (a word).
    Word,
}

/// Whether `c` belongs to the run class `r`.
pub open spec fn in_run(r: Run, c: char) -> bool {
    match r {
        Run::Digits => is_digit(c),
        Run::Line => c != '\n',
        Run::Quoted => c != '"',
        Run::Word => word_char(c),
    }
}

/// The length of the longest run of class `r` that starts at `i`.
pub open spec fn run_len(t: Seq<char>, i: int, r: Run) -> nat
    decreases t.len() - i,
{
    if 0 <= i < t.len() && in_run(r, t[i]) {
        1 + run_len(t, i + 1, r)
    } else {
        0
    }
}

/// A token together with where its text lies in the source: `t[start..end]`.
pub struct Lexed {
    pub token: TokenView,
    pub start: int,
    pub end: int,
}

/// What one step of the scanner does at a position.
pub enum Step {
    /// Insignificant input: go on at `next` on `line`.
    Skip { next: int, line: nat },
    /// A token; go on at its end on `line`.
    Emit { lexed: Lexed, line: nat },
    /// A fatal error.
    Fail { error: ErrorView },
}

/// Single-character punctuation, always a token of its own.
pub open spec fn is_single(c: char) -> bool {
    c == '(' || c == ')' || c == '{' || c == '}' || c == ',' || c == '.' || c == '-' || c == '+'
        || c == ';' || c == '*'
}

/// The operators that may take a following `=`.
pub open spec fn is_comparison(c: char) -> bool {
    c == '!' || c == '=' || c == '<' || c == '>'
}

/// A token of fixed spelling made of `t[a..b]`.
pub open spec fn emit_fixed(t: Seq<char>, a: int, b: int, line: nat) -> Step {
    match built(t.subrange(a, b), line) {
        Ok(tok) => Step::Emit { lexed: Lexed { token: tok, start: a, end: b }, line },
        Err(e) => Step::Fail { error: e },
    }
}

/// A token of kind `k` whose lexeme is `lexeme`, spanning `t[a..b]`.
pub open spec fn emit(k: TokenType, lexeme: Seq<char>, a: int, b: int, line: nat) -> Step {
    Step::Emit {
        lexed: Lexed { token: TokenView { kind: k, lexeme, line }, start: a, end: b },
        line,
    }
}

/// A number starting at `i`: digits, and a fraction only where a digit
/// follows the dot.
pub open spec fn number_step(t: Seq<char>, i: int, line: nat) -> Step {
    let j = i + 1 + run_len(t, i + 1, Run::Digits);
    if j < t.len() && t[j] == '.' {
        if j + 1 >= t.len() {
            Step::Fail { error: ErrorView::UnterminatedFloat { line } }
        } else if is_digit(t[j + 1]) {
            let e = j + 1 + run_len(t, j + 1, Run::Digits);
            emit(TokenType::Number, t.subrange(i, e), i, e, line)
        } else {
            emit(TokenType::Number, t.subrange(i, j), i, j, line)
        }
    } else {
        emit(TokenType::Number, t.subrange(i, j), i, j, line)
    }
}

/// A string literal whose opening quote is at `i`; its line is that of the
/// closing quote.
pub open spec fn string_step(t: Seq<char>, i: int, line: nat) -> Step {
    let close = i + 1 + run_len(t, i + 1, Run::Quoted);
    if close >= t.len() {
        Step::Fail {
            error: ErrorView::UnterminatedString { line: line + newlines_in(t, i + 1, t.len() as int) },
        }
    } else {
        let l = line + newlines_in(t, i + 1, close);
        emit(TokenType::String, t.subrange(i + 1, close), i, close + 1, l)
    }
}

/// One step of the scanner at position `i < t.len()` on line `line`.
pub open spec fn step(t: Seq<char>, i: int, line: nat) -> Step {
    let c = t[i];
    if is_single(c) {
        emit_fixed(t, i, i + 1, line)
    } else if is_comparison(c) {
        if i + 1 < t.len() && t[i + 1] == '=' {
            emit_fixed(t, i, i + 2, line)
        } else {
            emit_fixed(t, i, i + 1, line)
        }
    } else if c == '/' {
        if i + 1 < t.len() && t[i + 1] == '/' {
            Step::Skip { next: i + 2 + run_len(t, i + 2, Run::Line), line }
        } else {
            emit_fixed(t, i, i + 1, line)
        }
    } else if c == ' ' || c == '\r' || c == '\t' {
        Step::Skip { next: i + 1, line }
    } else if c == '\n' {
        Step::Skip { next: i + 1, line: line + 1 }
    } else if c == '"' {
        string_step(t, i, line)
    } else if is_digit(c) {
        number_step(t, i, line)
    } else if word_start(c) {
        emit_fixed(t, i, i + 1 + run_len(t, i + 1, Run::Word), line)
    } else {
        Step::Fail { error: ErrorView::InvalidToken { line, token: seq![c] } }
    }
}

/// The end-of-input token on `line`, at position `i`.
pub open spec fn eof_at(i: int, line: nat) -> Lexed {
    Lexed { token: TokenView { kind: TokenType::Eof, lexeme: Seq::empty(), line }, start: i, end: i }
}

/// The tokens read from position `i` on, starting on line `line`, ended by
/// the end-of-input token; or the first error.
pub open spec fn scan_from(t: Seq<char>, i: int, line: nat) -> Result<Seq<Lexed>, ErrorView>
    decreases t.len() - i,
{
    if i < 0 || i >= t.len() {
        Ok(seq![eof_at(i, line)])
    } else {
        match step(t, i, line) {
            Step::Skip { next, line: l } => if i < next <= t.len() {
                scan_from(t, next, l)
            } else {
                Ok(seq![eof_at(i, line)])
            },
            Step::Emit { lexed, line: l } => if i < lexed.end <= t.len() {
                match scan_from(t, lexed.end, l) {
                    Ok(rest) => Ok(seq![lexed] + rest),
                    Err(e) => Err(e),
                }
            } else {
                Ok(seq![eof_at(i, line)])
            },
            Step::Fail { error } => Err(error),
        }
    }
}

/// The tokens alone, without their positions.
pub open spec fn token_views(r: Result<Seq<Lexed>, ErrorView>) -> Result<Seq<TokenView>, ErrorView> {
    match r {
        Ok(ls) => Ok(ls.map_values(|l: Lexed| l.token)),
        Err(e) => Err(e),
    }
}

/// The scan of a whole source, from its start on line one.
pub open spec fn scan(t: Seq<char>) -> Result<Seq<Lexed>, ErrorView> {
    scan_from(t, 0, 1)
}

/// Newline counts add up over adjacent ranges.
pub proof fn lemma_newlines_split(t: Seq<char>, a: int, b: int, c: int)
    requires
        a <= b <= c,
    ensures
        newlines_in(t, a, c) == newlines_in(t, a, b) + newlines_in(t, b, c),
    decreases c - b,
{
    if b < c {
        lemma_newlines_split(t, a, b, c - 1);
    }
}

/// A range holds no more newlines than characters.
pub proof fn lemma_newlines_bound(t: Seq<char>, a: int, b: int)
    ensures
        a <= b ==> newlines_in(t, a, b) <= b - a,
    decreases b - a,
{
    if a < b {
        lemma_newlines_bound(t, a, b - 1);
    }
}

/// A run stays inside the text.
pub proof fn lemma_run_bound(t: Seq<char>, i: int, r: Run)
    ensures
        0 <= i <= t.len() ==> i + run_len(t, i, r) <= t.len(),
    decreases t.len() - i,
{
    if 0 <= i < t.len() && in_run(r, t[i]) {
        lemma_run_bound(t, i + 1, r);
    }
}

/// Every character of a run belongs to its class.
pub proof fn lemma_run_member(t: Seq<char>, i: int, r: Run, k: nat)
    requires
        0 <= i,
        k < run_len(t, i, r),
    ensures
        0 <= i + k < t.len(),
        in_run(r, t[i + k]),
    decreases k,
{
    if k > 0 {
        lemma_run_member(t, i + 1, r, (k - 1) as nat);
    }
}

/// Each step that does not fail moves forward and stays inside the text.
pub proof fn lemma_step_advances(t: Seq<char>, i: int, line: nat)
    requires
        0 <= i < t.len(),
    ensures
        match step(t, i, line) {
            Step::Skip { next, .. } => i < next <= t.len(),
            Step::Emit { lexed, .. } => i == lexed.start && i < lexed.end <= t.len(),
            Step::Fail { .. } => true,
        },
{
    lemma_run_bound(t, i + 1, Run::Digits);
    lemma_run_bound(t, i + 1, Run::Quoted);
    lemma_run_bound(t, i + 1, Run::Word);
    if i + 2 <= t.len() {
        lemma_run_bound(t, i + 2, Run::Line);
    }
    let j = i + 1 + run_len(t, i + 1, Run::Digits);
    if j + 1 <= t.len() {
        lemma_run_bound(t, j + 1, Run::Digits);
    }
}

/// Every character of a run belongs to its class, all at once.
pub proof fn lemma_run_chars(t: Seq<char>, i: int, r: Run)
    requires
        0 <= i,
    ensures
        forall|k: int| i <= k < i + run_len(t, i, r) ==> in_run(r, #[trigger] t[k]),
{
    assert forall|k: int| i <= k < i + run_len(t, i, r) implies in_run(r, #[trigger] t[k]) by {
        lemma_run_member(t, i, r, (k - i) as nat);
    }
}

/// A run ends at the end of the text or at a character outside its class.
pub proof fn lemma_run_stop(t: Seq<char>, i: int, r: Run)
    requires
        0 <= i,
    ensures
        i + run_len(t, i, r) < t.len() ==> !in_run(r, t[i + run_len(t, i, r)]),
    decreases t.len() - i,
{
    if 0 <= i < t.len() && in_run(r, t[i]) {
        lemma_run_stop(t, i + 1, r);
    }
}

/// A range without newline characters counts none.
pub proof fn lemma_no_newlines(t: Seq<char>, a: int, b: int)
    requires
        forall|k: int| a <= k < b ==> t[k] != '\n',
    ensures
        newlines_in(t, a, b) == 0,
    decreases b - a,
{
    if a < b {
        lemma_no_newlines(t, a, b - 1);
    }
}

/// A run that reaches the end of the text covers all of it.
pub proof fn lemma_run_to_end(t: Seq<char>, i: int, r: Run)
    requires
        0 <= i <= t.len(),
        forall|k: int| i <= k < t.len() ==> in_run(r, #[trigger] t[k]),
    ensures
        run_len(t, i, r) == t.len() - i,
    decreases t.len() - i,
{
    if i < t.len() {
        lemma_run_to_end(t, i + 1, r);
    }
}

/// What one step does to the line number: each step leaves it one more than
/// the newlines before the next position, and a token's line is one more than
/// the newlines before its first character, or, for a string literal, before
/// its closing quote.
pub proof fn lemma_step_lines(t: Seq<char>, i: int, line: nat)
    requires
        0 <= i < t.len(),
        line == 1 + newlines_in(t, 0, i),
    ensures
        match step(t, i, line) {
            Step::Skip { next, line: l } => l == 1 + newlines_in(t, 0, next),
            Step::Emit { lexed, line: l } => {
                &&& l == 1 + newlines_in(t, 0, lexed.end)
                &&& lexed.token.kind != TokenType::String ==> lexed.token.line == 1 + newlines_in(
                    t,
                    0,
                    lexed.start,
                )
                &&& lexed.token.kind == TokenType::String ==> lexed.token.line == 1
                    + newlines_in(t, 0, lexed.end - 1)
            },
            Step::Fail { .. } => true,
        },
{
    lemma_step_advances(t, i, line);
    let c = t[i];
    let n = t.len();
    lemma_newlines_split(t, 0, i, i + 1);
    assert(newlines_in(t, i, i) == 0);
    if is_single(c) || is_comparison(c) || (c == '/' && !(i + 1 < n && t[i + 1] == '/')) {
        let e = if is_comparison(c) && i + 1 < n && t[i + 1] == '=' {
            i + 2
        } else {
            i + 1
        };
        spelling_round_trip(TokenType::String, t.subrange(i, e));
        lemma_newlines_split(t, 0, i, e);
        lemma_no_newlines(t, i, e);
    } else if c == '/' {
        let next = i + 2 + run_len(t, i + 2, Run::Line);
        lemma_run_chars(t, i + 2, Run::Line);
        lemma_newlines_split(t, 0, i, next);
        lemma_no_newlines(t, i, next);
    } else if c == ' ' || c == '\r' || c == '\t' || c == '\n' {
    } else if c == '"' {
        let close = i + 1 + run_len(t, i + 1, Run::Quoted);
        lemma_run_bound(t, i + 1, Run::Quoted);
        lemma_run_stop(t, i + 1, Run::Quoted);
        if close < n {
            lemma_newlines_split(t, 0, i + 1, close);
            lemma_newlines_split(t, 0, close, close + 1);
            assert(newlines_in(t, close, close) == 0);
        }
    } else if is_digit(c) {
        let j = i + 1 + run_len(t, i + 1, Run::Digits);
        lemma_run_chars(t, i + 1, Run::Digits);
        lemma_run_bound(t, i + 1, Run::Digits);
        if j + 1 < n && t[j] == '.' && is_digit(t[j + 1]) {
            let e = j + 1 + run_len(t, j + 1, Run::Digits);
            lemma_run_chars(t, j + 1, Run::Digits);
            lemma_newlines_split(t, 0, i, e);
            lemma_no_newlines(t, i, e);
        } else {
            lemma_newlines_split(t, 0, i, j);
            lemma_no_newlines(t, i, j);
        }
    } else if word_start(c) {
        let e = i + 1 + run_len(t, i + 1, Run::Word);
        lemma_run_chars(t, i + 1, Run::Word);
        lemma_run_bound(t, i + 1, Run::Word);
        spelling_round_trip(TokenType::String, t.subrange(i, e));
        lemma_newlines_split(t, 0, i, e);
        lemma_no_newlines(t, i, e);
    }
}

/// Line numbers of a whole scan: every token of a successful scan carries
/// one more than the number of newlines before its first character; a string
/// literal instead carries one more than the newlines before its closing quote.
/// The end-of-input token counts every newline of the text.
pub proof fn lemma_scan_lines(t: Seq<char>, i: int, line: nat)
    requires
        0 <= i <= t.len(),
        line == 1 + newlines_in(t, 0, i),
    ensures
        scan_from(t, i, line) is Ok ==> {
            let ls = scan_from(t, i, line)->Ok_0;
            &&& ls.len() >= 1
            &&& forall|k: int|
                0 <= k < ls.len() && (#[trigger] ls[k]).token.kind != TokenType::String
                    ==> ls[k].token.line == 1 + newlines_in(t, 0, ls[k].start)
            &&& forall|k: int|
                0 <= k < ls.len() && (#[trigger] ls[k]).token.kind == TokenType::String
                    ==> ls[k].token.line == 1 + newlines_in(t, 0, ls[k].end - 1)
            &&& ls.last().token.line == 1 + newlines_in(t, 0, t.len() as int)
        },
    decreases t.len() - i,
{
    if i < t.len() {
        lemma_step_lines(t, i, line);
        lemma_step_advances(t, i, line);
        match step(t, i, line) {
            Step::Skip { next, line: l } => {
                lemma_scan_lines(t, next, l);
            },
            Step::Emit { lexed, line: l } => {
                lemma_scan_lines(t, lexed.end, l);
                if scan_from(t, lexed.end, l) is Ok {
                    let rest = scan_from(t, lexed.end, l)->Ok_0;
                    let ls = seq![lexed] + rest;
                    assert(ls.last() == rest.last());
                    assert(ls[0] == lexed);
                    assert forall|k: int| 0 < k < ls.len() implies #[trigger] ls[k] == rest[k - 1] by {}
                }
            },
            Step::Fail { .. } => {},
        }
    }
}

/// Line counting over a whole source, from its start on line one.
pub proof fn scan_line_numbers(t: Seq<char>)
    ensures
        scan(t) is Ok ==> {
            let ls = scan(t)->Ok_0;
            &&& forall|k: int|
                0 <= k < ls.len() && (#[trigger] ls[k]).token.kind != TokenType::String
                    ==> ls[k].token.line == 1 + newlines_in(t, 0, ls[k].start)
            &&& forall|k: int|
                0 <= k < ls.len() && (#[trigger] ls[k]).token.kind == TokenType::String
                    ==> ls[k].token.line == 1 + newlines_in(t, 0, ls[k].end - 1)
            &&& ls.last().token.line == 1 + newlines_in(t, 0, t.len() as int)
        },
{
    lemma_scan_lines(t, 0, 1);
}

/// The end-of-input token on `line`, as a value.
pub open spec fn eof_view(line: nat) -> TokenView {
    TokenView { kind: TokenType::Eof, lexeme: Seq::empty(), line }
}

/// The reserved words.
pub open spec fn is_keyword(k: TokenType) -> bool {
    match k {
        TokenType::And | TokenType::Class | TokenType::Else | TokenType::False | TokenType::Fun
        | TokenType::For | TokenType::If | TokenType::Nil | TokenType::Or | TokenType::Print
        | TokenType::Return | TokenType::Super | TokenType::This | TokenType::True
        | TokenType::Var | TokenType::While => true,
        _ => false,
    }
}

/// Scanning a lone character of fixed spelling yields that token on line
/// one, then the end-of-input token.
pub proof fn single_char_scan(c: char)
    requires
        kind1(c) is Some,
    ensures
        token_views(scan(seq![c])) == Ok::<Seq<TokenView>, ErrorView>(
            seq![TokenView { kind: kind1(c)->Some_0, lexeme: seq![c], line: 1 }, eof_view(1)],
        ),
{
    let t = seq![c];
    assert(t.subrange(0, 1) =~= t);
    let first = Lexed {
        token: TokenView { kind: kind1(c)->Some_0, lexeme: seq![c], line: 1 },
        start: 0,
        end: 1,
    };
    assert(step(t, 0, 1) == Step::Emit { lexed: first, line: 1 });
    assert(scan_from(t, 1, 1) == Ok::<Seq<Lexed>, ErrorView>(seq![eof_at(1, 1)]));
    assert(seq![first] + seq![eof_at(1, 1)] =~= seq![first, eof_at(1, 1)]);
    assert(seq![first, eof_at(1, 1)].map_values(|l: Lexed| l.token) =~= seq![
        first.token,
        eof_view(1),
    ]);
}

/// Maximal munch: an operator that may take `=` always does when `=`
/// follows, giving the two-character token.
pub proof fn maximal_munch(t: Seq<char>, i: int, line: nat)
    requires
        0 <= i,
        i + 1 < t.len(),
        is_comparison(t[i]),
        t[i + 1] == '=',
    ensures
        kind2(t[i], '=') is Some,
        step(t, i, line) == emit(kind2(t[i], '=')->Some_0, seq![t[i], '='], i, i + 2, line),
{
    assert(t.subrange(i, i + 2) =~= seq![t[i], '=']);
}

/// A reserved word alone scans as its keyword, with its spelling as the
/// lexeme, then the end-of-input token.
pub proof fn keyword_scan(k: TokenType)
    requires
        is_keyword(k),
    ensures
        token_views(scan(spelling(k))) == Ok::<Seq<TokenView>, ErrorView>(
            seq![TokenView { kind: k, lexeme: spelling(k), line: 1 }, eof_view(1)],
        ),
{
    let t = spelling(k);
    let n = t.len() as int;
    assert(n >= 2);
    assert forall|j: int| 0 <= j < n implies 'a' <= #[trigger] t[j] && t[j] <= 'z' by {
        match k {
            TokenType::And | TokenType::Class | TokenType::Else | TokenType::False
            | TokenType::Fun | TokenType::For | TokenType::If | TokenType::Nil | TokenType::Or
            | TokenType::Print | TokenType::Return | TokenType::Super | TokenType::This
            | TokenType::True | TokenType::Var | TokenType::While => {},
            _ => {},
        }
    }
    lemma_run_to_end(t, 1, Run::Word);
    assert(t.subrange(0, n) =~= t);
    spelling_round_trip(k, t);
    let first = Lexed { token: TokenView { kind: k, lexeme: t, line: 1 }, start: 0, end: n };
    assert(step(t, 0, 1) == Step::Emit { lexed: first, line: 1 });
    assert(scan_from(t, n, 1) == Ok::<Seq<Lexed>, ErrorView>(seq![eof_at(n, 1)]));
    assert(seq![first] + seq![eof_at(n, 1)] =~= seq![first, eof_at(n, 1)]);
    assert(seq![first, eof_at(n, 1)].map_values(|l: Lexed| l.token) =~= seq![
        first.token,
        eof_view(1),
    ]);
}

/// Once the cursor is at the end, scanning again yields only the
/// end-of-input token on the same line; the empty text always yields just
/// the end-of-input token on line one.
pub proof fn scan_at_end(t: Seq<char>, line: nat)
    ensures
        token_views(scan_from(t, t.len() as int, line)) == Ok::<Seq<TokenView>, ErrorView>(
            seq![eof_view(line)],
        ),
        token_views(scan(Seq::<char>::empty())) == Ok::<Seq<TokenView>, ErrorView>(
            seq![eof_view(1)],
        ),
{
    assert(seq![eof_at(t.len() as int, line)].map_values(|l: Lexed| l.token) =~= seq![
        eof_view(line),
    ]);
    assert(seq![eof_at(0, 1)].map_values(|l: Lexed| l.token) =~= seq![eof_view(1)]);
}

/// On ASCII text the scanner reads exactly the characters of the source.
pub proof fn ascii_source_text(s: Seq<char>)
    requires
        is_ascii_chars(s),
    ensures
        source_text(s) == s,
{
    is_ascii_chars_encode_utf8(s);
    assert forall|i: int| 0 <= i < s.len() implies #[trigger] source_text(s)[i] == s[i] by {
        let c = s[i];
        assert('\0' <= c <= '\u{7f}');
        let b = c as u8;
        assert(b as char == c);
    }
    assert(source_text(s) =~= s);
}

} // verus!
