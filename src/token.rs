//! Token kinds, their fixed spellings, and the token record.
use vstd::prelude::*;
use crate::error::{ErrorView, LoxError};

verus! {

/// The closed set of lexical categories.
#[derive(Debug, PartialEq, Eq, Clone, Copy)]
pub enum TokenType {
    // Single-character tokens
    LeftParen,
    RightParen,
    LeftBrace,
    RightBrace,
    Comma,
    Dot,
    Minus,
    Plus,
    Semicolon,
    Slash,
    Star,
    // One or two character tokens
    Bang,
    BangEqual,
    Equal,
    EqualEqual,
    Greater,
    GreaterEqual,
    Less,
    LessEqual,
    // Literals
    Identifier,
    String,
    Number,
    // Keywords
    And,
    Class,
    Else,
    False,
    Fun,
    For,
    If,
    Nil,
    Or,
    Print,
    Return,
    Super,
    This,
    True,
    Var,
    While,
    // End of input
    Eof,
}

/// The kind spelled by a one-character lexeme.
pub open spec fn kind1(a: char) -> Option<TokenType> {
    match a {
        '(' => Some(TokenType::LeftParen),
        ')' => Some(TokenType::RightParen),
        '{' => Some(TokenType::LeftBrace),
        '}' => Some(TokenType::RightBrace),
        ',' => Some(TokenType::Comma),
        '.' => Some(TokenType::Dot),
        '-' => Some(TokenType::Minus),
        '+' => Some(TokenType::Plus),
        ';' => Some(TokenType::Semicolon),
        '/' => Some(TokenType::Slash),
        '*' => Some(TokenType::Star),
        '!' => Some(TokenType::Bang),
        '=' => Some(TokenType::Equal),
        '>' => Some(TokenType::Greater),
        '<' => Some(TokenType::Less),
        _ => None,
    }
}

/// The kind spelled by a two-character lexeme.
pub open spec fn kind2(a: char, b: char) -> Option<TokenType> {
    match (a, b) {
        ('!', '=') => Some(TokenType::BangEqual),
        ('=', '=') => Some(TokenType::EqualEqual),
        ('>', '=') => Some(TokenType::GreaterEqual),
        ('<', '=') => Some(TokenType::LessEqual),
        ('i', 'f') => Some(TokenType::If),
        ('o', 'r') => Some(TokenType::Or),
        _ => None,
    }
}

/// The kind spelled by a three-character lexeme.
pub open spec fn kind3(a: char, b: char, c: char) -> Option<TokenType> {
    match (a, b, c) {
        ('a', 'n', 'd') => Some(TokenType::And),
        ('f', 'u', 'n') => Some(TokenType::Fun),
        ('f', 'o', 'r') => Some(TokenType::For),
        ('n', 'i', 'l') => Some(TokenType::Nil),
        ('v', 'a', 'r') => Some(TokenType::Var),
        ('E', 'O', 'F') => Some(TokenType::Eof),
        _ => None,
    }
}

/// The kind spelled by a four-character lexeme.
pub open spec fn kind4(a: char, b: char, c: char, d: char) -> Option<TokenType> {
    match (a, b, c, d) {
        ('e', 'l', 's', 'e') => Some(TokenType::Else),
        ('t', 'r', 'u', 'e') => Some(TokenType::True),
        ('t', 'h', 'i', 's') => Some(TokenType::This),
        _ => None,
    }
}

/// The kind spelled by a five-character lexeme.
pub open spec fn kind5(a: char, b: char, c: char, d: char, e: char) -> Option<TokenType> {
    match (a, b, c, d, e) {
        ('c', 'l', 'a', 's', 's') => Some(TokenType::Class),
        ('f', 'a', 'l', 's', 'e') => Some(TokenType::False),
        ('p', 'r', 'i', 'n', 't') => Some(TokenType::Print),
        ('s', 'u', 'p', 'e', 'r') => Some(TokenType::Super),
        ('w', 'h', 'i', 'l', 'e') => Some(TokenType::While),
        _ => None,
    }
}

/// The kind spelled by a six-character lexeme.
pub open spec fn kind6(a: char, b: char, c: char, d: char, e: char, f: char) -> Option<
    TokenType,
> {
    match (a, b, c, d, e, f) {
        ('r', 'e', 't', 'u', 'r', 'n') => Some(TokenType::Return),
        _ => None,
    }
}

/// The kind whose canonical spelling is exactly `s`, if there is one.
pub open spec fn fixed_kind(s: Seq<char>) -> Option<TokenType> {
    if s.len() == 1 {
        kind1(s[0])
    } else if s.len() == 2 {
        kind2(s[0], s[1])
    } else if s.len() == 3 {
        kind3(s[0], s[1], s[2])
    } else if s.len() == 4 {
        kind4(s[0], s[1], s[2], s[3])
    } else if s.len() == 5 {
        kind5(s[0], s[1], s[2], s[3], s[4])
    } else if s.len() == 6 {
        kind6(s[0], s[1], s[2], s[3], s[4], s[5])
    } else {
        None
    }
}

fn lookup1(a: char) -> (r: Option<TokenType>)
    ensures
        r == kind1(a),
{
    match a {
        '(' => Some(TokenType::LeftParen),
        ')' => Some(TokenType::RightParen),
        '{' => Some(TokenType::LeftBrace),
        '}' => Some(TokenType::RightBrace),
        ',' => Some(TokenType::Comma),
        '.' => Some(TokenType::Dot),
        '-' => Some(TokenType::Minus),
        '+' => Some(TokenType::Plus),
        ';' => Some(TokenType::Semicolon),
        '/' => Some(TokenType::Slash),
        '*' => Some(TokenType::Star),
        '!' => Some(TokenType::Bang),
        '=' => Some(TokenType::Equal),
        '>' => Some(TokenType::Greater),
        '<' => Some(TokenType::Less),
        _ => None,
    }
}

fn lookup2(a: char, b: char) -> (r: Option<TokenType>)
    ensures
        r == kind2(a, b),
{
    match (a, b) {
        ('!', '=') => Some(TokenType::BangEqual),
        ('=', '=') => Some(TokenType::EqualEqual),
        ('>', '=') => Some(TokenType::GreaterEqual),
        ('<', '=') => Some(TokenType::LessEqual),
        ('i', 'f') => Some(TokenType::If),
        ('o', 'r') => Some(TokenType::Or),
        _ => None,
    }
}

fn lookup3(a: char, b: char, c: char) -> (r: Option<TokenType>)
    ensures
        r == kind3(a, b, c),
{
    match (a, b, c) {
        ('a', 'n', 'd') => Some(TokenType::And),
        ('f', 'u', 'n') => Some(TokenType::Fun),
        ('f', 'o', 'r') => Some(TokenType::For),
        ('n', 'i', 'l') => Some(TokenType::Nil),
        ('v', 'a', 'r') => Some(TokenType::Var),
        ('E', 'O', 'F') => Some(TokenType::Eof),
        _ => None,
    }
}

fn lookup4(a: char, b: char, c: char, d: char) -> (r: Option<TokenType>)
    ensures
        r == kind4(a, b, c, d),
{
    match (a, b, c, d) {
        ('e', 'l', 's', 'e') => Some(TokenType::Else),
        ('t', 'r', 'u', 'e') => Some(TokenType::True),
        ('t', 'h', 'i', 's') => Some(TokenType::This),
        _ => None,
    }
}

fn lookup5(a: char, b: char, c: char, d: char, e: char) -> (r: Option<TokenType>)
    ensures
        r == kind5(a, b, c, d, e),
{
    match (a, b, c, d, e) {
        ('c', 'l', 'a', 's', 's') => Some(TokenType::Class),
        ('f', 'a', 'l', 's', 'e') => Some(TokenType::False),
        ('p', 'r', 'i', 'n', 't') => Some(TokenType::Print),
        ('s', 'u', 'p', 'e', 'r') => Some(TokenType::Super),
        ('w', 'h', 'i', 'l', 'e') => Some(TokenType::While),
        _ => None,
    }
}

fn lookup6(a: char, b: char, c: char, d: char, e: char, f: char) -> (r: Option<TokenType>)
    ensures
        r == kind6(a, b, c, d, e, f),
{
    match (a, b, c, d, e, f) {
        ('r', 'e', 't', 'u', 'r', 'n') => Some(TokenType::Return),
        _ => None,
    }
}

/// Identifier, String and Number have no canonical spelling.
pub open spec fn has_spelling(k: TokenType) -> bool {
    !(k is Identifier || k is String || k is Number)
}

/// The canonical spelling of a kind (empty for the three literal kinds).
pub open spec fn spelling(k: TokenType) -> Seq<char> {
    match k {
        TokenType::LeftParen => seq!['('],
        TokenType::RightParen => seq![')'],
        TokenType::LeftBrace => seq!['{'],
        TokenType::RightBrace => seq!['}'],
        TokenType::Comma => seq![','],
        TokenType::Dot => seq!['.'],
        TokenType::Minus => seq!['-'],
        TokenType::Plus => seq!['+'],
        TokenType::Semicolon => seq![';'],
        TokenType::Slash => seq!['/'],
        TokenType::Star => seq!['*'],
        TokenType::Bang => seq!['!'],
        TokenType::BangEqual => seq!['!', '='],
        TokenType::Equal => seq!['='],
        TokenType::EqualEqual => seq!['=', '='],
        TokenType::Greater => seq!['>'],
        TokenType::GreaterEqual => seq!['>', '='],
        TokenType::Less => seq!['<'],
        TokenType::LessEqual => seq!['<', '='],
        TokenType::Identifier => Seq::empty(),
        TokenType::String => Seq::empty(),
        TokenType::Number => Seq::empty(),
        TokenType::And => seq!['a', 'n', 'd'],
        TokenType::Class => seq!['c', 'l', 'a', 's', 's'],
        TokenType::Else => seq!['e', 'l', 's', 'e'],
        TokenType::False => seq!['f', 'a', 'l', 's', 'e'],
        TokenType::Fun => seq!['f', 'u', 'n'],
        TokenType::For => seq!['f', 'o', 'r'],
        TokenType::If => seq!['i', 'f'],
        TokenType::Nil => seq!['n', 'i', 'l'],
        TokenType::Or => seq!['o', 'r'],
        TokenType::Print => seq!['p', 'r', 'i', 'n', 't'],
        TokenType::Return => seq!['r', 'e', 't', 'u', 'r', 'n'],
        TokenType::Super => seq!['s', 'u', 'p', 'e', 'r'],
        TokenType::This => seq!['t', 'h', 'i', 's'],
        TokenType::True => seq!['t', 'r', 'u', 'e'],
        TokenType::Var => seq!['v', 'a', 'r'],
        TokenType::While => seq!['w', 'h', 'i', 'l', 'e'],
        TokenType::Eof => seq!['E', 'O', 'F'],
    }
}

/// The spelling table is a bijection between the kinds that have a spelling
/// and the lexemes that `fixed_kind` accepts: looking up a kind's spelling
/// gives back that kind, and an accepted lexeme is exactly the spelling of the
/// kind it is given. In particular no arbitrary text is taken for a keyword
/// unless it is the keyword's exact spelling.
pub proof fn spelling_round_trip(k: TokenType, s: Seq<char>)
    ensures
        has_spelling(k) ==> fixed_kind(spelling(k)) == Some(k),
        !has_spelling(k) ==> fixed_kind(s) != Some(k),
        fixed_kind(s) == Some(k) ==> s == spelling(k),
{
    if fixed_kind(s) == Some(k) {
        assert(s =~= spelling(k));
    }
}

/// The kind whose spelling is the whole of `cs`, if any.
fn lookup(cs: &Vec<char>) -> (r: Option<TokenType>)
    ensures
        r == fixed_kind(cs@),
{
    let n = cs.len();
    if n == 1 {
        lookup1(cs[0])
    } else if n == 2 {
        lookup2(cs[0], cs[1])
    } else if n == 3 {
        lookup3(cs[0], cs[1], cs[2])
    } else if n == 4 {
        lookup4(cs[0], cs[1], cs[2], cs[3])
    } else if n == 5 {
        lookup5(cs[0], cs[1], cs[2], cs[3], cs[4])
    } else if n == 6 {
        lookup6(cs[0], cs[1], cs[2], cs[3], cs[4], cs[5])
    } else {
        None
    }
}

/// One classified lexeme, stamped with its source line.
#[derive(Debug, PartialEq, Clone)]
pub struct Token {
    type_: TokenType,
    lexeme: String,
    line: usize,
}

/// The mathematical value of a [`Token`].
pub struct TokenView {
    pub kind: TokenType,
    pub lexeme: Seq<char>,
    pub line: nat,
}

impl View for Token {
    type V = TokenView;

    closed spec fn view(&self) -> TokenView {
        TokenView { kind: self.type_, lexeme: self.lexeme@, line: self.line as nat }
    }
}

/// What building a token from `lexeme` on `line` gives: the kind spelled by
/// the lexeme, or an invalid-token error carrying the lexeme.
pub open spec fn built(lexeme: Seq<char>, line: nat) -> Result<TokenView, ErrorView> {
    match fixed_kind(lexeme) {
        Some(k) => Ok(TokenView { kind: k, lexeme, line }),
        None => Err(ErrorView::InvalidToken { line, token: lexeme }),
    }
}

/// The mathematical value of a build result.
pub open spec fn built_view(r: Result<Token, LoxError>) -> Result<TokenView, ErrorView> {
    match r {
        Ok(t) => Ok(t@),
        Err(e) => Err(e@),
    }
}

impl Default for Token {
    /// An end-of-input token with an empty lexeme on line zero.
    fn default() -> (r: Token)
        ensures
            r@ == (TokenView { kind: TokenType::Eof, lexeme: Seq::empty(), line: 0 }),
    {
        Token { type_: TokenType::Eof, lexeme: String::new(), line: 0 }
    }
}

impl Token {
    /// A token of any kind, with the lexeme and line given.
    pub fn new(type_: TokenType, lexeme: String, line: usize) -> (r: Token)
        ensures
            r@ == (TokenView { kind: type_, lexeme: lexeme@, line: line as nat }),
    {
        Token { type_, lexeme, line }
    }

    /// A token whose kind is the one spelled exactly by `lexeme`; any other
    /// text, identifiers included, is an invalid token.
    pub fn build(lexeme: &str, line: usize) -> (r: Result<Token, LoxError>)
        ensures
            built_view(r) == built(lexeme@, line as nat),
    {
        let n = lexeme.unicode_len();
        let mut cs: Vec<char> = Vec::new();
        if n <= 6 {
            let mut i: usize = 0;
            while i < n
                invariant
                    n == lexeme@.len(),
                    i <= n,
                    cs@ == lexeme@.subrange(0, i as int),
                decreases n - i,
            {
                cs.push(lexeme.get_char(i));
                i = i + 1;
            }
            assert(cs@ =~= lexeme@);
        }
        match lookup(&cs) {
            Some(k) => Ok(Token::new(k, lexeme.to_owned(), line)),
            None => Err(LoxError::InvalidToken { line, token: lexeme.to_owned() }),
        }
    }

    /// The token's kind.
    pub fn kind(&self) -> (r: TokenType)
        ensures
            r == self@.kind,
    {
        self.type_
    }

    /// The token's text.
    pub fn lexeme(&self) -> (r: &str)
        ensures
            r@ == self@.lexeme,
    {
        self.lexeme.as_str()
    }

    /// The line the token was read on.
    pub fn line(&self) -> (r: usize)
        ensures
            r as nat == self@.line,
    {
        self.line
    }
}

} // verus!
