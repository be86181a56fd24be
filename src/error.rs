//! The three fatal lexical errors.
use vstd::prelude::*;
use vstd::string::*;
use crate::text::{decimal, push_decimal};

verus! {

/// A lexical error; the first one met ends the scan.
#[derive(Debug, PartialEq, Clone)]
pub enum LoxError {
    InvalidToken { line: usize, token: String },
    UnterminatedString { line: usize },
    UnterminatedFloat { line: usize },
}

/// The mathematical value of a [`LoxError`].
pub enum ErrorView {
    InvalidToken { line: nat, token: Seq<char> },
    UnterminatedString { line: nat },
    UnterminatedFloat { line: nat },
}

impl View for LoxError {
    type V = ErrorView;

    open spec fn view(&self) -> ErrorView {
        match self {
            LoxError::InvalidToken { line, token } => ErrorView::InvalidToken {
                line: *line as nat,
                token: token@,
            },
            LoxError::UnterminatedString { line } => ErrorView::UnterminatedString {
                line: *line as nat,
            },
            LoxError::UnterminatedFloat { line } => ErrorView::UnterminatedFloat {
                line: *line as nat,
            },
        }
    }
}

/// The text of an error report: `[line N] Error: message`.
pub open spec fn report(line: nat, message: Seq<char>) -> Seq<char> {
    seq!['[', 'l', 'i', 'n', 'e', ' '] + decimal(line) + seq![']', ' ', 'E', 'r', 'r', 'o', 'r', ':', ' ']
        + message
}

/// The message of each error kind, before the line prefix.
pub open spec fn message_of(e: ErrorView) -> Seq<char> {
    match e {
        ErrorView::InvalidToken { token, .. } => seq![
            'I', 'n', 'v', 'a', 'l', 'i', 'd', ' ', 'T', 'o', 'k', 'e', 'n', ':', ' ',
        ] + token,
        ErrorView::UnterminatedString { .. } => seq![
            'U', 'n', 't', 'e', 'r', 'm', 'i', 'n', 'a', 't', 'e', 'd', ' ', 's', 't', 'r', 'i', 'n', 'g',
        ],
        ErrorView::UnterminatedFloat { .. } => seq![
            'U', 'n', 't', 'e', 'r', 'm', 'i', 'n', 'a', 't', 'e', 'd', ' ', 'f', 'l', 'o', 'a', 't',
        ],
    }
}

/// The line an error was met on.
pub open spec fn line_of(e: ErrorView) -> nat {
    match e {
        ErrorView::InvalidToken { line, .. } => line,
        ErrorView::UnterminatedString { line } => line,
        ErrorView::UnterminatedFloat { line } => line,
    }
}

/// Format an error report for `line`.
pub fn format_err(line: usize, message: &str) -> (r: String)
    ensures
        r@ == report(line as nat, message@),
{
    let mut r = String::from_str("[line ");
    push_decimal(&mut r, line);
    r.append("] Error: ");
    r.append(message);
    proof {
        reveal_strlit("[line ");
        reveal_strlit("] Error: ");
        assert(r@ =~= report(line as nat, message@));
    }
    r
}

impl LoxError {
    /// The report shown for this error, e.g. `[line 1] Error: Unterminated string`.
    pub fn message(&self) -> (r: String)
        ensures
            r@ == report(line_of(self@), message_of(self@)),
    {
        match self {
            LoxError::InvalidToken { line, token } => {
                let mut m = String::from_str("Invalid Token: ");
                m.append(token.as_str());
                proof {
                    reveal_strlit("Invalid Token: ");
                    assert(m@ =~= message_of(self@));
                }
                format_err(*line, m.as_str())
            },
            LoxError::UnterminatedString { line } => {
                let m = "Unterminated string";
                proof {
                    reveal_strlit("Unterminated string");
                    assert(m@ =~= message_of(self@));
                }
                format_err(*line, m)
            },
            LoxError::UnterminatedFloat { line } => {
                let m = "Unterminated float";
                proof {
                    reveal_strlit("Unterminated float");
                    assert(m@ =~= message_of(self@));
                }
                format_err(*line, m)
            },
        }
    }
}

} // verus!
