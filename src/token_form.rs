use vstd::prelude::*;

verus! {

/// The lexical category of a token.
#[derive(Debug, Clone, Copy, PartialEq, Eq, Structural)]
pub enum TokenForm {
    // Single-character tokens.
    LeftParen,
    RightParen,
    LeftBrace,
    RightBrace,
    Comma,
    Dot,
    Minus,
    Plus,
    Semicolon,
    Slash,
    Star,
    // One or two character tokens.
    Bang,
    BangEqual,
    Equal,
    EqualEqual,
    Greater,
    GreaterEqual,
    Less,
    LessEqual,
    // Literals.
    Identifier,
    String,
    Number,
    // Keywords.
    And,
    Class,
    Else,
    False,
    Fun,
    For,
    If,
    Nil,
    Or,
    Print,
    Return,
    Super,
    This,
    True,
    Var,
    While,
    // End of input.
    Eof,
}

/// The keyword whose reserved word is exactly `s`, if there is one.
pub open spec fn keyword_form(s: Seq<char>) -> Option<TokenForm> {
    if s == seq!['a', 'n', 'd'] {
        Some(TokenForm::And)
    } else if s == seq!['c', 'l', 'a', 's', 's'] {
        Some(TokenForm::Class)
    } else if s == seq!['e', 'l', 's', 'e'] {
        Some(TokenForm::Else)
    } else if s == seq!['f', 'a', 'l', 's', 'e'] {
        Some(TokenForm::False)
    } else if s == seq!['f', 'o', 'r'] {
        Some(TokenForm::For)
    } else if s == seq!['f', 'u', 'n'] {
        Some(TokenForm::Fun)
    } else if s == seq!['i', 'f'] {
        Some(TokenForm::If)
    } else if s == seq!['n', 'i', 'l'] {
        Some(TokenForm::Nil)
    } else if s == seq!['o', 'r'] {
        Some(TokenForm::Or)
    } else if s == seq!['p', 'r', 'i', 'n', 't'] {
        Some(TokenForm::Print)
    } else if s == seq!['r', 'e', 't', 'u', 'r', 'n'] {
        Some(TokenForm::Return)
    } else if s == seq!['s', 'u', 'p', 'e', 'r'] {
        Some(TokenForm::Super)
    } else if s == seq!['t', 'h', 'i', 's'] {
        Some(TokenForm::This)
    } else if s == seq!['t', 'r', 'u', 'e'] {
        Some(TokenForm::True)
    } else if s == seq!['v', 'a', 'r'] {
        Some(TokenForm::Var)
    } else if s == seq!['w', 'h', 'i', 'l', 'e'] {
        Some(TokenForm::While)
    } else {
        None
    }
}

/// The category of an identifier-shaped lexeme: its keyword, or `Identifier`.
pub open spec fn word_form(s: Seq<char>) -> TokenForm {
    match keyword_form(s) {
        Some(k) => k,
        None => TokenForm::Identifier,
    }
}

} // verus!
