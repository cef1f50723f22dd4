use vstd::prelude::*;
use crate::token_form::TokenForm;

verus! {

/// The value carried by a literal token.
///
/// A number keeps the exact digit text that the scanner matched; turning that
/// text into a floating-point value is left to the caller.
#[derive(Debug, Clone)]
pub enum Literal {
    Str(String),
    Number(String),
}

/// Mathematical model of a `Literal`.
pub enum LiteralView {
    Str(Seq<char>),
    Number(Seq<char>),
}

impl View for Literal {
    type V = LiteralView;

    open spec fn view(&self) -> LiteralView {
        match self {
            Literal::Str(s) => LiteralView::Str(s@),
            Literal::Number(n) => LiteralView::Number(n@),
        }
    }
}

/// The text of a literal value: the string itself, or the number as written.
pub open spec fn literal_value_text(l: LiteralView) -> Seq<char> {
    match l {
        LiteralView::Str(s) => s,
        LiteralView::Number(n) => n,
    }
}

impl Literal {
    /// The value as text: the string itself, or the number as written.
    pub fn to_string(&self) -> (r: String)
        ensures
            r@ == literal_value_text(self@),
    {
        match self {
            Literal::Str(s) => s.clone(),
            Literal::Number(n) => n.clone(),
        }
    }
}

/// The model of an optional literal.
pub open spec fn literal_view(l: Option<Literal>) -> Option<LiteralView> {
    match l {
        Some(v) => Some(v@),
        None => None,
    }
}

/// A classified unit of source text.
#[derive(Debug, Clone)]
pub struct Token {
    pub form: TokenForm,
    pub lexeme: String,
    pub literal: Option<Literal>,
    pub line: usize,
}

/// Mathematical model of a `Token`.
pub struct TokenView {
    pub form: TokenForm,
    pub lexeme: Seq<char>,
    pub literal: Option<LiteralView>,
    pub line: nat,
}

impl View for Token {
    type V = TokenView;

    open spec fn view(&self) -> TokenView {
        TokenView {
            form: self.form,
            lexeme: self.lexeme@,
            literal: literal_view(self.literal),
            line: self.line as nat,
        }
    }
}

/// The models of a sequence of tokens.
pub open spec fn tokens_view(ts: Seq<Token>) -> Seq<TokenView> {
    ts.map_values(|t: Token| t@)
}

/// The end-of-input token at line `line`.
pub open spec fn eof_view(line: nat) -> TokenView {
    TokenView { form: TokenForm::Eof, lexeme: Seq::empty(), literal: None, line }
}

impl Token {
    /// The end-of-input marker: empty lexeme, no literal.
    pub fn eof(line: usize) -> (r: Self)
        ensures
            r@ == eof_view(line as nat),
    {
        let lexeme = String::new();
        proof {
            assert(lexeme@ =~= Seq::<char>::empty());
        }
        Token { form: TokenForm::Eof, lexeme, literal: None, line }
    }
}

} // verus!
