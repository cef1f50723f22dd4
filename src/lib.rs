//! Lexical front end of the Lox language: classifies source text into tokens.
pub mod ast_printer;
pub mod expr;
pub mod lox;
pub mod scan_laws;
pub mod scanner;
pub mod token;
pub mod token_form;

pub use ast_printer::AstPrinter;
pub use expr::Expr;
pub use lox::{Diagnostic, Lox};
pub use scanner::Scanner;
pub use token::{Literal, Token};
pub use token_form::TokenForm;
