use lox::{AstPrinter, Diagnostic, Expr, Literal, Lox, Scanner, Token, TokenForm};

fn scan(source: &str) -> (Vec<Token>, Vec<Diagnostic>) {
    let mut lox = Lox::new();
    let tokens = lox.run(source.to_string());
    (tokens, lox.diagnostics().clone())
}

fn forms(tokens: &[Token]) -> Vec<TokenForm> {
    tokens.iter().map(|t| t.form).collect()
}

fn number_value(token: &Token) -> f64 {
    match &token.literal {
        Some(Literal::Number(text)) => text.parse::<f64>().unwrap(),
        other => panic!("not a number literal: {:?}", other),
    }
}

#[test]
fn empty_source_gives_only_end_marker() {
    let (tokens, diags) = scan("");
    assert_eq!(forms(&tokens), vec![TokenForm::Eof]);
    assert_eq!(tokens[0].lexeme, "");
    assert!(tokens[0].literal.is_none());
    assert_eq!(tokens[0].line, 1);
    assert!(diags.is_empty());
}

#[test]
fn end_marker_is_last_and_lexemes_follow_source() {
    let source = "var x = (1 + 2.5) * y; // done\n  print x >= \"s\";";
    let (tokens, diags) = scan(source);
    assert!(diags.is_empty());
    assert_eq!(tokens.last().unwrap().form, TokenForm::Eof);
    assert_eq!(tokens.iter().filter(|t| t.form == TokenForm::Eof).count(), 1);
    let joined: String = tokens.iter().map(|t| t.lexeme.as_str()).collect();
    assert_eq!(joined, "varx=(1+2.5)*y;printx>=\"s\";");
    assert_eq!(tokens.last().unwrap().line, 2);
}

#[test]
fn bang_equal_is_one_token() {
    let (tokens, _) = scan("!=");
    assert_eq!(forms(&tokens), vec![TokenForm::BangEqual, TokenForm::Eof]);
    assert_eq!(tokens[0].lexeme, "!=");
}

#[test]
fn bang_before_other_character_is_bang() {
    let (tokens, _) = scan("!x");
    assert_eq!(forms(&tokens), vec![TokenForm::Bang, TokenForm::Identifier, TokenForm::Eof]);
    let (tokens, _) = scan("!");
    assert_eq!(forms(&tokens), vec![TokenForm::Bang, TokenForm::Eof]);
}

#[test]
fn two_character_operators() {
    let (tokens, _) = scan("== = <= < >= > / *");
    assert_eq!(
        forms(&tokens),
        vec![
            TokenForm::EqualEqual,
            TokenForm::Equal,
            TokenForm::LessEqual,
            TokenForm::Less,
            TokenForm::GreaterEqual,
            TokenForm::Greater,
            TokenForm::Slash,
            TokenForm::Star,
            TokenForm::Eof
        ]
    );
}

#[test]
fn punctuation() {
    let (tokens, _) = scan("(){},.-+;");
    assert_eq!(
        forms(&tokens),
        vec![
            TokenForm::LeftParen,
            TokenForm::RightParen,
            TokenForm::LeftBrace,
            TokenForm::RightBrace,
            TokenForm::Comma,
            TokenForm::Dot,
            TokenForm::Minus,
            TokenForm::Plus,
            TokenForm::Semicolon,
            TokenForm::Eof
        ]
    );
}

#[test]
fn comment_is_skipped() {
    let (tokens, diags) = scan("// x\n123");
    assert!(diags.is_empty());
    assert_eq!(forms(&tokens), vec![TokenForm::Number, TokenForm::Eof]);
    assert_eq!(number_value(&tokens[0]), 123.0);
    assert_eq!(tokens[0].lexeme, "123");
    assert_eq!(tokens[0].line, 2);
}

#[test]
fn comment_at_end_of_input() {
    let (tokens, diags) = scan("1 // trailing @ text");
    assert!(diags.is_empty());
    assert_eq!(forms(&tokens), vec![TokenForm::Number, TokenForm::Eof]);
}

#[test]
fn lines_count_newlines_inside_strings() {
    let (tokens, _) = scan("\"a\nb\"\n+");
    assert_eq!(forms(&tokens), vec![TokenForm::String, TokenForm::Plus, TokenForm::Eof]);
    assert_eq!(tokens[0].line, 1);
    assert_eq!(tokens[1].line, 3);
    assert_eq!(tokens[2].line, 3);
}

#[test]
fn string_literal_value_excludes_quotes() {
    let (tokens, _) = scan("\"hi \\n there\"");
    assert_eq!(tokens[0].form, TokenForm::String);
    assert_eq!(tokens[0].lexeme, "\"hi \\n there\"");
    match &tokens[0].literal {
        Some(Literal::Str(s)) => assert_eq!(s, "hi \\n there"),
        other => panic!("unexpected literal {:?}", other),
    }
}

#[test]
fn number_before_method_dot() {
    let (tokens, _) = scan("1.toString");
    assert_eq!(
        forms(&tokens),
        vec![TokenForm::Number, TokenForm::Dot, TokenForm::Identifier, TokenForm::Eof]
    );
    assert_eq!(tokens[0].lexeme, "1");
    assert_eq!(number_value(&tokens[0]), 1.0);
    assert_eq!(tokens[1].lexeme, ".");
    assert_eq!(tokens[2].lexeme, "toString");
}

#[test]
fn number_with_fraction() {
    let (tokens, _) = scan("45.67 12.");
    assert_eq!(
        forms(&tokens),
        vec![TokenForm::Number, TokenForm::Number, TokenForm::Dot, TokenForm::Eof]
    );
    assert_eq!(number_value(&tokens[0]), 45.67);
    assert_eq!(tokens[1].lexeme, "12");
    assert_eq!(number_value(&tokens[1]), 12.0);
}

#[test]
fn keyword_prefix_is_identifier() {
    let (tokens, _) = scan("classify");
    assert_eq!(forms(&tokens), vec![TokenForm::Identifier, TokenForm::Eof]);
    assert_eq!(tokens[0].lexeme, "classify");
    assert!(tokens[0].literal.is_none());
}

#[test]
fn every_keyword_is_recognized() {
    let (tokens, _) = scan(
        "and class else false fun for if nil or print return super this true var while _x1 Class",
    );
    assert_eq!(
        forms(&tokens),
        vec![
            TokenForm::And,
            TokenForm::Class,
            TokenForm::Else,
            TokenForm::False,
            TokenForm::Fun,
            TokenForm::For,
            TokenForm::If,
            TokenForm::Nil,
            TokenForm::Or,
            TokenForm::Print,
            TokenForm::Return,
            TokenForm::Super,
            TokenForm::This,
            TokenForm::True,
            TokenForm::Var,
            TokenForm::While,
            TokenForm::Identifier,
            TokenForm::Identifier,
            TokenForm::Eof
        ]
    );
}

#[test]
fn unterminated_string_reports_once() {
    let (tokens, diags) = scan("\"abc");
    assert_eq!(forms(&tokens), vec![TokenForm::Eof]);
    assert_eq!(diags.len(), 1);
    assert_eq!(diags[0].message, "Unterminated string");
    assert_eq!(diags[0].line, 1);
}

#[test]
fn unterminated_string_reports_line_reached() {
    let (tokens, diags) = scan("+\"a\nb\n");
    assert_eq!(forms(&tokens), vec![TokenForm::Plus, TokenForm::Eof]);
    assert_eq!(diags.len(), 1);
    assert_eq!(diags[0].line, 3);
    assert_eq!(tokens[1].line, 3);
}

#[test]
fn unexpected_character_reports_once() {
    let (tokens, diags) = scan("@");
    assert_eq!(forms(&tokens), vec![TokenForm::Eof]);
    assert_eq!(diags.len(), 1);
    assert_eq!(diags[0].message, "Unexpected character");
    assert_eq!(diags[0].line, 1);
    assert_eq!(diags[0].spot, "");
}

#[test]
fn scanning_goes_on_after_an_error() {
    let (tokens, diags) = scan("1 @\n# 2");
    assert_eq!(forms(&tokens), vec![TokenForm::Number, TokenForm::Number, TokenForm::Eof]);
    assert_eq!(diags.len(), 2);
    assert_eq!(diags[0].line, 1);
    assert_eq!(diags[1].line, 2);
}

#[test]
fn characters_are_counted_not_bytes() {
    let (tokens, diags) = scan("\"é\" é x");
    assert_eq!(
        forms(&tokens),
        vec![TokenForm::String, TokenForm::Identifier, TokenForm::Eof]
    );
    match &tokens[0].literal {
        Some(Literal::Str(s)) => assert_eq!(s, "é"),
        other => panic!("unexpected literal {:?}", other),
    }
    assert_eq!(tokens[1].lexeme, "x");
    assert_eq!(diags.len(), 1);
}

#[test]
fn session_records_errors() {
    let mut lox = Lox::new();
    assert!(!lox.had_error());
    lox.run("1 + 2".to_string());
    assert!(!lox.had_error());
    lox.error(7, "boom".to_string());
    assert!(lox.had_error());
    assert_eq!(lox.diagnostics().len(), 1);
    assert_eq!(lox.diagnostics()[0].line, 7);
    assert_eq!(lox.diagnostics()[0].message, "boom");
}

#[test]
fn scanner_used_directly() {
    let mut lox = Lox::new();
    let mut scanner = Scanner::new("a\nb".to_string());
    let tokens = scanner.scan_tokens(&mut lox);
    assert_eq!(forms(&tokens), vec![TokenForm::Identifier, TokenForm::Identifier, TokenForm::Eof]);
    assert_eq!(tokens[1].line, 2);
    assert_eq!(Token::eof(4).line, 4);
    assert_eq!(Token::eof(4).form, TokenForm::Eof);
}

fn op(form: TokenForm, lexeme: &str) -> Token {
    Token { form, lexeme: lexeme.to_string(), literal: None, line: 1 }
}

#[test]
fn printer_renders_prefix_form() {
    let expr = Expr::Binary {
        left: Box::new(Expr::Unary {
            operator: op(TokenForm::Minus, "-"),
            right: Box::new(Expr::Literal { value: Some(Literal::Number("123".to_string())) }),
        }),
        operator: op(TokenForm::Star, "*"),
        right: Box::new(Expr::Grouping {
            expression: Box::new(Expr::Literal {
                value: Some(Literal::Number("45.67".to_string())),
            }),
        }),
    };
    let printer = AstPrinter::new();
    assert_eq!(printer.print(&expr), "(* (- 123 ) (group 45.67 ) )");
}

#[test]
fn printer_renders_nil_and_strings() {
    let printer = AstPrinter::new();
    assert_eq!(printer.print(&Expr::Literal { value: None }), "nil");
    assert_eq!(
        printer.print(&Expr::Literal { value: Some(Literal::Str("hi".to_string())) }),
        "hi"
    );
}

#[test]
fn literal_text() {
    assert_eq!(Literal::Str("a b".to_string()).to_string(), "a b");
    assert_eq!(Literal::Number("3.25".to_string()).to_string(), "3.25");
}

#[test]
fn tokens_and_skipped_text_cover_the_source() {
    let source = "a // c\n\t@ \"x";
    let (tokens, diags) = scan(source);
    assert_eq!(forms(&tokens), vec![TokenForm::Identifier, TokenForm::Eof]);
    assert_eq!(diags.len(), 2);
    assert_eq!(diags[0].message, "Unexpected character");
    assert_eq!(diags[1].message, "Unterminated string");
    assert_eq!(tokens[1].line, 2);
}
