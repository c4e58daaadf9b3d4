use k4::{lex, Lexer, TokenType};

fn kinds(src: &str) -> Vec<TokenType> {
    lex(src).iter().map(|t| t.token_type).collect()
}

#[test]
fn test_lexer() {
    let toks = lex("let x = 5;");
    let k: Vec<TokenType> = toks.iter().map(|t| t.token_type).collect();
    assert_eq!(
        k,
        vec![
            TokenType::Let,
            TokenType::Identifier,
            TokenType::Assign,
            TokenType::IntLiteral,
            TokenType::Semicolon,
            TokenType::EOF
        ]
    );
    assert_eq!(toks[1].lexeme, "x");
    assert_eq!(toks[3].lexeme, "5");
    assert_eq!((toks[0].line, toks[0].column), (1, 1));
    assert_eq!((toks[1].line, toks[1].column), (1, 5));
    assert_eq!((toks[4].line, toks[4].column), (1, 10));
}

#[test]
fn empty_source_gives_one_eof() {
    let toks = lex("");
    assert_eq!(toks.len(), 1);
    assert_eq!(toks[0].token_type, TokenType::EOF);
    assert_eq!(toks[0].lexeme, "");
    assert_eq!((toks[0].line, toks[0].column), (1, 1));
}

#[test]
fn eof_repeats() {
    let mut lexer = Lexer::new(String::from(""));
    let a = lexer.next_token();
    let b = lexer.next_token();
    let c = lexer.next_token();
    assert_eq!(a.token_type, TokenType::EOF);
    assert_eq!(b.token_type, TokenType::EOF);
    assert_eq!(c.token_type, TokenType::EOF);
    assert_eq!((b.line, b.column), (1, 1));

    let mut lexer = Lexer::new(String::from("x "));
    assert_eq!(lexer.next_token().token_type, TokenType::Identifier);
    let e1 = lexer.next_token();
    let e2 = lexer.next_token();
    assert_eq!(e1.token_type, TokenType::EOF);
    assert_eq!(e2.token_type, TokenType::EOF);
    assert_eq!((e1.line, e1.column), (1, 3));
    assert_eq!((e2.line, e2.column), (1, 3));
}

#[test]
fn keywords_and_booleans() {
    assert_eq!(
        kinds("const fn return if else while for in break continue struct enum trait impl quantum distributed ai true false foo _bar"),
        vec![
            TokenType::Const,
            TokenType::Fn,
            TokenType::Return,
            TokenType::If,
            TokenType::Else,
            TokenType::While,
            TokenType::For,
            TokenType::In,
            TokenType::Break,
            TokenType::Continue,
            TokenType::Struct,
            TokenType::Enum,
            TokenType::Trait,
            TokenType::Impl,
            TokenType::Quantum,
            TokenType::Distributed,
            TokenType::AI,
            TokenType::BoolLiteral,
            TokenType::BoolLiteral,
            TokenType::Identifier,
            TokenType::Identifier,
            TokenType::EOF
        ]
    );
    let toks = lex("letter");
    assert_eq!(toks[0].token_type, TokenType::Identifier);
    assert_eq!(toks[0].lexeme, "letter");
}

#[test]
fn operators_match_greedily() {
    assert_eq!(
        kinds("== = != ! <= < >= > && || -> - + * / % ( ) { } [ ] ; : , ."),
        vec![
            TokenType::Equal,
            TokenType::Assign,
            TokenType::NotEqual,
            TokenType::Not,
            TokenType::LessThanEqual,
            TokenType::LessThan,
            TokenType::GreaterThanEqual,
            TokenType::GreaterThan,
            TokenType::And,
            TokenType::Or,
            TokenType::Arrow,
            TokenType::Minus,
            TokenType::Plus,
            TokenType::Multiply,
            TokenType::Divide,
            TokenType::Modulo,
            TokenType::LeftParen,
            TokenType::RightParen,
            TokenType::LeftBrace,
            TokenType::RightBrace,
            TokenType::LeftBracket,
            TokenType::RightBracket,
            TokenType::Semicolon,
            TokenType::Colon,
            TokenType::Comma,
            TokenType::Dot,
            TokenType::EOF
        ]
    );
    assert_eq!(kinds("a==b"), vec![TokenType::Identifier, TokenType::Equal, TokenType::Identifier, TokenType::EOF]);
}

#[test]
fn numbers() {
    let toks = lex("3.14 42 7.x 1.2.3 5..");
    let got: Vec<(TokenType, String)> = toks.iter().map(|t| (t.token_type, t.lexeme.clone())).collect();
    assert_eq!(
        got,
        vec![
            (TokenType::FloatLiteral, "3.14".to_string()),
            (TokenType::IntLiteral, "42".to_string()),
            (TokenType::IntLiteral, "7".to_string()),
            (TokenType::Dot, ".".to_string()),
            (TokenType::Identifier, "x".to_string()),
            (TokenType::Unknown, "1.2.3".to_string()),
            (TokenType::IntLiteral, "5".to_string()),
            (TokenType::Dot, ".".to_string()),
            (TokenType::Dot, ".".to_string()),
            (TokenType::EOF, "".to_string()),
        ]
    );
}

#[test]
fn strings_keep_their_source_text() {
    let toks = lex(r#""a\nb\t\"q\\" "plain" """#);
    assert_eq!(toks[0].token_type, TokenType::StringLiteral);
    assert_eq!(toks[0].lexeme, r#""a\nb\t\"q\\""#);
    assert_eq!(k4::lexer::decode_string(&toks[0].lexeme), "a\nb\t\"q\\");
    assert_eq!(toks[1].token_type, TokenType::StringLiteral);
    assert_eq!(toks[1].lexeme, "\"plain\"");
    assert_eq!(toks[1].column, 15);
    assert_eq!(toks[2].token_type, TokenType::StringLiteral);
    assert_eq!(toks[2].lexeme, "\"\"");
    assert_eq!(toks[3].token_type, TokenType::EOF);

    let toks = lex("\"open");
    assert_eq!(toks[0].token_type, TokenType::Unknown);
    assert_eq!(toks[0].lexeme, "\"open");
    assert_eq!(toks[1].token_type, TokenType::EOF);
}

#[test]
fn unknown_characters() {
    let toks = lex("a @ & |");
    assert_eq!(toks[1].token_type, TokenType::Unknown);
    assert_eq!(toks[1].lexeme, "@");
    assert_eq!(toks[2].token_type, TokenType::Unknown);
    assert_eq!(toks[2].lexeme, "&");
    assert_eq!(toks[3].token_type, TokenType::Unknown);
    assert_eq!(toks[3].lexeme, "|");
}

#[test]
fn lines_and_columns() {
    let toks = lex("let a\n  b\n\n   c");
    assert_eq!((toks[0].line, toks[0].column), (1, 1));
    assert_eq!((toks[1].line, toks[1].column), (1, 5));
    assert_eq!((toks[2].line, toks[2].column), (2, 3));
    assert_eq!((toks[3].line, toks[3].column), (4, 4));
    assert_eq!((toks[4].line, toks[4].column), (4, 5));
}

#[test]
fn lexemes_rejoin_to_equivalent_source() {
    let src = "fn f(a: int) -> int { return a*2+1.5; } let s = \"x\\\"y\";";
    let toks = lex(src);
    let joined: Vec<String> = toks.iter().map(|t| t.lexeme.clone()).collect();
    let again = lex(&joined.join(" "));
    assert_eq!(toks.len(), again.len());
    for (a, b) in toks.iter().zip(again.iter()) {
        assert_eq!(a.token_type, b.token_type);
        assert_eq!(a.lexeme, b.lexeme);
    }
}

#[test]
fn unicode_whitespace_is_skipped() {
    let toks = lex("a\u{b}\u{c}b\u{a0}c\u{3000}\u{2028}d");
    let k: Vec<TokenType> = toks.iter().map(|t| t.token_type).collect();
    assert_eq!(
        k,
        vec![TokenType::Identifier, TokenType::Identifier, TokenType::Identifier, TokenType::Identifier, TokenType::EOF]
    );
    assert_eq!(toks[3].lexeme, "d");
    assert_eq!(toks[3].line, 1);
}

#[test]
fn lexemes_concatenate_to_source_without_whitespace() {
    let src = "fn f(a: int) -> int {\n  return a * 2 + 1.5;\n}";
    let joined: String = lex(src).iter().map(|t| t.lexeme.clone()).collect();
    let stripped: String = src.chars().filter(|c| !c.is_whitespace()).collect();
    assert_eq!(joined, stripped);
}
