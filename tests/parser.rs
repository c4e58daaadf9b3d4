use k4::{
    parse, BinaryOperator, ErrorKind, Expected, Expression, Literal, Statement, TokenType,
    UnaryOperator,
};

fn num(v: i64) -> Expression {
    Expression::Literal(Literal::Integer(v))
}

fn ident(s: &str) -> Expression {
    Expression::Identifier(s.to_string())
}

fn bin(l: Expression, op: BinaryOperator, r: Expression) -> Expression {
    Expression::BinaryOperation { left: Box::new(l), operator: op, right: Box::new(r) }
}

fn single_expression(src: &str) -> Expression {
    let program = parse(src).unwrap();
    assert_eq!(program.statements.len(), 1);
    match program.statements.into_iter().next().unwrap() {
        Statement::ExpressionStatement(e) => e,
        other => panic!("not an expression statement: {:?}", other),
    }
}

#[test]
fn multiplication_binds_tighter_than_addition() {
    let program = parse("let x = 1 + 2 * 3;").unwrap();
    assert_eq!(
        program.statements,
        vec![Statement::LetStatement {
            name: "x".to_string(),
            type_annotation: None,
            value: Some(bin(num(1), BinaryOperator::Add, bin(num(2), BinaryOperator::Multiply, num(3)))),
        }]
    );
}

#[test]
fn if_else_with_blocks() {
    let program = parse("if (a) { b; } else { c; }").unwrap();
    assert_eq!(
        program.statements,
        vec![Statement::IfStatement {
            condition: ident("a"),
            consequence: Box::new(Statement::BlockStatement(vec![Statement::ExpressionStatement(ident("b"))])),
            alternative: Some(Box::new(Statement::BlockStatement(vec![Statement::ExpressionStatement(ident("c"))]))),
        }]
    );
}

#[test]
fn quantum_declaration() {
    let program = parse("quantum q(2) { hadamard(0); }").unwrap();
    assert_eq!(
        program.statements,
        vec![Statement::QuantumDeclaration {
            name: "q".to_string(),
            qubits: 2,
            operations: vec![Statement::ExpressionStatement(Expression::QuantumOperation {
                operation_type: "hadamard".to_string(),
                qubits: vec![num(0)],
                parameters: vec![],
            })],
        }]
    );
}

#[test]
fn missing_expression_points_at_semicolon() {
    let e = parse("let x = ;").unwrap_err();
    assert_eq!(e.kind, ErrorKind::Syntax);
    assert_eq!(e.expected, Expected::ExpressionStart);
    assert_eq!(e.found, TokenType::Semicolon);
    assert_eq!(e.lexeme, ";");
    assert_eq!((e.line, e.column), (1, 9));
}

#[test]
fn parsing_is_deterministic() {
    let src = "fn f(a: int) -> int { return a * (a + 1); } let v = f(3)[0].x;";
    assert_eq!(parse(src), parse(src));
    assert_eq!(parse("let = 1;"), parse("let = 1;"));
}

#[test]
fn empty_and_blank_sources() {
    assert_eq!(parse("").unwrap().statements.len(), 0);
    assert_eq!(parse("  \n\t ").unwrap().statements.len(), 0);
}

#[test]
fn precedence_levels_and_left_associativity() {
    assert_eq!(
        single_expression("a || b && c == d < e + f * g;"),
        bin(
            ident("a"),
            BinaryOperator::Or,
            bin(
                ident("b"),
                BinaryOperator::And,
                bin(
                    ident("c"),
                    BinaryOperator::Equal,
                    bin(
                        ident("d"),
                        BinaryOperator::LessThan,
                        bin(ident("e"), BinaryOperator::Add, bin(ident("f"), BinaryOperator::Multiply, ident("g")))
                    )
                )
            )
        )
    );
    assert_eq!(
        single_expression("1 - 2 - 3;"),
        bin(bin(num(1), BinaryOperator::Subtract, num(2)), BinaryOperator::Subtract, num(3))
    );
    assert_eq!(
        single_expression("(1 + 2) * 3;"),
        bin(bin(num(1), BinaryOperator::Add, num(2)), BinaryOperator::Multiply, num(3))
    );
}

#[test]
fn unary_operators() {
    assert_eq!(
        single_expression("-a * !b;"),
        bin(
            Expression::UnaryOperation { operator: UnaryOperator::Negate, operand: Box::new(ident("a")) },
            BinaryOperator::Multiply,
            Expression::UnaryOperation { operator: UnaryOperator::Not, operand: Box::new(ident("b")) }
        )
    );
}

#[test]
fn postfix_chain() {
    let field = Expression::FieldAccess { object: Box::new(ident("a")), field: "b".to_string() };
    let index = Expression::IndexAccess { array: Box::new(field), index: Box::new(num(0)) };
    let call = Expression::FunctionCall { function: Box::new(index), arguments: vec![] };
    assert_eq!(single_expression("a.b[0]();"), call);
}

#[test]
fn literals_arrays_and_struct_literals() {
    assert_eq!(
        single_expression("[1, 2.5, \"s\", true, false,];"),
        Expression::ArrayLiteral(vec![
            num(1),
            Expression::Literal(Literal::Float("2.5".to_string())),
            Expression::Literal(Literal::String("s".to_string())),
            Expression::Literal(Literal::Boolean(true)),
            Expression::Literal(Literal::Boolean(false)),
        ])
    );
    assert_eq!(
        single_expression("Point { x: 1, y: 2 };"),
        Expression::StructLiteral {
            name: "Point".to_string(),
            fields: vec![("x".to_string(), num(1)), ("y".to_string(), num(2))],
        }
    );
    assert_eq!(single_expression("9223372036854775807;"), num(i64::MAX));
}

#[test]
fn declarations() {
    let src = "const k: int = 3; return; while (x) x; for i in items { f(i); } \
               struct P { x: int, y: int } enum E { A, B } \
               trait T { fn m() { } } impl T for P { fn m() -> int { return 1; } } impl P { }";
    let program = parse(src).unwrap();
    let s = &program.statements;
    assert_eq!(s.len(), 9);
    assert_eq!(
        s[0],
        Statement::ConstStatement { name: "k".to_string(), type_annotation: Some("int".to_string()), value: num(3) }
    );
    assert_eq!(s[1], Statement::ReturnStatement(None));
    assert!(matches!(s[2], Statement::WhileStatement { .. }));
    match &s[3] {
        Statement::ForStatement { variable, iterable, .. } => {
            assert_eq!(variable, "i");
            assert_eq!(*iterable, ident("items"));
        }
        other => panic!("{:?}", other),
    }
    assert_eq!(
        s[4],
        Statement::StructDeclaration {
            name: "P".to_string(),
            fields: vec![("x".to_string(), "int".to_string()), ("y".to_string(), "int".to_string())],
        }
    );
    assert_eq!(s[5], Statement::EnumDeclaration { name: "E".to_string(), variants: vec!["A".to_string(), "B".to_string()] });
    match &s[6] {
        Statement::TraitDeclaration { name, methods } => {
            assert_eq!(name, "T");
            assert_eq!(methods.len(), 1);
        }
        other => panic!("{:?}", other),
    }
    match &s[7] {
        Statement::ImplDeclaration { trait_name, target_type, methods } => {
            assert_eq!(trait_name.as_deref(), Some("T"));
            assert_eq!(target_type, "P");
            assert!(matches!(&methods[0], Statement::FunctionDeclaration { return_type: Some(_), .. }));
        }
        other => panic!("{:?}", other),
    }
    assert!(matches!(&s[8], Statement::ImplDeclaration { trait_name: None, .. }));
}

#[test]
fn distributed_and_ai_declarations() {
    let program = parse("distributed job [n1, n2] { run(); } ai m: NeuralNetwork(layers = 3, rate = 1) { fit(); } ai n: SVM();").unwrap();
    let s = &program.statements;
    assert_eq!(s.len(), 3);
    match &s[0] {
        Statement::DistributedDeclaration { name, nodes, body } => {
            assert_eq!(name, "job");
            assert_eq!(nodes, &vec!["n1".to_string(), "n2".to_string()]);
            assert!(matches!(**body, Statement::BlockStatement(ref b) if b.len() == 1));
        }
        other => panic!("{:?}", other),
    }
    match &s[1] {
        Statement::AIDeclaration { name, model_type, parameters, body } => {
            assert_eq!(name, "m");
            assert_eq!(model_type, "NeuralNetwork");
            assert_eq!(parameters, &vec![("layers".to_string(), num(3)), ("rate".to_string(), num(1))]);
            assert!(body.is_some());
        }
        other => panic!("{:?}", other),
    }
    assert!(matches!(&s[2], Statement::AIDeclaration { body: None, .. }));
}

#[test]
fn lexical_error_is_reported() {
    let e = parse("let x = 1 @ 2;").unwrap_err();
    assert_eq!(e.kind, ErrorKind::Lexical);
    assert_eq!(e.found, TokenType::Unknown);
    assert_eq!(e.lexeme, "@");
    assert_eq!((e.line, e.column), (1, 11));
    let e = parse("let s = \"open;").unwrap_err();
    assert_eq!(e.kind, ErrorKind::Lexical);
    let e = parse("let v = 1.2.3;").unwrap_err();
    assert_eq!(e.kind, ErrorKind::Lexical);
}

#[test]
fn integer_too_large() {
    let e = parse("f(9223372036854775808);").unwrap_err();
    assert_eq!(e.kind, ErrorKind::InvalidNumber);
    let e = parse("let y = 9223372036854775808;").unwrap_err();
    assert_eq!(e.kind, ErrorKind::InvalidNumber);
    assert_eq!(e.expected, Expected::Number);
    assert_eq!(e.lexeme, "9223372036854775808");
}

#[test]
fn missing_delimiters() {
    let e = parse("{ a;").unwrap_err();
    assert_eq!(e.expected, Expected::Token(TokenType::RightBrace));
    assert_eq!(e.found, TokenType::EOF);
    let e = parse("fn f();").unwrap_err();
    assert_eq!(e.expected, Expected::Token(TokenType::LeftBrace));
    assert_eq!(e.found, TokenType::Semicolon);
    let e = parse("f(1, 2").unwrap_err();
    assert_eq!(e.found, TokenType::EOF);
    let e = parse("let x = 1\nlet").unwrap_err();
    assert_eq!(e.expected, Expected::Token(TokenType::Semicolon));
    assert_eq!((e.line, e.column), (2, 1));
}

#[test]
fn integer_values() {
    assert_eq!(k4::parser::integer_value("0"), Some(0));
    assert_eq!(k4::parser::integer_value("0042"), Some(42));
    assert_eq!(k4::parser::integer_value("9223372036854775807"), Some(i64::MAX));
    assert_eq!(k4::parser::integer_value("9223372036854775808"), None);
    assert_eq!(k4::parser::integer_value(""), None);
    assert_eq!(k4::parser::integer_value("12a"), None);
}

#[test]
fn first_error_is_reported() {
    let e = parse("let = 1; let y = ;").unwrap_err();
    assert_eq!(e.expected, Expected::Token(TokenType::Identifier));
    assert_eq!(e.found, TokenType::Assign);
    assert_eq!((e.line, e.column), (1, 5));
}

#[test]
fn unterminated_delimiters() {
    assert_eq!(parse("{ x;").unwrap_err().found, TokenType::EOF);
    assert!(parse("f(1, 2;").is_err());
    assert!(parse("let a = [1, 2;").is_err());
}

#[test]
fn string_literals_are_decoded() {
    let program = parse("let s = \"a\\tb\";").unwrap();
    assert_eq!(
        program.statements,
        vec![Statement::LetStatement {
            name: "s".to_string(),
            type_annotation: None,
            value: Some(Expression::Literal(Literal::String("a\tb".to_string()))),
        }]
    );
}

#[test]
fn precedence_and_associativity_with_unary() {
    assert_eq!(
        single_expression("a - b - c * -d == e < f;"),
        bin(
            bin(
                bin(ident("a"), BinaryOperator::Subtract, ident("b")),
                BinaryOperator::Subtract,
                bin(
                    ident("c"),
                    BinaryOperator::Multiply,
                    Expression::UnaryOperation { operator: UnaryOperator::Negate, operand: Box::new(ident("d")) }
                )
            ),
            BinaryOperator::Equal,
            bin(ident("e"), BinaryOperator::LessThan, ident("f"))
        )
    );
}

#[test]
fn joined_sources_join_statements() {
    let a = parse("let x = 1; y;").unwrap();
    let b = parse("z + 2;").unwrap();
    let both = parse("let x = 1; y;\nz + 2;").unwrap();
    let mut expected = a.statements;
    expected.extend(b.statements);
    assert_eq!(both.statements, expected);
}

#[test]
fn nested_blocks_and_while() {
    let program = parse("while (x < 3) { { y; } }").unwrap();
    assert_eq!(
        program.statements,
        vec![Statement::WhileStatement {
            condition: bin(ident("x"), BinaryOperator::LessThan, num(3)),
            body: Box::new(Statement::BlockStatement(vec![Statement::BlockStatement(vec![
                Statement::ExpressionStatement(ident("y"))
            ])])),
        }]
    );
}
