//! Abstract syntax tree: every composite node owns its children, so the tree
//! has no sharing and no cycles.

use vstd::prelude::*;

verus! {

/// A literal value. A float literal keeps its source text (digits and one dot),
/// which denotes its value exactly.
#[derive(Clone, Debug, PartialEq)]
pub enum Literal {
    Integer(i64),
    Float(String),
    String(String),
    Boolean(bool),
}

#[derive(Clone, Copy, Debug, PartialEq, Eq, Structural)]
pub enum BinaryOperator {
    Add,
    Subtract,
    Multiply,
    Divide,
    Modulo,
    Equal,
    NotEqual,
    LessThan,
    GreaterThan,
    LessThanEqual,
    GreaterThanEqual,
    And,
    Or,
}

#[derive(Clone, Copy, Debug, PartialEq, Eq, Structural)]
pub enum UnaryOperator {
    Negate,
    Not,
}

#[derive(Debug, PartialEq)]
pub enum Expression {
    Literal(Literal),
    Identifier(String),
    BinaryOperation { left: Box<Expression>, operator: BinaryOperator, right: Box<Expression> },
    UnaryOperation { operator: UnaryOperator, operand: Box<Expression> },
    FunctionCall { function: Box<Expression>, arguments: Vec<Expression> },
    ArrayLiteral(Vec<Expression>),
    IndexAccess { array: Box<Expression>, index: Box<Expression> },
    StructLiteral { name: String, fields: Vec<(String, Expression)> },
    FieldAccess { object: Box<Expression>, field: String },
    QuantumOperation { operation_type: String, qubits: Vec<Expression>, parameters: Vec<Expression> },
    AIModel { model_type: String, parameters: Vec<Expression> },
}

#[derive(Debug, PartialEq)]
pub enum Statement {
    ExpressionStatement(Expression),
    LetStatement { name: String, type_annotation: Option<String>, value: Option<Expression> },
    ConstStatement { name: String, type_annotation: Option<String>, value: Expression },
    ReturnStatement(Option<Expression>),
    BlockStatement(Vec<Statement>),
    IfStatement {
        condition: Expression,
        consequence: Box<Statement>,
        alternative: Option<Box<Statement>>,
    },
    WhileStatement { condition: Expression, body: Box<Statement> },
    ForStatement { variable: String, iterable: Expression, body: Box<Statement> },
    /// Parameters are (name, type) pairs.
    FunctionDeclaration {
        name: String,
        parameters: Vec<(String, String)>,
        return_type: Option<String>,
        body: Box<Statement>,
    },
    /// Fields are (name, type) pairs.
    StructDeclaration { name: String, fields: Vec<(String, String)> },
    EnumDeclaration { name: String, variants: Vec<String> },
    /// Methods are function declarations.
    TraitDeclaration { name: String, methods: Vec<Statement> },
    /// Methods are function declarations.
    ImplDeclaration { trait_name: Option<String>, target_type: String, methods: Vec<Statement> },
    QuantumDeclaration { name: String, qubits: usize, operations: Vec<Statement> },
    DistributedDeclaration { name: String, nodes: Vec<String>, body: Box<Statement> },
    AIDeclaration {
        name: String,
        model_type: String,
        parameters: Vec<(String, Expression)>,
        body: Option<Box<Statement>>,
    },
}

#[derive(Debug, PartialEq)]
pub struct Program {
    pub statements: Vec<Statement>,
}

} // verus!
