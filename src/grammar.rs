//! The grammar of a core of the language, as spec functions over token
//! models: `let` bindings, blocks, `if`, `while` and expression statements,
//! whose expressions are built from integer literals, identifiers, unary and
//! binary operators, parentheses, array literals, calls, index accesses and
//! field accesses. Each function gives the parsed value and the index after it,
//! or `None` when the input leaves this core (the parser's contracts then
//! make no claim through it).

use vstd::prelude::*;
use crate::ast::{BinaryOperator, Expression, Literal, Program, Statement, UnaryOperator};
use crate::lexer::{TokenModel, TokenType};
use crate::parser::{all_digits, digits_value};

verus! {

/// An expression of the core as a mathematical value; `Other` stands for
/// any expression outside the core.
pub enum ExprView {
    Int(int),
    Ident(Seq<char>),
    Binary(Box<ExprView>, BinaryOperator, Box<ExprView>),
    Unary(UnaryOperator, Box<ExprView>),
    Call(Box<ExprView>, Seq<ExprView>),
    Array(Seq<ExprView>),
    Index(Box<ExprView>, Box<ExprView>),
    Field(Box<ExprView>, Seq<char>),
    Other,
}

/// A statement of the core as a mathematical value.
pub enum StmtView {
    Expr(ExprView),
    Let(Seq<char>, Option<Seq<char>>, Option<ExprView>),
    Block(Seq<StmtView>),
    If(ExprView, Box<StmtView>, Option<Box<StmtView>>),
    While(ExprView, Box<StmtView>),
    Other,
}

pub open spec fn expr_view(e: Expression) -> ExprView
    decreases e,
{
    match e {
        Expression::Literal(Literal::Integer(v)) => ExprView::Int(v as int),
        Expression::Identifier(n) => ExprView::Ident(n@),
        Expression::BinaryOperation { left, operator, right } => ExprView::Binary(
            Box::new(expr_view(*left)),
            operator,
            Box::new(expr_view(*right)),
        ),
        Expression::UnaryOperation { operator, operand } => ExprView::Unary(
            operator,
            Box::new(expr_view(*operand)),
        ),
        Expression::FunctionCall { function, arguments } => ExprView::Call(
            Box::new(expr_view(*function)),
            Seq::new(
                arguments@.len(),
                |k: int|
                    {
                        if 0 <= k < arguments@.len() {
                            expr_view(arguments@[k])
                        } else {
                            ExprView::Other
                        }
                    },
            ),
        ),
        Expression::ArrayLiteral(items) => ExprView::Array(
            Seq::new(
                items@.len(),
                |k: int|
                    {
                        if 0 <= k < items@.len() {
                            expr_view(items@[k])
                        } else {
                            ExprView::Other
                        }
                    },
            ),
        ),
        Expression::IndexAccess { array, index } => ExprView::Index(
            Box::new(expr_view(*array)),
            Box::new(expr_view(*index)),
        ),
        Expression::FieldAccess { object, field } => ExprView::Field(
            Box::new(expr_view(*object)),
            field@,
        ),
        _ => ExprView::Other,
    }
}

pub open spec fn opt_text(o: Option<String>) -> Option<Seq<char>> {
    match o {
        Some(s) => Some(s@),
        None => None,
    }
}

pub open spec fn opt_expr(o: Option<Expression>) -> Option<ExprView> {
    match o {
        Some(e) => Some(expr_view(e)),
        None => None,
    }
}

pub open spec fn stmt_view(s: Statement) -> StmtView
    decreases s,
{
    match s {
        Statement::ExpressionStatement(e) => StmtView::Expr(expr_view(e)),
        Statement::LetStatement { name, type_annotation, value } => StmtView::Let(
            name@,
            opt_text(type_annotation),
            opt_expr(value),
        ),
        Statement::BlockStatement(v) => StmtView::Block(
            Seq::new(
                v@.len(),
                |k: int|
                    {
                        if 0 <= k < v@.len() {
                            stmt_view(v@[k])
                        } else {
                            StmtView::Other
                        }
                    },
            ),
        ),
        Statement::IfStatement { condition, consequence, alternative } => StmtView::If(
            expr_view(condition),
            Box::new(stmt_view(*consequence)),
            match alternative {
                Some(a) => Some(Box::new(stmt_view(*a))),
                None => None,
            },
        ),
        Statement::WhileStatement { condition, body } => StmtView::While(
            expr_view(condition),
            Box::new(stmt_view(*body)),
        ),
        _ => StmtView::Other,
    }
}

pub open spec fn program_view(p: Program) -> Seq<StmtView> {
    p.statements@.map_values(|s: Statement| stmt_view(s))
}

/// The binary operator a token kind stands for, with its precedence.
pub open spec fn bin_op(k: TokenType) -> Option<(BinaryOperator, int)> {
    match k {
        TokenType::Or => Some((BinaryOperator::Or, 1)),
        TokenType::And => Some((BinaryOperator::And, 2)),
        TokenType::Equal => Some((BinaryOperator::Equal, 3)),
        TokenType::NotEqual => Some((BinaryOperator::NotEqual, 3)),
        TokenType::LessThan => Some((BinaryOperator::LessThan, 4)),
        TokenType::GreaterThan => Some((BinaryOperator::GreaterThan, 4)),
        TokenType::LessThanEqual => Some((BinaryOperator::LessThanEqual, 4)),
        TokenType::GreaterThanEqual => Some((BinaryOperator::GreaterThanEqual, 4)),
        TokenType::Plus => Some((BinaryOperator::Add, 5)),
        TokenType::Minus => Some((BinaryOperator::Subtract, 5)),
        TokenType::Multiply => Some((BinaryOperator::Multiply, 6)),
        TokenType::Divide => Some((BinaryOperator::Divide, 6)),
        TokenType::Modulo => Some((BinaryOperator::Modulo, 6)),
        _ => None,
    }
}

/// An integer literal, an identifier (not opening a struct literal) or a
/// parenthesised expression or an array literal at `i`.
pub open spec fn core_primary(t: Seq<TokenModel>, i: int) -> Option<(ExprView, int)>
    decreases t.len() - i, 0nat,
{
    if !(0 <= i < t.len()) {
        None
    } else if t[i].0 == TokenType::IntLiteral {
        if t[i].1.len() > 0 && all_digits(t[i].1) && digits_value(t[i].1) <= i64::MAX {
            Some((ExprView::Int(digits_value(t[i].1)), i + 1))
        } else {
            None
        }
    } else if t[i].0 == TokenType::Identifier {
        if i + 3 < t.len() && t[i + 1].0 == TokenType::LeftBrace && t[i + 2].0
            == TokenType::Identifier && t[i + 3].0 == TokenType::Colon {
            None
        } else {
            Some((ExprView::Ident(t[i].1), i + 1))
        }
    } else if t[i].0 == TokenType::LeftParen {
        match core_expr(t, i + 1, 1) {
            Some((e, j)) => if i < j < t.len() && t[j].0 == TokenType::RightParen {
                Some((e, j + 1))
            } else {
                None
            },
            None => None,
        }
    } else if t[i].0 == TokenType::LeftBracket {
        match core_list(t, i + 1, TokenType::RightBracket) {
            Some((items, j)) => Some((ExprView::Array(items), j)),
            None => None,
        }
    } else {
        None
    }
}

/// Comma-separated expressions from `i` up to and including `close`, with an
/// optional trailing comma.
pub open spec fn core_list(t: Seq<TokenModel>, i: int, close: TokenType) -> Option<
    (Seq<ExprView>, int),
>
    decreases t.len() - i, 6nat,
{
    if !(0 <= i < t.len()) {
        None
    } else if t[i].0 == close {
        Some((Seq::empty(), i + 1))
    } else {
        core_list_items(t, i, close)
    }
}

/// At least one expression of a list, from `i` up to and including `close`.
pub open spec fn core_list_items(t: Seq<TokenModel>, i: int, close: TokenType) -> Option<
    (Seq<ExprView>, int),
>
    decreases t.len() - i, 5nat,
{
    match core_expr(t, i, 1) {
        Some((e, k)) => if 0 <= i < k < t.len() {
            if t[k].0 == close {
                Some((seq![e], k + 1))
            } else if t[k].0 == TokenType::Comma && k + 1 < t.len() {
                if t[k + 1].0 == close {
                    Some((seq![e], k + 2))
                } else {
                    match core_list_items(t, k + 1, close) {
                        Some((rest, m)) => Some((seq![e] + rest, m)),
                        None => None,
                    }
                }
            } else {
                None
            }
        } else {
            None
        },
        None => None,
    }
}

/// With `e` parsed up to `j`, applies every following call, index access
/// and field access, left to right.
pub open spec fn core_post(t: Seq<TokenModel>, e: ExprView, j: int) -> Option<(ExprView, int)>
    decreases t.len() - j, 1nat,
{
    if !(0 <= j < t.len()) {
        None
    } else if t[j].0 == TokenType::LeftParen {
        match core_list(t, j + 1, TokenType::RightParen) {
            Some((args, k)) => if j < k <= t.len() {
                core_post(t, ExprView::Call(Box::new(e), args), k)
            } else {
                None
            },
            None => None,
        }
    } else if t[j].0 == TokenType::LeftBracket {
        match core_expr(t, j + 1, 1) {
            Some((x, k)) => if j < k < t.len() && t[k].0 == TokenType::RightBracket {
                core_post(t, ExprView::Index(Box::new(e), Box::new(x)), k + 1)
            } else {
                None
            },
            None => None,
        }
    } else if t[j].0 == TokenType::Dot {
        if j + 1 < t.len() && t[j + 1].0 == TokenType::Identifier {
            core_post(t, ExprView::Field(Box::new(e), t[j + 1].1), j + 2)
        } else {
            None
        }
    } else {
        Some((e, j))
    }
}

/// A primary expression followed by its postfix chain.
pub open spec fn core_postfix(t: Seq<TokenModel>, i: int) -> Option<(ExprView, int)>
    decreases t.len() - i, 2nat,
{
    match core_primary(t, i) {
        Some((e, j)) => if i < j <= t.len() {
            core_post(t, e, j)
        } else {
            None
        },
        None => None,
    }
}

/// Prefix `-` and `!`, applied right to left.
pub open spec fn core_unary(t: Seq<TokenModel>, i: int) -> Option<(ExprView, int)>
    decreases t.len() - i, 3nat,
{
    if !(0 <= i < t.len()) {
        None
    } else if t[i].0 == TokenType::Minus || t[i].0 == TokenType::Not {
        let op = if t[i].0 == TokenType::Minus {
            UnaryOperator::Negate
        } else {
            UnaryOperator::Not
        };
        match core_unary(t, i + 1) {
            Some((e, j)) => Some((ExprView::Unary(op, Box::new(e)), j)),
            None => None,
        }
    } else {
        core_postfix(t, i)
    }
}

/// An expression at `i` whose binary operators bind at least as tightly as
/// `min`.
pub open spec fn core_expr(t: Seq<TokenModel>, i: int, min: int) -> Option<(ExprView, int)>
    decreases t.len() - i, 4nat,
{
    match core_unary(t, i) {
        Some((l, j)) => if i < j <= t.len() {
            core_climb(t, l, j, min)
        } else {
            None
        },
        None => None,
    }
}

/// Precedence climbing: with `l` parsed up to `j`, folds in every following
/// operator of precedence at least `min`, its right operand parsed at one
/// level higher, so operators of one level group to the left.
pub open spec fn core_climb(t: Seq<TokenModel>, l: ExprView, j: int, min: int) -> Option<
    (ExprView, int),
>
    decreases t.len() - j, 4nat,
{
    if !(0 <= j < t.len()) {
        None
    } else {
        match bin_op(t[j].0) {
            Some((op, p)) => if p >= min {
                match core_expr(t, j + 1, p + 1) {
                    Some((r, k)) => if j < k <= t.len() {
                        core_climb(t, ExprView::Binary(Box::new(l), op, Box::new(r)), k, min)
                    } else {
                        None
                    },
                    None => None,
                }
            } else {
                Some((l, j))
            },
            None => Some((l, j)),
        }
    }
}

/// The rest of a `let` after its name and annotation, from `j`: `= expr ;`
/// or `;`.
pub open spec fn core_let_value(
    t: Seq<TokenModel>,
    name: Seq<char>,
    ann: Option<Seq<char>>,
    j: int,
) -> Option<(StmtView, int)> {
    if !(0 <= j < t.len()) {
        None
    } else if t[j].0 == TokenType::Assign {
        match core_expr(t, j + 1, 1) {
            Some((e, k)) => if 0 <= k < t.len() && t[k].0 == TokenType::Semicolon {
                Some((StmtView::Let(name, ann, Some(e)), k + 1))
            } else {
                None
            },
            None => None,
        }
    } else if t[j].0 == TokenType::Semicolon {
        Some((StmtView::Let(name, ann, None), j + 1))
    } else {
        None
    }
}

/// `let name [: Type] [= expr] ;` at `i`.
pub open spec fn core_let(t: Seq<TokenModel>, i: int) -> Option<(StmtView, int)> {
    if !(0 <= i && i + 2 < t.len() && t[i].0 == TokenType::Let && t[i + 1].0
        == TokenType::Identifier) {
        None
    } else if t[i + 2].0 == TokenType::Colon {
        if i + 4 < t.len() && t[i + 3].0 == TokenType::Identifier {
            core_let_value(t, t[i + 1].1, Some(t[i + 3].1), i + 4)
        } else {
            None
        }
    } else {
        core_let_value(t, t[i + 1].1, None, i + 2)
    }
}

/// Whether a token of kind `k` opens a statement other than an expression
/// statement.
pub open spec fn opens_statement(k: TokenType) -> bool {
    match k {
        TokenType::Let | TokenType::Const | TokenType::Return | TokenType::LeftBrace
        | TokenType::If | TokenType::While | TokenType::For | TokenType::Fn | TokenType::Struct
        | TokenType::Enum | TokenType::Trait | TokenType::Impl | TokenType::Quantum
        | TokenType::Distributed | TokenType::AI => true,
        _ => false,
    }
}

/// `( expr )` at `i`.
pub open spec fn core_cond(t: Seq<TokenModel>, i: int) -> Option<(ExprView, int)> {
    if 0 <= i < t.len() && t[i].0 == TokenType::LeftParen {
        match core_expr(t, i + 1, 1) {
            Some((e, k)) => if 0 <= k < t.len() && t[k].0 == TokenType::RightParen {
                Some((e, k + 1))
            } else {
                None
            },
            None => None,
        }
    } else {
        None
    }
}

/// A statement of the core at `i`: `let`, a block, `if (c) s [else s]`,
/// `while (c) s`, or an expression statement `expr ;`.
pub open spec fn core_stmt(t: Seq<TokenModel>, i: int) -> Option<(StmtView, int)>
    decreases t.len() - i, 1nat,
{
    if !(0 <= i < t.len()) {
        None
    } else if t[i].0 == TokenType::Let {
        core_let(t, i)
    } else if t[i].0 == TokenType::LeftBrace {
        match core_items(t, i + 1) {
            Some((ss, j)) => Some((StmtView::Block(ss), j)),
            None => None,
        }
    } else if t[i].0 == TokenType::If || t[i].0 == TokenType::While {
        match core_cond(t, i + 1) {
            Some((c, j)) => if i < j < t.len() {
                match core_stmt(t, j) {
                    Some((a, k)) => if t[i].0 == TokenType::While {
                        Some((StmtView::While(c, Box::new(a)), k))
                    } else if j < k < t.len() && t[k].0 == TokenType::Else {
                        match core_stmt(t, k + 1) {
                            Some((b, m)) => Some((StmtView::If(c, Box::new(a), Some(Box::new(b))), m)),
                            None => None,
                        }
                    } else {
                        Some((StmtView::If(c, Box::new(a), None), k))
                    },
                    None => None,
                }
            } else {
                None
            },
            None => None,
        }
    } else if opens_statement(t[i].0) {
        None
    } else {
        match core_expr(t, i, 1) {
            Some((e, k)) => if 0 <= k < t.len() && t[k].0 == TokenType::Semicolon {
                Some((StmtView::Expr(e), k + 1))
            } else {
                None
            },
            None => None,
        }
    }
}

/// The statements of a block from `i` up to and including its `}`.
pub open spec fn core_items(t: Seq<TokenModel>, i: int) -> Option<(Seq<StmtView>, int)>
    decreases t.len() - i, 2nat,
{
    if !(0 <= i < t.len()) {
        None
    } else if t[i].0 == TokenType::RightBrace {
        Some((Seq::empty(), i + 1))
    } else if t[i].0 == TokenType::EOF {
        None
    } else {
        match core_stmt(t, i) {
            Some((st, j)) => if i < j <= t.len() {
                match core_items(t, j) {
                    Some((rest, k)) => Some((seq![st] + rest, k)),
                    None => None,
                }
            } else {
                None
            },
            None => None,
        }
    }
}

/// The statements from `i` to the end of input.
pub open spec fn core_program(t: Seq<TokenModel>, i: int) -> Option<Seq<StmtView>>
    decreases t.len() - i,
{
    if !(0 <= i < t.len()) {
        None
    } else if t[i].0 == TokenType::EOF {
        Some(Seq::empty())
    } else {
        match core_stmt(t, i) {
            Some((st, j)) => if i < j <= t.len() {
                match core_program(t, j) {
                    Some(rest) => Some(seq![st] + rest),
                    None => None,
                }
            } else {
                None
            },
            None => None,
        }
    }
}

} // verus!
