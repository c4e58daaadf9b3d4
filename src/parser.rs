//! Recursive-descent parser with precedence climbing for binary operators.
//!
//! Grammar conventions: `if` and `while` conditions are parenthesised, a
//! function body is a block, and a struct literal is recognised by the
//! look-ahead `Name { field :`.

use vstd::prelude::*;
use vstd::string::*;
use crate::ast::{BinaryOperator, Expression, Literal, Program, Statement, UnaryOperator};
use crate::grammar::{
    core_cond, core_items, core_list, core_list_items, core_post, core_let, core_program, core_stmt, program_view, stmt_view, bin_op, core_expr, core_postfix, core_primary, core_unary, core_climb, expr_view,
};
use crate::lexer::{decode_string, token_models, Token, TokenType};

verus! {

#[derive(Clone, Copy, Debug, PartialEq, Eq, Structural)]
pub enum ErrorKind {
    /// The offending token is one the lexer could not classify.
    Lexical,
    /// The token stream breaks the grammar.
    Syntax,
    /// An integer literal does not fit its type.
    InvalidNumber,
}

/// What the parser was looking for when it stopped.
#[derive(Clone, Copy, Debug, PartialEq, Eq, Structural)]
pub enum Expected {
    Token(TokenType),
    ExpressionStart,
    Number,
}

/// The first error met, positioned at the token where parsing stopped.
#[derive(Clone, Debug, PartialEq)]
pub struct SyntaxError {
    pub kind: ErrorKind,
    pub expected: Expected,
    pub found: TokenType,
    pub lexeme: String,
    pub line: usize,
    pub column: usize,
}

/// `e` describes the token `t`: its place, its kind and its text.
pub open spec fn error_at(e: SyntaxError, t: (TokenType, Seq<char>, int, int)) -> bool {
    &&& e.line as int == t.2
    &&& e.column as int == t.3
    &&& e.found == t.0
    &&& e.lexeme@ == t.1
    &&& (e.kind == ErrorKind::Lexical <==> t.0 == TokenType::Unknown)
}

/// Whether a token of kind `k` can begin an expression.
pub open spec fn starts_expression(k: TokenType) -> bool {
    match k {
        TokenType::IntLiteral | TokenType::FloatLiteral | TokenType::StringLiteral
        | TokenType::BoolLiteral | TokenType::Identifier | TokenType::LeftParen
        | TokenType::LeftBracket | TokenType::Minus | TokenType::Not => true,
        _ => false,
    }
}

/// `starts[i]` is the index in `toks` of the first token of `stmts[i]`: the
/// starts increase, each statement takes the form its first token announces,
/// and a declaration's name is the token right after that one.
pub open spec fn statements_begin_at(
    toks: Seq<(TokenType, Seq<char>, int, int)>,
    stmts: Seq<Statement>,
    starts: Seq<int>,
) -> bool {
    &&& starts.len() == stmts.len()
    &&& forall|i: int| 0 <= i < starts.len() ==> 0 <= #[trigger] starts[i] && starts[i] + 1 < toks.len()
    &&& forall|i: int, j: int| 0 <= i < j < starts.len() ==> starts[i] < starts[j]
    &&& forall|i: int|
        0 <= i < starts.len() ==> announces(toks[#[trigger] starts[i]].0, stmts[i])
    &&& forall|i: int|
        0 <= i < starts.len() && (#[trigger] declared_name(stmts[i])) is Some ==> declared_name(
            stmts[i],
        ) == Some(toks[starts[i] + 1].1)
}

/// Where a statement starting at `i` with `let` fails early, and what was
/// expected there: a name right after `let`, or an expression right after
/// `let name =`.
pub open spec fn let_error(toks: Seq<(TokenType, Seq<char>, int, int)>, i: int) -> Option<
    (int, Expected),
> {
    if toks[i].0 != TokenType::Let {
        None
    } else if toks[i + 1].0 != TokenType::Identifier {
        Some((i + 1, Expected::Token(TokenType::Identifier)))
    } else if toks[i + 2].0 == TokenType::Assign && !starts_expression(toks[i + 3].0) {
        Some((i + 3, Expected::ExpressionStart))
    } else {
        None
    }
}

/// The name that a declaration or binding introduces.
pub open spec fn declared_name(st: Statement) -> Option<Seq<char>> {
    match st {
        Statement::LetStatement { name, .. } => Some(name@),
        Statement::ConstStatement { name, .. } => Some(name@),
        Statement::ForStatement { variable, .. } => Some(variable@),
        Statement::FunctionDeclaration { name, .. } => Some(name@),
        Statement::StructDeclaration { name, .. } => Some(name@),
        Statement::EnumDeclaration { name, .. } => Some(name@),
        Statement::TraitDeclaration { name, .. } => Some(name@),
        Statement::QuantumDeclaration { name, .. } => Some(name@),
        Statement::DistributedDeclaration { name, .. } => Some(name@),
        Statement::AIDeclaration { name, .. } => Some(name@),
        _ => None,
    }
}

/// The statement form that a statement starting with a token of kind `k` takes.
pub open spec fn announces(k: TokenType, st: Statement) -> bool {
    match k {
        TokenType::Let => st is LetStatement,
        TokenType::Const => st is ConstStatement,
        TokenType::Return => st is ReturnStatement,
        TokenType::LeftBrace => st is BlockStatement,
        TokenType::If => st is IfStatement,
        TokenType::While => st is WhileStatement,
        TokenType::For => st is ForStatement,
        TokenType::Fn => st is FunctionDeclaration,
        TokenType::Struct => st is StructDeclaration,
        TokenType::Enum => st is EnumDeclaration,
        TokenType::Trait => st is TraitDeclaration,
        TokenType::Impl => st is ImplDeclaration,
        TokenType::Quantum => st is QuantumDeclaration,
        TokenType::Distributed => st is DistributedDeclaration,
        TokenType::AI => st is AIDeclaration,
        _ => st is ExpressionStatement,
    }
}

/// Digits of `w` read as a decimal number.
pub open spec fn digits_value(w: Seq<char>) -> int
    decreases w.len(),
{
    if w.len() == 0 {
        0
    } else {
        digits_value(w.drop_last()) * 10 + (w.last() as int - '0' as int)
    }
}

pub open spec fn all_digits(w: Seq<char>) -> bool {
    forall|i: int| 0 <= i < w.len() ==> '0' <= #[trigger] w[i] && w[i] <= '9'
}

/// The value of a decimal integer literal, when it fits in an `i64`.
pub fn integer_value(w: &str) -> (r: Option<i64>)
    ensures
        r is Some <==> (w@.len() > 0 && all_digits(w@) && digits_value(w@) <= i64::MAX),
        r is Some ==> r->Some_0 as int == digits_value(w@),
{
    let n = w.unicode_len();
    if n == 0 {
        return None;
    }
    let mut acc: u64 = 0;
    let mut too_large = false;
    let mut i: usize = 0;
    while i < n
        invariant
            n == w@.len(),
            i <= n,
            all_digits(w@.subrange(0, i as int)),
            !too_large ==> acc as int == digits_value(w@.subrange(0, i as int)) && acc
                <= i64::MAX,
            too_large ==> digits_value(w@.subrange(0, i as int)) > i64::MAX,
        decreases n - i,
    {
        let c = w.get_char(i);
        if !('0' <= c && c <= '9') {
            assert(!all_digits(w@)) by {
                assert(w@[i as int] == c);
            }
            return None;
        }
        let ghost prefix = w@.subrange(0, i as int);
        assert(w@.subrange(0, i + 1).drop_last() =~= prefix);
        let d = (c as u32 - '0' as u32) as u64;
        if !too_large {
            if acc <= (9223372036854775807u64 - d) / 10 {
                acc = acc * 10 + d;
            } else {
                too_large = true;
            }
        }
        i = i + 1;
        assert(all_digits(w@.subrange(0, i as int)));
    }
    assert(w@.subrange(0, n as int) =~= w@);
    if too_large {
        None
    } else {
        Some(acc as i64)
    }
}

pub struct Parser {
    tokens: Vec<Token>,
    pos: usize,
}

impl Parser {
    /// The tokens being parsed.
    pub closed spec fn tokens(&self) -> Seq<Token> {
        self.tokens@
    }

    /// Index of the current token.
    pub closed spec fn index(&self) -> int {
        self.pos as int
    }

    /// The token stream ends with its only `EOF` token, and every token
    /// before the current one was consumed as a valid, non-final token.
    pub closed spec fn wf(&self) -> bool {
        &&& self.tokens@.len() > 0
        &&& self.tokens@.last().token_type == TokenType::EOF
        &&& forall|i: int|
            0 <= i < self.tokens@.len() - 1 ==> #[trigger] self.tokens@[i].token_type
                != TokenType::EOF
        &&& self.pos < self.tokens@.len()
        &&& forall|i: int|
            0 <= i < self.pos ==> #[trigger] self.tokens@[i].token_type != TokenType::Unknown
    }

    pub fn new(tokens: Vec<Token>) -> (r: Parser)
        requires
            tokens@.len() > 0,
            tokens@.last().token_type == TokenType::EOF,
            forall|i: int|
                0 <= i < tokens@.len() - 1 ==> #[trigger] tokens@[i].token_type != TokenType::EOF,
        ensures
            r.wf(),
            r.tokens() == tokens@,
            r.index() == 0,
    {
        Parser { tokens, pos: 0 }
    }

    fn kind(&self) -> (r: TokenType)
        requires
            self.wf(),
        ensures
            r == self.tokens()[self.index()].token_type,
            r == token_models(self.tokens())[self.index()].0,
    {
        proof {
            assert(token_models(self.tokens())[self.index()] == self.tokens()[self.index()]@);
        }
        self.tokens[self.pos].token_type
    }

    /// Kind of the token `k` places ahead, or `EOF` past the end.
    fn peek_kind(&self, k: usize) -> (r: TokenType)
        requires
            self.wf(),
        ensures
            self.index() + k < self.tokens().len() ==> r == self.tokens()[self.index()
                + k].token_type,
            self.index() + k >= self.tokens().len() ==> r == TokenType::EOF,
            self.index() + k < self.tokens().len() ==> r == token_models(self.tokens())[self.index()
                + k].0,
    {
        proof {
            if self.index() + k < self.tokens().len() {
                assert(token_models(self.tokens())[self.index() + k] == self.tokens()[self.index()
                    + k]@);
            }
        }
        if k < self.tokens.len() - self.pos {
            self.tokens[self.pos + k].token_type
        } else {
            TokenType::EOF
        }
    }

    fn advance(&mut self)
        requires
            old(self).wf(),
            old(self).tokens()[old(self).index()].token_type != TokenType::EOF,
            old(self).tokens()[old(self).index()].token_type != TokenType::Unknown,
        ensures
            final(self).wf(),
            final(self).tokens() == old(self).tokens(),
            final(self).index() == old(self).index() + 1,
    {
        let n = self.tokens.len();
        assert(self.tokens@.last() == self.tokens@[n - 1]);
        self.pos = self.pos + 1;
    }

    /// An error at the current token.
    fn error(&self, expected: Expected) -> (e: SyntaxError)
        requires
            self.wf(),
        ensures
            error_at(e, self.tokens()[self.index()]@),
            e.expected == expected,
    {
        let t = &self.tokens[self.pos];
        let kind = if t.token_type == TokenType::Unknown {
            ErrorKind::Lexical
        } else {
            ErrorKind::Syntax
        };
        SyntaxError {
            kind,
            expected,
            found: t.token_type,
            lexeme: t.lexeme.clone(),
            line: t.line,
            column: t.column,
        }
    }

    /// An error for a numeric literal at the current token that does not fit.
    fn number_error(&self) -> (e: SyntaxError)
        requires
            self.wf(),
            self.tokens()[self.index()].token_type != TokenType::Unknown,
        ensures
            error_at(e, self.tokens()[self.index()]@),
            e.kind == ErrorKind::InvalidNumber,
            e.expected == Expected::Number,
    {
        let mut e = self.error(Expected::Number);
        e.kind = ErrorKind::InvalidNumber;
        e
    }

    /// Consumes a token of kind `k`, or fails at the current token.
    fn expect(&mut self, k: TokenType) -> (r: Result<(), SyntaxError>)
        requires
            old(self).wf(),
            k != TokenType::EOF,
            k != TokenType::Unknown,
        ensures
            final(self).wf(),
            final(self).tokens() == old(self).tokens(),
            r is Ok <==> old(self).tokens()[old(self).index()].token_type == k,
            r is Ok ==> final(self).index() == old(self).index() + 1,
            r is Err ==> final(self).index() == old(self).index(),
            r is Err ==> error_at(r->Err_0, final(self).tokens()[final(self).index()]@),
            r is Err ==> r->Err_0.expected == Expected::Token(k),
    {
        if self.kind() == k {
            self.advance();
            Ok(())
        } else {
            Err(self.error(Expected::Token(k)))
        }
    }

    /// Consumes a token of kind `k` and returns its text.
    fn expect_text(&mut self, k: TokenType) -> (r: Result<String, SyntaxError>)
        requires
            old(self).wf(),
            k != TokenType::EOF,
            k != TokenType::Unknown,
        ensures
            final(self).wf(),
            final(self).tokens() == old(self).tokens(),
            r is Ok <==> old(self).tokens()[old(self).index()].token_type == k,
            r is Ok ==> final(self).index() == old(self).index() + 1,
            r is Ok ==> r->Ok_0@ == old(self).tokens()[old(self).index()].lexeme@,
            r is Ok ==> r->Ok_0@ == token_models(old(self).tokens())[old(self).index()].1,
            r is Err ==> final(self).index() == old(self).index(),
            r is Err ==> error_at(r->Err_0, final(self).tokens()[final(self).index()]@),
            r is Err ==> r->Err_0.expected == Expected::Token(k),
    {
        proof {
            assert(token_models(self.tokens())[self.index()] == self.tokens()[self.index()]@);
        }
        if self.kind() == k {
            let text = self.tokens[self.pos].lexeme.clone();
            self.advance();
            Ok(text)
        } else {
            Err(self.error(Expected::Token(k)))
        }
    }

    /// Consumes a token of kind `k` if it is the current one.
    fn eat(&mut self, k: TokenType) -> (r: bool)
        requires
            old(self).wf(),
            k != TokenType::EOF,
            k != TokenType::Unknown,
        ensures
            final(self).wf(),
            final(self).tokens() == old(self).tokens(),
            r == (old(self).tokens()[old(self).index()].token_type == k),
            final(self).index() == old(self).index() + if r {
                1int
            } else {
                0int
            },
    {
        if self.kind() == k {
            self.advance();
            true
        } else {
            false
        }
    }

    /// Parses an expression whose binary operators all bind at least as
    /// tightly as `min` (precedence climbing).
    fn parse_expression(&mut self, min: u8) -> (r: Result<Expression, SyntaxError>)
        requires
            old(self).wf(),
            1 <= min <= 7,
        ensures
            final(self).wf(),
            final(self).tokens() == old(self).tokens(),
            old(self).index() <= final(self).index(),
            r is Ok ==> old(self).index() < final(self).index(),
            r is Err ==> error_at(r->Err_0, final(self).tokens()[final(self).index()]@),
            core_expr(token_models(old(self).tokens()), old(self).index(), min as int) is Some ==> r is Ok && expr_view(r->Ok_0) == core_expr(token_models(old(self).tokens()), old(self).index(), min as int)->Some_0.0
                && final(self).index() == core_expr(token_models(old(self).tokens()), old(self).index(), min as int)->Some_0.1,
            !starts_expression(old(self).tokens()[old(self).index()].token_type) ==> r is Err
                && r->Err_0.expected == Expected::ExpressionStart && final(self).index() == old(
                self,
            ).index(),
        decreases old(self).tokens().len() - old(self).index(), 3nat,
    {
        let ghost start = self.index();
        let ghost toks = self.tokens();
        let mut left = self.parse_unary()?;
        loop
            invariant
                self.wf(),
                self.tokens() == toks,
                toks == old(self).tokens(),
                start == old(self).index(),
                start < self.index(),
                starts_expression(old(self).tokens()[old(self).index()].token_type),
                core_expr(token_models(toks), start, min as int) is Some ==> core_climb(
                    token_models(toks),
                    expr_view(left),
                    self.index(),
                    min as int,
                ) == core_expr(token_models(toks), start, min as int),
            ensures
                core_expr(token_models(toks), start, min as int) is Some ==> core_expr(
                    token_models(toks),
                    start,
                    min as int,
                ) == Some((expr_view(left), self.index())),
            decreases toks.len() - self.index(),
        {
            match binary_operator(self.kind()) {
                Some((operator, prec)) => {
                    if prec < min {
                        assert(core_climb(token_models(toks), expr_view(left), self.index(), min as int)
                            == Some((expr_view(left), self.index())));
                        break;
                    }
                    self.advance();
                    let right = self.parse_expression(prec + 1)?;
                    left = Expression::BinaryOperation {
                        left: Box::new(left),
                        operator,
                        right: Box::new(right),
                    };
                },
                None => {
                    assert(core_climb(token_models(toks), expr_view(left), self.index(), min as int)
                        == Some((expr_view(left), self.index())));
                    break;
                },
            }
        }
        Ok(left)
    }

    fn parse_unary(&mut self) -> (r: Result<Expression, SyntaxError>)
        requires
            old(self).wf(),
        ensures
            final(self).wf(),
            final(self).tokens() == old(self).tokens(),
            old(self).index() <= final(self).index(),
            r is Ok ==> old(self).index() < final(self).index(),
            r is Err ==> error_at(r->Err_0, final(self).tokens()[final(self).index()]@),
            core_unary(token_models(old(self).tokens()), old(self).index()) is Some ==> r is Ok && expr_view(r->Ok_0) == core_unary(token_models(old(self).tokens()), old(self).index())->Some_0.0
                && final(self).index() == core_unary(token_models(old(self).tokens()), old(self).index())->Some_0.1,
            !starts_expression(old(self).tokens()[old(self).index()].token_type) ==> r is Err
                && r->Err_0.expected == Expected::ExpressionStart && final(self).index() == old(
                self,
            ).index(),
        decreases old(self).tokens().len() - old(self).index(), 2nat,
    {
        let k = self.kind();
        if k == TokenType::Minus || k == TokenType::Not {
            self.advance();
            let operand = self.parse_unary()?;
            let operator = if k == TokenType::Minus {
                UnaryOperator::Negate
            } else {
                UnaryOperator::Not
            };
            Ok(Expression::UnaryOperation { operator, operand: Box::new(operand) })
        } else {
            self.parse_postfix()
        }
    }

    /// A primary expression followed by any chain of calls, index accesses
    /// and field accesses, applied left to right.
    fn parse_postfix(&mut self) -> (r: Result<Expression, SyntaxError>)
        requires
            old(self).wf(),
        ensures
            final(self).wf(),
            final(self).tokens() == old(self).tokens(),
            old(self).index() <= final(self).index(),
            r is Ok ==> old(self).index() < final(self).index(),
            r is Err ==> error_at(r->Err_0, final(self).tokens()[final(self).index()]@),
            core_postfix(token_models(old(self).tokens()), old(self).index()) is Some ==> r is Ok && expr_view(r->Ok_0) == core_postfix(token_models(old(self).tokens()), old(self).index())->Some_0.0
                && final(self).index() == core_postfix(token_models(old(self).tokens()), old(self).index())->Some_0.1,
            !starts_expression(old(self).tokens()[old(self).index()].token_type) ==> r is Err
                && r->Err_0.expected == Expected::ExpressionStart && final(self).index() == old(
                self,
            ).index(),
        decreases old(self).tokens().len() - old(self).index(), 1nat,
    {
        let ghost start = self.index();
        let ghost toks = self.tokens();
        let mut e = self.parse_primary()?;
        loop
            invariant
                self.wf(),
                self.tokens() == toks,
                toks == old(self).tokens(),
                start == old(self).index(),
                start < self.index(),
                starts_expression(old(self).tokens()[old(self).index()].token_type),
                core_postfix(token_models(toks), start) is Some ==> core_post(
                    token_models(toks),
                    expr_view(e),
                    self.index(),
                ) == core_postfix(token_models(toks), start),
            ensures
                core_postfix(token_models(toks), start) is Some ==> core_postfix(
                    token_models(toks),
                    start,
                ) == Some((expr_view(e), self.index())),
            decreases toks.len() - self.index(),
        {
            let k = self.kind();
            if k == TokenType::LeftParen {
                self.advance();
                let arguments = self.parse_expression_list(TokenType::RightParen)?;
                let ghost av = arguments@;
                e = Expression::FunctionCall { function: Box::new(e), arguments };
                proof {
                    assert(expr_view(e)->Call_1 =~= av.map_values(|x: Expression| expr_view(x)));
                }
            } else if k == TokenType::LeftBracket {
                self.advance();
                let index = self.parse_expression(1)?;
                self.expect(TokenType::RightBracket)?;
                e = Expression::IndexAccess { array: Box::new(e), index: Box::new(index) };
            } else if k == TokenType::Dot {
                self.advance();
                let field = self.expect_text(TokenType::Identifier)?;
                e = Expression::FieldAccess { object: Box::new(e), field };
            } else {
                assert(core_post(token_models(toks), expr_view(e), self.index()) == Some((
                    expr_view(e),
                    self.index(),
                )));
                break;
            }
        }
        Ok(e)
    }

    fn parse_primary(&mut self) -> (r: Result<Expression, SyntaxError>)
        requires
            old(self).wf(),
        ensures
            final(self).wf(),
            final(self).tokens() == old(self).tokens(),
            old(self).index() <= final(self).index(),
            r is Ok ==> old(self).index() < final(self).index(),
            r is Err ==> error_at(r->Err_0, final(self).tokens()[final(self).index()]@),
            core_primary(token_models(old(self).tokens()), old(self).index()) is Some ==> r is Ok && expr_view(r->Ok_0) == core_primary(token_models(old(self).tokens()), old(self).index())->Some_0.0
                && final(self).index() == core_primary(token_models(old(self).tokens()), old(self).index())->Some_0.1,
            !starts_expression(old(self).tokens()[old(self).index()].token_type) ==> r is Err
                && r->Err_0.expected == Expected::ExpressionStart && final(self).index() == old(
                self,
            ).index(),
        decreases old(self).tokens().len() - old(self).index(), 0nat,
    {
        let k = self.kind();
        if k == TokenType::IntLiteral {
            match integer_value(self.tokens[self.pos].lexeme.as_str()) {
                Some(v) => {
                    self.advance();
                    Ok(Expression::Literal(Literal::Integer(v)))
                },
                None => Err(self.number_error()),
            }
        } else if k == TokenType::FloatLiteral {
            let text = self.expect_text(k)?;
            Ok(Expression::Literal(Literal::Float(text)))
        } else if k == TokenType::StringLiteral {
            let text = self.expect_text(k)?;
            Ok(Expression::Literal(Literal::String(decode_string(text.as_str()))))
        } else if k == TokenType::BoolLiteral {
            let text = self.expect_text(k)?;
            let value = text == String::from_str("true");
            Ok(Expression::Literal(Literal::Boolean(value)))
        } else if k == TokenType::Identifier {
            let is_struct = self.peek_kind(1) == TokenType::LeftBrace && self.peek_kind(2)
                == TokenType::Identifier && self.peek_kind(3) == TokenType::Colon;
            let name = self.expect_text(k)?;
            if is_struct {
                self.advance();
                let fields = self.parse_field_values()?;
                Ok(Expression::StructLiteral { name, fields })
            } else {
                Ok(Expression::Identifier(name))
            }
        } else if k == TokenType::LeftParen {
            self.advance();
            let e = self.parse_expression(1)?;
            self.expect(TokenType::RightParen)?;
            Ok(e)
        } else if k == TokenType::LeftBracket {
            self.advance();
            let items = self.parse_expression_list(TokenType::RightBracket)?;
            let ghost iv = items@;
            let r = Expression::ArrayLiteral(items);
            proof {
                assert(expr_view(r)->Array_0 =~= iv.map_values(|x: Expression| expr_view(x)));
            }
            Ok(r)
        } else {
            Err(self.error(Expected::ExpressionStart))
        }
    }

    /// `field: expr, ...` up to and including the closing brace.
    fn parse_field_values(&mut self) -> (r: Result<Vec<(String, Expression)>, SyntaxError>)
        requires
            old(self).wf(),
        ensures
            final(self).wf(),
            final(self).tokens() == old(self).tokens(),
            old(self).index() <= final(self).index(),
            r is Ok ==> old(self).index() < final(self).index(),
            r is Err ==> error_at(r->Err_0, final(self).tokens()[final(self).index()]@),
        decreases old(self).tokens().len() - old(self).index(), 4nat,
    {
        let ghost start = self.index();
        let ghost toks = self.tokens();
        let mut fields: Vec<(String, Expression)> = Vec::new();
        if self.eat(TokenType::RightBrace) {
            return Ok(fields);
        }
        loop
            invariant
                self.wf(),
                self.tokens() == toks,
                toks == old(self).tokens(),
                start == old(self).index(),
                start <= self.index(),
            ensures
                start < self.index(),
            decreases toks.len() - self.index(),
        {
            let field = self.expect_text(TokenType::Identifier)?;
            self.expect(TokenType::Colon)?;
            let value = self.parse_expression(1)?;
            fields.push((field, value));
            if self.eat(TokenType::RightBrace) {
                break;
            }
            self.expect(TokenType::Comma)?;
            if self.eat(TokenType::RightBrace) {
                break;
            }
        }
        Ok(fields)
    }

    /// Comma-separated expressions up to and including `close`; a trailing
    /// comma is allowed.
    fn parse_expression_list(&mut self, close: TokenType) -> (r: Result<
        Vec<Expression>,
        SyntaxError,
    >)
        requires
            old(self).wf(),
            close != TokenType::EOF,
            close != TokenType::Unknown,
        ensures
            final(self).wf(),
            final(self).tokens() == old(self).tokens(),
            old(self).index() <= final(self).index(),
            r is Ok ==> old(self).index() < final(self).index(),
            r is Err ==> error_at(r->Err_0, final(self).tokens()[final(self).index()]@),
            core_list(token_models(old(self).tokens()), old(self).index(), close) is Some ==> r is Ok && r->Ok_0@.map_values(
                |x: Expression| expr_view(x),
            ) == core_list(token_models(old(self).tokens()), old(self).index(), close)->Some_0.0 && final(self).index() == core_list(
                token_models(old(self).tokens()),
                old(self).index(),
                close,
            )->Some_0.1,
        decreases old(self).tokens().len() - old(self).index(), 4nat,
    {
        let ghost start = self.index();
        let ghost toks = self.tokens();
        let mut items: Vec<Expression> = Vec::new();
        proof {
            assert(token_models(toks)[start] == toks[start]@);
            assert(items@.map_values(|x: Expression| expr_view(x)) =~= Seq::<
                crate::grammar::ExprView,
            >::empty());
        }
        if self.eat(close) {
            return Ok(items);
        }
        loop
            invariant_except_break
                core_list_items(token_models(toks), start, close) is Some ==> core_list_items(
                    token_models(toks),
                    self.index(),
                    close,
                ) is Some && core_list_items(token_models(toks), start, close) == Some((
                    items@.map_values(|x: Expression| expr_view(x)) + core_list_items(
                        token_models(toks),
                        self.index(),
                        close,
                    )->Some_0.0,
                    core_list_items(token_models(toks), self.index(), close)->Some_0.1,
                )),
            invariant
                self.wf(),
                self.tokens() == toks,
                toks == old(self).tokens(),
                start == old(self).index(),
                start <= self.index(),
                close != TokenType::EOF,
                close != TokenType::Unknown,
                core_list(token_models(toks), start, close) is Some ==> core_list_items(
                    token_models(toks),
                    start,
                    close,
                ) is Some,
            ensures
                start < self.index(),
                core_list_items(token_models(toks), start, close) is Some ==> core_list_items(
                    token_models(toks),
                    start,
                    close,
                ) == Some((items@.map_values(|x: Expression| expr_view(x)), self.index())),
            decreases toks.len() - self.index(),
        {
            let ghost before = items@;
            let e = self.parse_expression(1)?;
            items.push(e);
            proof {
                assert(token_models(toks)[self.index()] == toks[self.index()]@);
                if self.index() + 1 < toks.len() {
                    assert(token_models(toks)[self.index() + 1] == toks[self.index() + 1]@);
                }
                assert(items@.map_values(|x: Expression| expr_view(x)) =~= before.map_values(
                    |x: Expression| expr_view(x),
                ).push(expr_view(e)));
                assert(items@.map_values(|x: Expression| expr_view(x)) =~= before.map_values(
                    |x: Expression| expr_view(x),
                ) + seq![expr_view(e)]);
            }
            if self.eat(close) {
                break;
            }
            self.expect(TokenType::Comma)?;
            if self.eat(close) {
                break;
            }
            proof {
                let t = token_models(toks);
                let p = self.index();
                if core_list_items(t, start, close) is Some {
                    assert(core_list_items(t, p, close) is Some);
                    assert(before.map_values(|x: Expression| expr_view(x)) + (seq![expr_view(e)]
                        + core_list_items(t, p, close)->Some_0.0) =~= items@.map_values(
                        |x: Expression| expr_view(x),
                    ) + core_list_items(t, p, close)->Some_0.0);
                }
            }
        }
        proof {
            if core_list(token_models(toks), start, close) is Some {
                assert(core_list(token_models(toks), start, close) == core_list_items(
                    token_models(toks),
                    start,
                    close,
                ));
            }
        }
        Ok(items)
    }

    /// Comma-separated identifiers up to and including `close`.
    fn parse_name_list(&mut self, close: TokenType) -> (r: Result<Vec<String>, SyntaxError>)
        requires
            old(self).wf(),
            close != TokenType::EOF,
            close != TokenType::Unknown,
        ensures
            final(self).wf(),
            final(self).tokens() == old(self).tokens(),
            old(self).index() <= final(self).index(),
            r is Ok ==> old(self).index() < final(self).index(),
            r is Err ==> error_at(r->Err_0, final(self).tokens()[final(self).index()]@),
            r is Ok ==> forall|k: int|
                0 <= k < r->Ok_0@.len() ==> (#[trigger] r->Ok_0@[k])@ == old(self).tokens()[old(
                    self,
                ).index() + 2 * k].lexeme@,
    {
        let ghost start = self.index();
        let ghost toks = self.tokens();
        let mut names: Vec<String> = Vec::new();
        if self.eat(close) {
            return Ok(names);
        }
        loop
            invariant_except_break
                self.index() == start + 2 * names@.len(),
            invariant
                self.wf(),
                self.tokens() == toks,
                toks == old(self).tokens(),
                start == old(self).index(),
                start <= self.index(),
                close != TokenType::EOF,
                close != TokenType::Unknown,
                forall|k: int|
                    0 <= k < names@.len() ==> (#[trigger] names@[k])@ == toks[start + 2 * k].lexeme@,
            ensures
                start < self.index(),
                forall|k: int|
                    0 <= k < names@.len() ==> (#[trigger] names@[k])@ == toks[start + 2 * k].lexeme@,
            decreases toks.len() - self.index(),
        {
            let name = self.expect_text(TokenType::Identifier)?;
            names.push(name);
            if self.eat(close) {
                break;
            }
            self.expect(TokenType::Comma)?;
            if self.eat(close) {
                break;
            }
        }
        Ok(names)
    }

    /// Comma-separated `name: Type` pairs up to and including `close`.
    fn parse_typed_names(&mut self, close: TokenType) -> (r: Result<
        Vec<(String, String)>,
        SyntaxError,
    >)
        requires
            old(self).wf(),
            close != TokenType::EOF,
            close != TokenType::Unknown,
        ensures
            final(self).wf(),
            final(self).tokens() == old(self).tokens(),
            old(self).index() <= final(self).index(),
            r is Ok ==> old(self).index() < final(self).index(),
            r is Err ==> error_at(r->Err_0, final(self).tokens()[final(self).index()]@),
    {
        let ghost start = self.index();
        let ghost toks = self.tokens();
        let mut pairs: Vec<(String, String)> = Vec::new();
        if self.eat(close) {
            return Ok(pairs);
        }
        loop
            invariant
                self.wf(),
                self.tokens() == toks,
                toks == old(self).tokens(),
                start == old(self).index(),
                start <= self.index(),
                close != TokenType::EOF,
                close != TokenType::Unknown,
            ensures
                start < self.index(),
            decreases toks.len() - self.index(),
        {
            let name = self.expect_text(TokenType::Identifier)?;
            self.expect(TokenType::Colon)?;
            let ty = self.expect_text(TokenType::Identifier)?;
            pairs.push((name, ty));
            if self.eat(close) {
                break;
            }
            self.expect(TokenType::Comma)?;
            if self.eat(close) {
                break;
            }
        }
        Ok(pairs)
    }

    /// Parses one statement, dispatching on its first token.
    pub fn parse_statement(&mut self) -> (r: Result<Statement, SyntaxError>)
        requires
            old(self).wf(),
        ensures
            final(self).wf(),
            final(self).tokens() == old(self).tokens(),
            old(self).index() <= final(self).index(),
            r is Ok ==> old(self).index() < final(self).index(),
            r is Err ==> error_at(r->Err_0, final(self).tokens()[final(self).index()]@),
            core_stmt(token_models(old(self).tokens()), old(self).index()) is Some ==> r is Ok && stmt_view(r->Ok_0) == core_stmt(token_models(old(self).tokens()), old(self).index())->Some_0.0
                && final(self).index() == core_stmt(token_models(old(self).tokens()), old(self).index())->Some_0.1,
            let_error(token_models(old(self).tokens()), old(self).index()) is Some ==> r is Err
                && final(self).index() == let_error(
                token_models(old(self).tokens()),
                old(self).index(),
            )->Some_0.0 && r->Err_0.expected == let_error(
                token_models(old(self).tokens()),
                old(self).index(),
            )->Some_0.1,
            r is Ok && declared_name(r->Ok_0) is Some ==> declared_name(r->Ok_0) == Some(
                old(self).tokens()[old(self).index() + 1].lexeme@,
            ),
            r is Ok ==> announces(old(self).tokens()[old(self).index()].token_type, r->Ok_0),
        decreases old(self).tokens().len() - old(self).index(), 6nat,
    {
        proof {
            let m = token_models(self.tokens());
            assert(m[self.index()] == self.tokens()[self.index()]@);
        }
        let k = self.kind();
        match k {
            TokenType::Let => self.parse_let(),
            TokenType::Const => self.parse_const(),
            TokenType::Return => self.parse_return(),
            TokenType::LeftBrace => {
                let statements = self.parse_block()?;
                let ghost v = statements@;
                let r = Statement::BlockStatement(statements);
                proof {
                    assert(stmt_view(r)->Block_0 =~= v.map_values(|x: Statement| stmt_view(x)));
                }
                Ok(r)
            },
            TokenType::If => self.parse_if(),
            TokenType::While => self.parse_while(),
            TokenType::For => self.parse_for(),
            TokenType::Fn => self.parse_function(),
            TokenType::Struct => self.parse_struct(),
            TokenType::Enum => self.parse_enum(),
            TokenType::Trait => self.parse_trait(),
            TokenType::Impl => self.parse_impl(),
            TokenType::Quantum => self.parse_quantum(),
            TokenType::Distributed => self.parse_distributed(),
            TokenType::AI => self.parse_ai(),
            _ => {
                let e = self.parse_expression(1)?;
                self.expect(TokenType::Semicolon)?;
                Ok(Statement::ExpressionStatement(e))
            },
        }
    }

    /// `{ statement* }`: the statements of a block.
    fn parse_block(&mut self) -> (r: Result<Vec<Statement>, SyntaxError>)
        requires
            old(self).wf(),
        ensures
            final(self).wf(),
            final(self).tokens() == old(self).tokens(),
            old(self).index() <= final(self).index(),
            r is Ok ==> old(self).index() < final(self).index(),
            r is Err ==> error_at(r->Err_0, final(self).tokens()[final(self).index()]@),
            token_models(old(self).tokens())[old(self).index()].0 == TokenType::LeftBrace && core_items(token_models(old(self).tokens()), old(self).index() + 1) is Some ==> r is Ok
                && r->Ok_0@.map_values(|x: Statement| stmt_view(x)) == core_items(
                token_models(old(self).tokens()),
                old(self).index() + 1,
            )->Some_0.0 && final(self).index() == core_items(token_models(old(self).tokens()), old(self).index() + 1)->Some_0.1,
        decreases old(self).tokens().len() - old(self).index(), 5nat,
    {
        let ghost start = self.index();
        let ghost toks = self.tokens();
        self.expect(TokenType::LeftBrace)?;
        let mut statements: Vec<Statement> = Vec::new();
        while !self.eat(TokenType::RightBrace)
            invariant
                self.wf(),
                self.tokens() == toks,
                toks == old(self).tokens(),
                start == old(self).index(),
                start < self.index(),
                token_models(toks)[start].0 == TokenType::LeftBrace && core_items(token_models(toks), start + 1) is Some
                    ==> core_items(token_models(toks), self.index()) is Some && core_items(
                    token_models(toks),
                    start + 1,
                ) == Some((
                    statements@.map_values(|x: Statement| stmt_view(x)) + core_items(
                        token_models(toks),
                        self.index(),
                    )->Some_0.0,
                    core_items(token_models(toks), self.index())->Some_0.1,
                )),
            decreases toks.len() - self.index(),
        {
            if self.kind() == TokenType::EOF {
                return Err(self.error(Expected::Token(TokenType::RightBrace)));
            }
            let s = self.parse_statement()?;
            let ghost before = statements@;
            statements.push(s);
            proof {
                assert(statements@.map_values(|x: Statement| stmt_view(x)) =~= before.map_values(
                    |x: Statement| stmt_view(x),
                ).push(stmt_view(s)));
            }
        }
        proof {
            assert(statements@.map_values(|x: Statement| stmt_view(x)) + Seq::<
                crate::grammar::StmtView,
            >::empty() =~= statements@.map_values(|x: Statement| stmt_view(x)));
        }
        Ok(statements)
    }

    /// `let name [: Type] [= expr];`
    fn parse_let(&mut self) -> (r: Result<Statement, SyntaxError>)
        requires
            old(self).wf(),
            old(self).tokens()[old(self).index()].token_type == TokenType::Let,
        ensures
            final(self).wf(),
            final(self).tokens() == old(self).tokens(),
            old(self).index() <= final(self).index(),
            r is Ok ==> old(self).index() < final(self).index(),
            r is Err ==> error_at(r->Err_0, final(self).tokens()[final(self).index()]@),
            core_let(token_models(old(self).tokens()), old(self).index()) is Some ==> r is Ok && stmt_view(r->Ok_0) == core_let(token_models(old(self).tokens()), old(self).index())->Some_0.0
                && final(self).index() == core_let(token_models(old(self).tokens()), old(self).index())->Some_0.1,
            let_error(token_models(old(self).tokens()), old(self).index()) is Some ==> r is Err
                && final(self).index() == let_error(
                token_models(old(self).tokens()),
                old(self).index(),
            )->Some_0.0 && r->Err_0.expected == let_error(
                token_models(old(self).tokens()),
                old(self).index(),
            )->Some_0.1,
            r is Ok ==> declared_name(r->Ok_0) == Some(old(self).tokens()[old(self).index() + 1].lexeme@),
            r is Ok ==> r->Ok_0 is LetStatement,
        decreases old(self).tokens().len() - old(self).index(), 5nat,
    {
        proof {
            let m = token_models(self.tokens());
            let i = self.index();
            assert(m[i] == self.tokens()[i]@);
            assert(m[i + 1] == self.tokens()[i + 1]@);
            if i + 2 < m.len() {
                assert(m[i + 2] == self.tokens()[i + 2]@);
            }
            if i + 3 < m.len() {
                assert(m[i + 3] == self.tokens()[i + 3]@);
            }
        }
        self.advance();
        let name = self.expect_text(TokenType::Identifier)?;
        let type_annotation = if self.eat(TokenType::Colon) {
            Some(self.expect_text(TokenType::Identifier)?)
        } else {
            None
        };
        let value = if self.eat(TokenType::Assign) {
            Some(self.parse_expression(1)?)
        } else {
            None
        };
        self.expect(TokenType::Semicolon)?;
        Ok(Statement::LetStatement { name, type_annotation, value })
    }

    /// `const name [: Type] = expr;`
    fn parse_const(&mut self) -> (r: Result<Statement, SyntaxError>)
        requires
            old(self).wf(),
            old(self).tokens()[old(self).index()].token_type == TokenType::Const,
        ensures
            final(self).wf(),
            final(self).tokens() == old(self).tokens(),
            old(self).index() <= final(self).index(),
            r is Ok ==> old(self).index() < final(self).index(),
            r is Err ==> error_at(r->Err_0, final(self).tokens()[final(self).index()]@),
            r is Ok ==> declared_name(r->Ok_0) == Some(old(self).tokens()[old(self).index() + 1].lexeme@),
            r is Ok ==> r->Ok_0 is ConstStatement,
        decreases old(self).tokens().len() - old(self).index(), 5nat,
    {
        self.advance();
        let name = self.expect_text(TokenType::Identifier)?;
        let type_annotation = if self.eat(TokenType::Colon) {
            Some(self.expect_text(TokenType::Identifier)?)
        } else {
            None
        };
        self.expect(TokenType::Assign)?;
        let value = self.parse_expression(1)?;
        self.expect(TokenType::Semicolon)?;
        Ok(Statement::ConstStatement { name, type_annotation, value })
    }

    /// `return [expr];`
    fn parse_return(&mut self) -> (r: Result<Statement, SyntaxError>)
        requires
            old(self).wf(),
            old(self).tokens()[old(self).index()].token_type == TokenType::Return,
        ensures
            final(self).wf(),
            final(self).tokens() == old(self).tokens(),
            old(self).index() <= final(self).index(),
            r is Ok ==> old(self).index() < final(self).index(),
            r is Err ==> error_at(r->Err_0, final(self).tokens()[final(self).index()]@),
            r is Ok ==> r->Ok_0 is ReturnStatement,
        decreases old(self).tokens().len() - old(self).index(), 5nat,
    {
        self.advance();
        if self.eat(TokenType::Semicolon) {
            return Ok(Statement::ReturnStatement(None));
        }
        let e = self.parse_expression(1)?;
        self.expect(TokenType::Semicolon)?;
        Ok(Statement::ReturnStatement(Some(e)))
    }

    /// `( expr )`: the condition of `if` and `while`.
    fn parse_condition(&mut self) -> (r: Result<Expression, SyntaxError>)
        requires
            old(self).wf(),
        ensures
            final(self).wf(),
            final(self).tokens() == old(self).tokens(),
            old(self).index() <= final(self).index(),
            r is Ok ==> old(self).index() < final(self).index(),
            r is Err ==> error_at(r->Err_0, final(self).tokens()[final(self).index()]@),
            core_cond(token_models(old(self).tokens()), old(self).index()) is Some ==> r is Ok && expr_view(r->Ok_0) == core_cond(
                token_models(old(self).tokens()),
                old(self).index(),
            )->Some_0.0 && final(self).index() == core_cond(token_models(old(self).tokens()), old(self).index())->Some_0.1,
        decreases old(self).tokens().len() - old(self).index(), 5nat,
    {
        self.expect(TokenType::LeftParen)?;
        let e = self.parse_expression(1)?;
        self.expect(TokenType::RightParen)?;
        Ok(e)
    }

    /// `if (cond) statement [else statement]`
    fn parse_if(&mut self) -> (r: Result<Statement, SyntaxError>)
        requires
            old(self).wf(),
            old(self).tokens()[old(self).index()].token_type == TokenType::If,
        ensures
            final(self).wf(),
            final(self).tokens() == old(self).tokens(),
            old(self).index() <= final(self).index(),
            r is Ok ==> old(self).index() < final(self).index(),
            r is Err ==> error_at(r->Err_0, final(self).tokens()[final(self).index()]@),
            core_stmt(token_models(old(self).tokens()), old(self).index()) is Some ==> r is Ok && stmt_view(r->Ok_0) == core_stmt(
                token_models(old(self).tokens()),
                old(self).index(),
            )->Some_0.0 && final(self).index() == core_stmt(token_models(old(self).tokens()), old(self).index())->Some_0.1,
            r is Ok ==> r->Ok_0 is IfStatement,
        decreases old(self).tokens().len() - old(self).index(), 5nat,
    {
        self.advance();
        let condition = self.parse_condition()?;
        let consequence = self.parse_statement()?;
        let alternative = if self.eat(TokenType::Else) {
            Some(Box::new(self.parse_statement()?))
        } else {
            None
        };
        Ok(Statement::IfStatement { condition, consequence: Box::new(consequence), alternative })
    }

    /// `while (cond) statement`
    fn parse_while(&mut self) -> (r: Result<Statement, SyntaxError>)
        requires
            old(self).wf(),
            old(self).tokens()[old(self).index()].token_type == TokenType::While,
        ensures
            final(self).wf(),
            final(self).tokens() == old(self).tokens(),
            old(self).index() <= final(self).index(),
            r is Ok ==> old(self).index() < final(self).index(),
            r is Err ==> error_at(r->Err_0, final(self).tokens()[final(self).index()]@),
            core_stmt(token_models(old(self).tokens()), old(self).index()) is Some ==> r is Ok && stmt_view(r->Ok_0) == core_stmt(
                token_models(old(self).tokens()),
                old(self).index(),
            )->Some_0.0 && final(self).index() == core_stmt(token_models(old(self).tokens()), old(self).index())->Some_0.1,
            r is Ok ==> r->Ok_0 is WhileStatement,
        decreases old(self).tokens().len() - old(self).index(), 5nat,
    {
        self.advance();
        let condition = self.parse_condition()?;
        let body = self.parse_statement()?;
        Ok(Statement::WhileStatement { condition, body: Box::new(body) })
    }

    /// `for name in expr statement`
    fn parse_for(&mut self) -> (r: Result<Statement, SyntaxError>)
        requires
            old(self).wf(),
            old(self).tokens()[old(self).index()].token_type == TokenType::For,
        ensures
            final(self).wf(),
            final(self).tokens() == old(self).tokens(),
            old(self).index() <= final(self).index(),
            r is Ok ==> old(self).index() < final(self).index(),
            r is Err ==> error_at(r->Err_0, final(self).tokens()[final(self).index()]@),
            r is Ok ==> declared_name(r->Ok_0) == Some(old(self).tokens()[old(self).index() + 1].lexeme@),
            r is Ok ==> r->Ok_0 is ForStatement,
        decreases old(self).tokens().len() - old(self).index(), 5nat,
    {
        self.advance();
        let variable = self.expect_text(TokenType::Identifier)?;
        self.expect(TokenType::In)?;
        let iterable = self.parse_expression(1)?;
        let body = self.parse_statement()?;
        Ok(Statement::ForStatement { variable, iterable, body: Box::new(body) })
    }

    /// `fn name(param: Type, ...) [-> Type] { body }`; the body is required.
    fn parse_function(&mut self) -> (r: Result<Statement, SyntaxError>)
        requires
            old(self).wf(),
        ensures
            final(self).wf(),
            final(self).tokens() == old(self).tokens(),
            old(self).index() <= final(self).index(),
            r is Ok ==> old(self).index() < final(self).index(),
            r is Err ==> error_at(r->Err_0, final(self).tokens()[final(self).index()]@),
            r is Ok ==> declared_name(r->Ok_0) == Some(old(self).tokens()[old(self).index() + 1].lexeme@),
            r is Ok ==> r->Ok_0 is FunctionDeclaration,
        decreases old(self).tokens().len() - old(self).index(), 5nat,
    {
        self.expect(TokenType::Fn)?;
        let name = self.expect_text(TokenType::Identifier)?;
        self.expect(TokenType::LeftParen)?;
        let parameters = self.parse_typed_names(TokenType::RightParen)?;
        let return_type = if self.eat(TokenType::Arrow) {
            Some(self.expect_text(TokenType::Identifier)?)
        } else {
            None
        };
        let body = self.parse_block()?;
        Ok(
            Statement::FunctionDeclaration {
                name,
                parameters,
                return_type,
                body: Box::new(Statement::BlockStatement(body)),
            },
        )
    }

    /// `struct Name { field: Type, ... }`
    fn parse_struct(&mut self) -> (r: Result<Statement, SyntaxError>)
        requires
            old(self).wf(),
            old(self).tokens()[old(self).index()].token_type == TokenType::Struct,
        ensures
            final(self).wf(),
            final(self).tokens() == old(self).tokens(),
            old(self).index() <= final(self).index(),
            r is Ok ==> old(self).index() < final(self).index(),
            r is Err ==> error_at(r->Err_0, final(self).tokens()[final(self).index()]@),
            r is Ok ==> declared_name(r->Ok_0) == Some(old(self).tokens()[old(self).index() + 1].lexeme@),
            r is Ok ==> r->Ok_0 is StructDeclaration,
        decreases old(self).tokens().len() - old(self).index(), 5nat,
    {
        self.advance();
        let name = self.expect_text(TokenType::Identifier)?;
        self.expect(TokenType::LeftBrace)?;
        let fields = self.parse_typed_names(TokenType::RightBrace)?;
        Ok(Statement::StructDeclaration { name, fields })
    }

    /// `enum Name { Variant, ... }`
    fn parse_enum(&mut self) -> (r: Result<Statement, SyntaxError>)
        requires
            old(self).wf(),
            old(self).tokens()[old(self).index()].token_type == TokenType::Enum,
        ensures
            final(self).wf(),
            final(self).tokens() == old(self).tokens(),
            old(self).index() <= final(self).index(),
            r is Ok ==> old(self).index() < final(self).index(),
            r is Err ==> error_at(r->Err_0, final(self).tokens()[final(self).index()]@),
            r is Ok ==> match r->Ok_0 {
                Statement::EnumDeclaration { variants, .. } => forall|k: int|
                    0 <= k < variants@.len() ==> (#[trigger] variants@[k])@ == old(self).tokens()[old(
                        self,
                    ).index() + 3 + 2 * k].lexeme@,
                _ => false,
            },
            r is Ok ==> declared_name(r->Ok_0) == Some(old(self).tokens()[old(self).index() + 1].lexeme@),
            r is Ok ==> r->Ok_0 is EnumDeclaration,
        decreases old(self).tokens().len() - old(self).index(), 5nat,
    {
        self.advance();
        let name = self.expect_text(TokenType::Identifier)?;
        self.expect(TokenType::LeftBrace)?;
        let variants = self.parse_name_list(TokenType::RightBrace)?;
        Ok(Statement::EnumDeclaration { name, variants })
    }

    /// `{ fn ... }`: function declarations up to the closing brace.
    fn parse_methods(&mut self) -> (r: Result<Vec<Statement>, SyntaxError>)
        requires
            old(self).wf(),
        ensures
            final(self).wf(),
            final(self).tokens() == old(self).tokens(),
            old(self).index() <= final(self).index(),
            r is Ok ==> old(self).index() < final(self).index(),
            r is Err ==> error_at(r->Err_0, final(self).tokens()[final(self).index()]@),
        decreases old(self).tokens().len() - old(self).index(), 6nat,
    {
        let ghost start = self.index();
        let ghost toks = self.tokens();
        self.expect(TokenType::LeftBrace)?;
        let mut methods: Vec<Statement> = Vec::new();
        while !self.eat(TokenType::RightBrace)
            invariant
                self.wf(),
                self.tokens() == toks,
                toks == old(self).tokens(),
                start == old(self).index(),
                start < self.index(),
            decreases toks.len() - self.index(),
        {
            let m = self.parse_function()?;
            methods.push(m);
        }
        Ok(methods)
    }

    /// `trait Name { fn ... }`
    fn parse_trait(&mut self) -> (r: Result<Statement, SyntaxError>)
        requires
            old(self).wf(),
            old(self).tokens()[old(self).index()].token_type == TokenType::Trait,
        ensures
            final(self).wf(),
            final(self).tokens() == old(self).tokens(),
            old(self).index() <= final(self).index(),
            r is Ok ==> old(self).index() < final(self).index(),
            r is Err ==> error_at(r->Err_0, final(self).tokens()[final(self).index()]@),
            r is Ok ==> declared_name(r->Ok_0) == Some(old(self).tokens()[old(self).index() + 1].lexeme@),
            r is Ok ==> r->Ok_0 is TraitDeclaration,
        decreases old(self).tokens().len() - old(self).index(), 5nat,
    {
        self.advance();
        let name = self.expect_text(TokenType::Identifier)?;
        let methods = self.parse_methods()?;
        Ok(Statement::TraitDeclaration { name, methods })
    }

    /// `impl [Trait for] Type { fn ... }`
    fn parse_impl(&mut self) -> (r: Result<Statement, SyntaxError>)
        requires
            old(self).wf(),
            old(self).tokens()[old(self).index()].token_type == TokenType::Impl,
        ensures
            final(self).wf(),
            final(self).tokens() == old(self).tokens(),
            old(self).index() <= final(self).index(),
            r is Ok ==> old(self).index() < final(self).index(),
            r is Err ==> error_at(r->Err_0, final(self).tokens()[final(self).index()]@),
            r is Ok ==> r->Ok_0 is ImplDeclaration,
        decreases old(self).tokens().len() - old(self).index(), 5nat,
    {
        self.advance();
        let first = self.expect_text(TokenType::Identifier)?;
        let (trait_name, target_type) = if self.eat(TokenType::For) {
            let target = self.expect_text(TokenType::Identifier)?;
            (Some(first), target)
        } else {
            (None, first)
        };
        let methods = self.parse_methods()?;
        Ok(Statement::ImplDeclaration { trait_name, target_type, methods })
    }

    /// `quantum name (count) { gate(qubit, ...) [[param, ...]]; ... }`
    fn parse_quantum(&mut self) -> (r: Result<Statement, SyntaxError>)
        requires
            old(self).wf(),
            old(self).tokens()[old(self).index()].token_type == TokenType::Quantum,
        ensures
            final(self).wf(),
            final(self).tokens() == old(self).tokens(),
            old(self).index() <= final(self).index(),
            r is Ok ==> old(self).index() < final(self).index(),
            r is Err ==> error_at(r->Err_0, final(self).tokens()[final(self).index()]@),
            r is Ok ==> match r->Ok_0 {
                Statement::QuantumDeclaration { qubits, .. } => qubits as int == digits_value(
                    old(self).tokens()[old(self).index() + 3].lexeme@,
                ),
                _ => false,
            },
            r is Ok ==> declared_name(r->Ok_0) == Some(old(self).tokens()[old(self).index() + 1].lexeme@),
            r is Ok ==> r->Ok_0 is QuantumDeclaration,
        decreases old(self).tokens().len() - old(self).index(), 5nat,
    {
        let ghost toks = self.tokens();
        self.advance();
        let ghost start = self.index();
        let name = self.expect_text(TokenType::Identifier)?;
        self.expect(TokenType::LeftParen)?;
        if self.kind() != TokenType::IntLiteral {
            return Err(self.error(Expected::Token(TokenType::IntLiteral)));
        }
        let qubits: usize = match integer_value(self.tokens[self.pos].lexeme.as_str()) {
            Some(v) => {
                if v >= 0 && (v as u64) <= (usize::MAX as u64) {
                    v as usize
                } else {
                    return Err(self.number_error());
                }
            },
            None => {
                return Err(self.number_error());
            },
        };
        self.advance();
        self.expect(TokenType::RightParen)?;
        self.expect(TokenType::LeftBrace)?;
        let mut operations: Vec<Statement> = Vec::new();
        while !self.eat(TokenType::RightBrace)
            invariant
                self.wf(),
                self.tokens() == toks,
                toks == old(self).tokens(),
                start < self.index(),
                old(self).index() < start,
            decreases toks.len() - self.index(),
        {
            let op = self.parse_quantum_operation()?;
            operations.push(op);
        }
        Ok(Statement::QuantumDeclaration { name, qubits, operations })
    }

    /// `gate(qubit, ...) [[param, ...]];` inside a quantum block.
    fn parse_quantum_operation(&mut self) -> (r: Result<Statement, SyntaxError>)
        requires
            old(self).wf(),
        ensures
            final(self).wf(),
            final(self).tokens() == old(self).tokens(),
            old(self).index() <= final(self).index(),
            r is Ok ==> old(self).index() < final(self).index(),
            r is Err ==> error_at(r->Err_0, final(self).tokens()[final(self).index()]@),
    {
        let operation_type = self.expect_text(TokenType::Identifier)?;
        self.expect(TokenType::LeftParen)?;
        let qubits = self.parse_expression_list(TokenType::RightParen)?;
        let parameters = if self.eat(TokenType::LeftBracket) {
            self.parse_expression_list(TokenType::RightBracket)?
        } else {
            Vec::new()
        };
        self.expect(TokenType::Semicolon)?;
        Ok(
            Statement::ExpressionStatement(
                Expression::QuantumOperation { operation_type, qubits, parameters },
            ),
        )
    }

    /// `distributed name [node, ...] { body }`
    fn parse_distributed(&mut self) -> (r: Result<Statement, SyntaxError>)
        requires
            old(self).wf(),
            old(self).tokens()[old(self).index()].token_type == TokenType::Distributed,
        ensures
            final(self).wf(),
            final(self).tokens() == old(self).tokens(),
            old(self).index() <= final(self).index(),
            r is Ok ==> old(self).index() < final(self).index(),
            r is Err ==> error_at(r->Err_0, final(self).tokens()[final(self).index()]@),
            r is Ok ==> match r->Ok_0 {
                Statement::DistributedDeclaration { nodes, .. } => forall|k: int|
                    0 <= k < nodes@.len() ==> (#[trigger] nodes@[k])@ == old(self).tokens()[old(
                        self,
                    ).index() + 3 + 2 * k].lexeme@,
                _ => false,
            },
            r is Ok ==> declared_name(r->Ok_0) == Some(old(self).tokens()[old(self).index() + 1].lexeme@),
            r is Ok ==> r->Ok_0 is DistributedDeclaration,
        decreases old(self).tokens().len() - old(self).index(), 5nat,
    {
        self.advance();
        let name = self.expect_text(TokenType::Identifier)?;
        self.expect(TokenType::LeftBracket)?;
        let nodes = self.parse_name_list(TokenType::RightBracket)?;
        let body = self.parse_block()?;
        Ok(
            Statement::DistributedDeclaration {
                name,
                nodes,
                body: Box::new(Statement::BlockStatement(body)),
            },
        )
    }

    /// `ai name : ModelType (param = expr, ...) [{ body }]`; without a body
    /// a closing `;` is optional.
    fn parse_ai(&mut self) -> (r: Result<Statement, SyntaxError>)
        requires
            old(self).wf(),
            old(self).tokens()[old(self).index()].token_type == TokenType::AI,
        ensures
            final(self).wf(),
            final(self).tokens() == old(self).tokens(),
            old(self).index() <= final(self).index(),
            r is Ok ==> old(self).index() < final(self).index(),
            r is Err ==> error_at(r->Err_0, final(self).tokens()[final(self).index()]@),
            r is Ok ==> match r->Ok_0 {
                Statement::AIDeclaration { model_type, .. } => model_type@ == old(self).tokens()[old(
                    self,
                ).index() + 3].lexeme@,
                _ => false,
            },
            r is Ok ==> declared_name(r->Ok_0) == Some(old(self).tokens()[old(self).index() + 1].lexeme@),
            r is Ok ==> r->Ok_0 is AIDeclaration,
        decreases old(self).tokens().len() - old(self).index(), 5nat,
    {
        let ghost toks = self.tokens();
        self.advance();
        let ghost start = self.index();
        let name = self.expect_text(TokenType::Identifier)?;
        self.expect(TokenType::Colon)?;
        let model_type = self.expect_text(TokenType::Identifier)?;
        self.expect(TokenType::LeftParen)?;
        let mut parameters: Vec<(String, Expression)> = Vec::new();
        if !self.eat(TokenType::RightParen) {
            loop
                invariant
                    self.wf(),
                    self.tokens() == toks,
                    toks == old(self).tokens(),
                    start < self.index(),
                    old(self).index() < start,
                decreases toks.len() - self.index(),
            {
                let pname = self.expect_text(TokenType::Identifier)?;
                self.expect(TokenType::Assign)?;
                let value = self.parse_expression(1)?;
                parameters.push((pname, value));
                if self.eat(TokenType::RightParen) {
                    break;
                }
                self.expect(TokenType::Comma)?;
            }
        }
        let body = if self.kind() == TokenType::LeftBrace {
            let statements = self.parse_block()?;
            Some(Box::new(Statement::BlockStatement(statements)))
        } else {
            self.eat(TokenType::Semicolon);
            None
        };
        Ok(Statement::AIDeclaration { name, model_type, parameters, body })
    }

    /// Parses statements up to the end of input.
    pub fn parse_program(&mut self) -> (r: Result<Program, SyntaxError>)
        requires
            old(self).wf(),
        ensures
            final(self).wf(),
            final(self).tokens() == old(self).tokens(),
            old(self).index() <= final(self).index(),
            r is Ok ==> final(self).index() == final(self).tokens().len() - 1,
            r is Err ==> error_at(r->Err_0, final(self).tokens()[final(self).index()]@),
            core_program(token_models(old(self).tokens()), old(self).index()) is Some ==> r is Ok
                && program_view(r->Ok_0) == core_program(
                token_models(old(self).tokens()),
                old(self).index(),
            )->Some_0,
            let_error(token_models(old(self).tokens()), old(self).index()) is Some ==> r is Err
                && final(self).index() == let_error(
                token_models(old(self).tokens()),
                old(self).index(),
            )->Some_0.0 && r->Err_0.expected == let_error(
                token_models(old(self).tokens()),
                old(self).index(),
            )->Some_0.1,
            old(self).tokens()[old(self).index()].token_type == TokenType::EOF ==> r is Ok
                && r->Ok_0.statements@.len() == 0,
            0 <= final(self).index() < final(self).tokens().len(),
            r is Ok ==> exists|starts: Seq<int>|
                #[trigger] statements_begin_at(
                    token_models(final(self).tokens()),
                    r->Ok_0.statements@,
                    starts,
                ),
            forall|i: int|
                0 <= i < final(self).index() ==> #[trigger] final(self).tokens()[i].token_type
                    != TokenType::Unknown,
    {
        let ghost toks = self.tokens();
        let ghost mut starts: Seq<int> = Seq::empty();
        let mut statements: Vec<Statement> = Vec::new();
        while self.kind() != TokenType::EOF
            invariant
                self.wf(),
                self.tokens() == toks,
                toks == old(self).tokens(),
                old(self).index() <= self.index(),
                self.index() == old(self).index() ==> statements@.len() == 0,
                core_program(token_models(toks), old(self).index()) is Some ==> core_program(
                    token_models(toks),
                    self.index(),
                ) is Some && core_program(token_models(toks), old(self).index())->Some_0
                    == statements@.map_values(|st: Statement| stmt_view(st)) + core_program(
                    token_models(toks),
                    self.index(),
                )->Some_0,
                self.index() != old(self).index() ==> let_error(
                    token_models(toks),
                    old(self).index(),
                ) is None,
                statements_begin_at(token_models(toks), statements@, starts),
                forall|i: int| 0 <= i < starts.len() ==> #[trigger] starts[i] < self.index(),
            decreases toks.len() - self.index(),
        {
            let ghost k = self.index();
            let s = self.parse_statement()?;
            proof {
                let view = token_models(toks);
                assert(view[k] == toks[k]@);
                assert(view[k + 1] == toks[k + 1]@);
            }
            let ghost before = statements@;
            statements.push(s);
            proof {
                starts = starts.push(k);
                assert(statements@.map_values(|st: Statement| stmt_view(st)) =~= before.map_values(
                    |st: Statement| stmt_view(st),
                ).push(stmt_view(s)));
            }
        }
        let n = self.tokens.len();
        assert(self.tokens@.last() == self.tokens@[n - 1]);
        proof {
            assert(statements@.map_values(|st: Statement| stmt_view(st)) + Seq::<
                crate::grammar::StmtView,
            >::empty() =~= statements@.map_values(|st: Statement| stmt_view(st)));
        }
        let r = Ok(Program { statements });
        assert(statements_begin_at(token_models(self.tokens()), r->Ok_0.statements@, starts));
        r
    }

}

/// The operator that a token of kind `k` stands for between two operands,
/// with its precedence (higher binds tighter).
fn binary_operator(k: TokenType) -> (r: Option<(BinaryOperator, u8)>)
    ensures
        r is Some ==> k != TokenType::EOF && k != TokenType::Unknown,
        r is Some ==> 1 <= r->Some_0.1 <= 6,
        r is Some <==> bin_op(k) is Some,
        r is Some ==> r->Some_0.0 == bin_op(k)->Some_0.0 && r->Some_0.1 as int == bin_op(
            k,
        )->Some_0.1,
{
    match k {
        TokenType::Or => Some((BinaryOperator::Or, 1)),
        TokenType::And => Some((BinaryOperator::And, 2)),
        TokenType::Equal => Some((BinaryOperator::Equal, 3)),
        TokenType::NotEqual => Some((BinaryOperator::NotEqual, 3)),
        TokenType::LessThan => Some((BinaryOperator::LessThan, 4)),
        TokenType::GreaterThan => Some((BinaryOperator::GreaterThan, 4)),
        TokenType::LessThanEqual => Some((BinaryOperator::LessThanEqual, 4)),
        TokenType::GreaterThanEqual => Some((BinaryOperator::GreaterThanEqual, 4)),
        TokenType::Plus => Some((BinaryOperator::Add, 5)),
        TokenType::Minus => Some((BinaryOperator::Subtract, 5)),
        TokenType::Multiply => Some((BinaryOperator::Multiply, 6)),
        TokenType::Divide => Some((BinaryOperator::Divide, 6)),
        TokenType::Modulo => Some((BinaryOperator::Modulo, 6)),
        _ => None,
    }
}

} // verus!
