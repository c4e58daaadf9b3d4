//! Front end of the K4 language: a lexer and a recursive-descent parser that
//! turn source text into an abstract syntax tree.

use vstd::prelude::*;

pub mod ai_integration;
pub mod ast;
pub mod grammar;
pub mod lexer;
pub mod lexer_laws;
pub mod parser;
pub mod quantum;

pub use ast::{BinaryOperator, Expression, Literal, Program, Statement, UnaryOperator};
pub use lexer::{lex, Lexer, Token, TokenType};
pub use parser::{ErrorKind, Expected, Parser, SyntaxError};
pub use quantum::{QuantumBackend, QuantumRegister, Qubit};
pub use ai_integration::{AIFramework, ModelType};
use lexer::{lemma_lex_shape, lex_from, lex_spec};
use lexer::token_models;
use parser::{error_at, let_error, statements_begin_at};
use grammar::{core_program, program_view};

verus! {

/// Parses `source` into a program, or reports the first error.
///
/// A program is returned only when no token of the source is malformed, and
/// its statements begin, in order, at tokens of the source whose kind
/// announces each statement's form. An error describes one token of the
/// source, and every token before it is well formed. A source with no tokens
/// gives the empty program. On the core of the language (`let` bindings and
/// expression statements over integers, identifiers, unary and binary
/// operators and parentheses) the program is exactly `core_program`.
pub fn parse(source: &str) -> (r: Result<Program, SyntaxError>)
    requires
        source@.len() < usize::MAX,
    ensures
        r is Ok ==> forall|i: int|
            0 <= i < lex_spec(source@).len() ==> #[trigger] lex_spec(source@)[i].0
                != TokenType::Unknown,
        r is Err ==> exists|i: int|
            0 <= i < lex_spec(source@).len() && error_at(r->Err_0, #[trigger] lex_spec(source@)[i])
                && forall|j: int| 0 <= j < i ==> lex_spec(source@)[j].0 != TokenType::Unknown,
        r is Ok ==> exists|starts: Seq<int>|
            #[trigger] statements_begin_at(lex_spec(source@), r->Ok_0.statements@, starts),
        lex_spec(source@).len() == 1 ==> r is Ok && r->Ok_0.statements@.len() == 0,
        core_program(lex_spec(source@), 0) is Some ==> r is Ok && program_view(r->Ok_0)
            == core_program(lex_spec(source@), 0)->Some_0,
        let_error(lex_spec(source@), 0) is Some ==> r is Err && error_at(
            r->Err_0,
            lex_spec(source@)[let_error(lex_spec(source@), 0)->Some_0.0],
        ) && r->Err_0.expected == let_error(lex_spec(source@), 0)->Some_0.1,
{
    let tokens = lex(source);
    let ghost model = lex_spec(source@);
    proof {
        lemma_lex_shape(source@, 0);
        assert(tokens@.map_values(|t: Token| t@).len() == tokens@.len());
        assert forall|i: int| 0 <= i < tokens@.len() implies #[trigger] tokens@[i]@ == model[i] by {
            assert(tokens@.map_values(|t: Token| t@)[i] == tokens@[i]@);
        }
        assert(tokens@.last() == tokens@[tokens@.len() - 1]);
        assert(model.last() == model[model.len() - 1]);
        assert forall|i: int| 0 <= i < tokens@.len() - 1 implies #[trigger] tokens@[i].token_type
            != TokenType::EOF by {
            assert(tokens@[i]@ == model[i]);
            assert(lex_from(source@, 0)[i].0 != TokenType::EOF);
        }
    }
    let mut parser = Parser::new(tokens);
    proof {
        assert(token_models(parser.tokens()) =~= model);
    }
    let r = parser.parse_program();
    proof {
        let toks = parser.tokens();
        let k = parser.index();
        if r is Err {
            assert(toks[k]@ == model[k]);
            assert(error_at(r->Err_0, model[k]));
            assert forall|j: int| 0 <= j < k implies model[j].0 != TokenType::Unknown by {
                assert(toks[j]@ == model[j]);
            }
        } else {
            assert(token_models(toks) == model);
            let starts = choose|st: Seq<int>|
                #[trigger] statements_begin_at(token_models(toks), r->Ok_0.statements@, st);
            assert(statements_begin_at(model, r->Ok_0.statements@, starts));
            assert forall|i: int| 0 <= i < model.len() implies #[trigger] model[i].0
                != TokenType::Unknown by {
                assert(toks[i]@ == model[i]);
            }
        }
    }
    r
}

} // verus!
