//! A small language for procedural text generation. Scripts bind names to
//! literals, weighted random choices (bags), string patterns and tables of
//! word forms; running a script renders the `result` binding, sampling each
//! random choice it reaches.
use vstd::prelude::*;
use vstd::string::*;

pub mod ast;
pub mod compile;
pub mod eval;
pub mod grammar;
pub mod laws;
pub mod parser;
pub mod sampling;
pub mod string_utils;

use crate::compile::{compiled_from, statements_error};
use crate::grammar::{program_of, stmts_are};
use crate::eval::{
    chars_of, lookup, run_s, string_result_view, CompiledScript, CompilerError, ExecutionError, InterpreterError,
};

verus! {

/// What compiling `stmts` gives: the first statement's error, or a script
/// binding exactly what the statements bind.
pub open spec fn compiles_to(stmts: Seq<ast::Statement>, r: Result<CompiledScript, CompilerError>) -> bool {
    match statements_error(stmts) {
        Some(f) => r matches Err(e) && e.matches_failure(f),
        None => r matches Ok(s) && s.wf() && compiled_from(stmts, s.vars()),
    }
}

/// What running a script gave, as the interpreter's outcome; `None` for a
/// compile error.
pub open spec fn run_outcome(r: Result<String, ExecutionError>) -> Option<Result<Seq<char>, eval::EvalFailure>> {
    match r {
        Ok(out) => Some(Ok(out@)),
        Err(ExecutionError::Interpreter(e)) => Some(Err(e@)),
        Err(ExecutionError::Compiler(_)) => None,
    }
}

/// Parses and compiles a script. A text outside the grammar gives
/// `ParseError` with the position where parsing stopped; otherwise the
/// result is that of compiling the statements the text holds.
pub fn compile_script(script: &str) -> (r: Result<CompiledScript, CompilerError>)
    ensures
        match program_of(script@) {
            None => r matches Err(CompilerError::ParseError { .. }),
            Some(vs) => exists|stmts: Seq<ast::Statement>| stmts_are(stmts, vs) && compiles_to(stmts, r),
        },
{
    let chars = chars_of(script);
    match parser::parse_program(&chars) {
        Err(position) => Err(CompilerError::ParseError { position }),
        Ok(statements) => {
            let ghost stmts = statements@;
            let r = eval::compile_script(statements);
            assert(stmts_are(stmts, program_of(script@)->Some_0) && compiles_to(stmts, r));
            r
        },
    }
}

/// Compiles a script and renders its `result` binding once. A script with no
/// `result` binding gives `UnknownVariable("result")`. Compile errors are
/// those of `compile_script`; otherwise the output or interpreter error is
/// one that rendering the compiled statements gives for some draws.
pub fn run_script(script: &str) -> (r: Result<String, ExecutionError>)
    ensures
        match program_of(script@) {
            None => r matches Err(ExecutionError::Compiler(CompilerError::ParseError { .. })),
            Some(vs) => exists|stmts: Seq<ast::Statement>|
                stmts_are(stmts, vs) && match statements_error(stmts) {
                    Some(f) => r matches Err(ExecutionError::Compiler(e)) && e.matches_failure(f),
                    None => exists|vars: Seq<(String, eval::Expression)>, d: Seq<usize>|
                        compiled_from(stmts, vars) && run_outcome(r) == Some(run_s(vars, d).0) && run_s(vars, d).1
                            == Seq::<usize>::empty(),
                },
        },
{
    match compile_script(script) {
        Err(e) => Err(ExecutionError::Compiler(e)),
        Ok(compiled) => {
            let ghost vars = compiled.vars();
            if !compiled.has_variable("result") {
                let e = InterpreterError::UnknownVariable(String::from_str("result"));
                proof {
                    reveal_strlit("result");
                    assert(run_s(vars, Seq::<usize>::empty()) == (Err::<Seq<char>, eval::EvalFailure>(e@), Seq::<usize>::empty()));
                }
                return Err(ExecutionError::Interpreter(e));
            }
            match compiled.run() {
                Ok(out) => {
                    proof {
                        let d = choose|d: Seq<usize>|
                            run_s(vars, d) == (string_result_view(Ok::<String, InterpreterError>(out)), Seq::<usize>::empty());
                        assert(run_s(vars, d) == (Ok::<Seq<char>, eval::EvalFailure>(out@), Seq::<usize>::empty()));
                    }
                    Ok(out)
                },
                Err(e) => {
                    proof {
                        let d = choose|d: Seq<usize>|
                            run_s(vars, d) == (string_result_view(Err::<String, InterpreterError>(e)), Seq::<usize>::empty());
                        assert(run_s(vars, d) == (Err::<Seq<char>, eval::EvalFailure>(e@), Seq::<usize>::empty()));
                    }
                    Err(ExecutionError::Interpreter(e))
                },
            }
        },
    }
}

} // verus!
