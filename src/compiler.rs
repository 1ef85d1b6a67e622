use vstd::prelude::*;

use crate::ast::{AstNode, Statement};
use crate::backend::LLVMCompiler;
use crate::codegen::generate_llvm;
use crate::ir::{ast_ir, program_ir, CodegenError};
use crate::lexer::{lemma_lex_ends_with_end, lex, tokenize, LexError};
use crate::options::{copy_options, has_verbose, CompilerOption};
use crate::parser::{parse, parse_program, ParseError};
use crate::token::{token_views, Token};

verus! {

/// The first failure of a compilation, by stage.
#[derive(Debug, PartialEq)]
pub enum CompileError {
    Lex(LexError),
    Parse(ParseError),
    Codegen(CodegenError),
}

/// What each stage of a successful compilation produced.
#[derive(Debug)]
pub struct CompileOutput {
    pub tokens: Vec<Token>,
    pub program: AstNode,
    pub ir: String,
}

/// Runs the stages in order, stopping at the first failure: source text to
/// tokens, tokens to a syntax tree, syntax tree to IR text.
pub fn compile_to_ir(source: &str) -> (r: Result<CompileOutput, CompileError>)
    ensures
        match lex(source@) {
            Err(e) => r == Err::<CompileOutput, CompileError>(CompileError::Lex(e)),
            Ok(views) => match r {
                Ok(out) => {
                    &&& token_views(out.tokens@) == views
                    &&& out.program matches AstNode::Program(stmts) && parse_program(out.tokens@)
                        == Ok::<Seq<Statement>, ParseError>(stmts@)
                    &&& ast_ir(out.program) == Ok::<Seq<char>, CodegenError>(out.ir@)
                },
                Err(CompileError::Lex(_)) => false,
                Err(CompileError::Parse(e)) => exists|ts: Seq<Token>|
                    token_views(ts) == views && #[trigger] parse_program(ts) == Err::<
                        Seq<Statement>,
                        ParseError,
                    >(e),
                Err(CompileError::Codegen(e)) => exists|ts: Seq<Token>|
                    token_views(ts) == views && (#[trigger] parse_program(ts) matches Ok(stmts)
                        && program_ir(stmts) == Err::<Seq<char>, CodegenError>(e)),
            },
        },
{
    let tokens = match tokenize(source) {
        Ok(ts) => ts,
        Err(e) => return Err(CompileError::Lex(e)),
    };
    proof {
        lemma_lex_ends_with_end(source@);
        let last = tokens@.len() - 1;
        assert(token_views(tokens@)[last] == tokens@[last]@);
    }
    let ghost ts = tokens@;
    let kept = copy_tokens(&tokens);
    let program = match parse(kept) {
        Ok(p) => p,
        Err(e) => return Err(CompileError::Parse(e)),
    };
    match generate_llvm(&program) {
        Ok(ir) => Ok(CompileOutput { tokens, program, ir }),
        Err(e) => Err(CompileError::Codegen(e)),
    }
}

fn copy_tokens(ts: &Vec<Token>) -> (r: Vec<Token>)
    ensures
        r@ == ts@,
{
    let mut r: Vec<Token> = Vec::new();
    let mut i: usize = 0;
    while i < ts.len()
        invariant
            i <= ts@.len(),
            r@ == ts@.subrange(0, i as int),
        decreases ts@.len() - i,
    {
        r.push(Token { token_type: ts[i].token_type, lexeme: ts[i].lexeme.clone() });
        i = i + 1;
        assert(r@ =~= ts@.subrange(0, i as int));
    }
    assert(ts@.subrange(0, ts@.len() as int) =~= ts@);
    r
}

/// The compiler driver's settings: its options, and the toolchain step that
/// the generated IR is handed to.
pub struct Compiler {
    backend: LLVMCompiler,
    options: Vec<CompilerOption>,
}

impl Compiler {
    pub closed spec fn options_view(&self) -> Seq<CompilerOption> {
        self.options@
    }

    pub fn new(options: Vec<CompilerOption>) -> (r: Compiler)
        ensures
            r.options_view() == options@,
            r.backend_view().options_view() == options@,
            r.backend_view().output_dir_view() == "target/llvm"@,
    {
        let backend = LLVMCompiler::new(copy_options(&options));
        Compiler { backend, options }
    }

    /// The toolchain step.
    pub fn backend(&self) -> (r: &LLVMCompiler)
        ensures
            *r == self.backend_view(),
    {
        &self.backend
    }

    pub closed spec fn backend_view(&self) -> LLVMCompiler {
        self.backend
    }

    /// Whether the tokens, syntax tree and IR are to be echoed.
    pub fn is_verbose(&self) -> (r: bool)
        ensures
            r == self.options_view().contains(CompilerOption::Verbose),
    {
        has_verbose(&self.options)
    }
}

} // verus!
