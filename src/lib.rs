//! A compiler for a small systems language that targets bare-metal code.
//!
//! Source text is split into tokens ([`lexer`]), parsed into a program tree
//! ([`parser`], [`ast`]) and lowered by one of three backends: assembly text
//! ([`codegen_asm`]), table-driven machine code ([`codegen`]) or pattern-matched
//! machine code for the entry function ([`codegen_bin`]).
use vstd::prelude::*;

pub mod ast;
pub mod codegen;
pub mod codegen_asm;
pub mod codegen_bin;
pub mod laws;
pub mod lexer;
pub mod parser;
pub mod text;

use crate::ast::ItemV;
use crate::codegen::{tbl_program, Codegen, CodegenError};
use crate::codegen_asm::{asm_program, AsmGenerator};
use crate::codegen_bin::{pm_program, BinGenerator};
use crate::lexer::{LexError, Lexer};
use crate::parser::{parse_source, ParseError, ParseErrorV, Parser};

verus! {

/// Which backend lowers the program.
#[derive(Debug, Clone, Copy, PartialEq, Eq, Structural)]
pub enum Backend {
    /// Assembly text.
    Assembly,
    /// Machine code for the entry function's recognised statement shapes; the
    /// rest is left out.
    PatternMatched,
    /// Machine code for every function, with an entry jump; unsupported
    /// statements are errors.
    TableDriven,
}

#[derive(Debug, PartialEq, Eq)]
pub enum Output {
    Assembly(String),
    MachineCode(Vec<u8>),
}

#[derive(Debug, PartialEq, Eq)]
pub enum CompileError {
    Lexical(LexError),
    Parse(ParseError),
    Codegen(CodegenError),
}

/// Compiles `source` with `backend`.
pub fn compile(source: &str, backend: Backend) -> (r: Result<Output, CompileError>)
    ensures
        match r {
            Ok(Output::Assembly(text)) => backend == Backend::Assembly && (parse_source(source@) matches Ok(
                items,
            ) && text@ == asm_program(items)),
            Ok(Output::MachineCode(bytes)) => parse_source(source@) matches Ok(items) && ((backend
                == Backend::PatternMatched && bytes@ == pm_program(items)) || (backend
                == Backend::TableDriven && tbl_program(items) == Ok::<Seq<u8>, CodegenError>(
                bytes@,
            ))),
            Err(CompileError::Lexical(e)) => parse_source(source@) == Err::<Seq<ItemV>, ParseErrorV>(
                ParseErrorV::Lexical(e),
            ),
            Err(CompileError::Parse(e)) => parse_source(source@) == Err::<Seq<ItemV>, ParseErrorV>(
                e@,
            ) && !(e@ is Lexical),
            Err(CompileError::Codegen(e)) => backend == Backend::TableDriven && (parse_source(
                source@,
            ) matches Ok(items) && tbl_program(items) == Err::<Seq<u8>, CodegenError>(e)),
        },
{
    let lexer = Lexer::new(source);
    let mut parser = Parser::new(lexer);
    let program = match parser.parse_program() {
        Ok(p) => p,
        Err(ParseError::Lexical(e)) => {
            return Err(CompileError::Lexical(e));
        },
        Err(e) => {
            return Err(CompileError::Parse(e));
        },
    };
    match backend {
        Backend::Assembly => {
            let mut generator = AsmGenerator::new();
            Ok(Output::Assembly(generator.generate(&program)))
        },
        Backend::PatternMatched => {
            let mut generator = BinGenerator::new();
            Ok(Output::MachineCode(generator.generate(&program)))
        },
        Backend::TableDriven => {
            let mut generator = Codegen::new();
            match generator.compile(&program) {
                Ok(bytes) => Ok(Output::MachineCode(bytes)),
                Err(e) => Err(CompileError::Codegen(e)),
            }
        },
    }
}

} // verus!
