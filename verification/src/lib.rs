//! Front end of an assembler for a small 16-bit instruction set: a lexer that
//! turns source lines into a classified token stream, a parser that turns the
//! token stream into a validated `Program` syntax tree, and pure rendering of
//! source-located diagnostics.

use vstd::prelude::*;

pub mod diag;
pub mod parse;
pub mod token;

verus! {

/// Options handed to the assembler driver by the command line front end.
#[derive(Debug)]
pub struct AssemblerArguments {
    pub file_name: String,
    pub output_path: String,
    pub debug: bool,
    pub defines: std::collections::HashSet<String>,
}

} // verus!

verus! {

use crate::diag::{AsmError, ErrV};
use crate::parse::{build_program, spec_parse_program, Program, ProgramV};
use crate::token::{lemma_tokenize_wf, lines_view, spec_tokenize, tokenize_lines};

/// The program a source parses to: its lines are lexed into one token
/// stream, which is parsed into a program; the first error anywhere wins.
pub open spec fn spec_assemble(lines: Seq<Seq<char>>) -> Result<ProgramV, ErrV> {
    match spec_tokenize(lines) {
        Err(e) => Err(e),
        Ok(toks) => spec_parse_program(toks),
    }
}

/// Lex and parse a source given as its sequence of lines.  The result is
/// exactly the value of [`spec_assemble`] on the lines' character
/// sequences: a function of the source text alone, so re-running on the
/// same source always yields a structurally equal program.
pub fn assemble_lines(lines: &Vec<String>) -> (r: Result<Program, AsmError>)
    requires
        lines@.len() <= u32::MAX,
        forall|i: int| 0 <= i < lines@.len() ==> (#[trigger] lines@[i])@.len() <= u32::MAX,
    ensures
        (match r {
            Ok(p) => spec_assemble(lines_view(lines@)) == Ok::<_, ErrV>(p@),
            Err(e) => spec_assemble(lines_view(lines@)) == Err::<ProgramV, _>(e@),
        }),
{
    let tokens = match tokenize_lines(lines) {
        Ok(t) => t,
        Err(e) => {
            return Err(e);
        },
    };
    proof {
        lemma_tokenize_wf(lines_view(lines@));
    }
    build_program(&tokens)
}

} // verus!
