//! From source text to code: the stages in a row.

use vstd::prelude::*;
use crate::ast::{Program, ProgramV};
use crate::codegen::Codegen;
use crate::compile::Module;
use crate::emit::Out;
use crate::grammar::program_of;
use crate::ir::{insts_view, InstV};
use crate::layout::lower_program;
use crate::lexer::{spanned_view, tokens_of, Lexer, Spanned};
use crate::memory::code_is_well_built;
use crate::parser::Parser;
use crate::text::text2;
use crate::typecheck::{messages_view, sigs_view, TypeChecker};
use crate::typing::{program_problems, sigs_of};
use crate::wellbuilt::{blocks_are_closed, operands_come_first};
use crate::wellformed::{parsed_programs_are_well_formed, wf_program};

verus! {

/// The program that a source text spells, or what is wrong with it.
pub open spec fn source_program(src: Seq<char>) -> Result<ProgramV, Seq<char>> {
    match tokens_of(src) {
        Err(m) => Err("lex error: "@ + m),
        Ok(ts) => match program_of(ts) {
            Err(m) => Err("parse error: "@ + m),
            Ok(p) => Ok(p),
        },
    }
}

/// The code of a program.
pub open spec fn program_code(p: ProgramV) -> Seq<InstV> {
    lower_program(Out { code: Seq::empty(), ended: false }, p)->Ok_0.code
}

/// The program that a source text spells, or what is wrong with it. The types in the program make
/// sense.
pub fn parse_source(source: &str) -> (r: Result<Program, String>)
    requires
        source@.len() < usize::MAX,
    ensures
        match r {
            Ok(p) => source_program(source@) == Ok::<ProgramV, Seq<char>>(p@) && wf_program(p@),
            Err(m) => source_program(source@) == Err::<ProgramV, Seq<char>>(m@),
        },
{
    let tokens: Vec<Spanned> = match Lexer::new(source).tokenize() {
        Ok(ts) => ts,
        Err(m) => {
            return Err(text2("lex error: ", &m));
        },
    };
    proof {
        parsed_programs_are_well_formed(spanned_view(tokens@));
    }
    match Parser::new(tokens).parse_program() {
        Ok(p) => Ok(p),
        Err(m) => Err(text2("parse error: ", &m)),
    }
}

/// The code of a program whose types make sense, or everything that is wrong with it. A program
/// without problems always has code, and that code is well built.
pub fn build_program(program: &Program, module_name: &str) -> (r: Result<Module, Vec<String>>)
    requires
        wf_program(program@),
    ensures
        match r {
            Ok(m) => program_problems(program@).len() == 0 && m.name@ == module_name@ && sigs_view(m.functions@)
                == sigs_of(program@.functions) && insts_view(m.code@) == program_code(program@) && operands_come_first(
                insts_view(m.code@),
            ) && blocks_are_closed(insts_view(m.code@)),
            Err(e) => messages_view(e@) == program_problems(program@) && e@.len() > 0,
        },
{
    match TypeChecker::check_program(program) {
        Ok(_) => {},
        Err(e) => {
            return Err(e);
        },
    }
    let mut codegen: Codegen = Codegen::new(module_name);
    proof {
        code_is_well_built(program@);
    }
    match codegen.compile_program(program) {
        Ok(_) => {
            let module: Module = codegen.module();
            assert(module.code.len() <= usize::MAX);
            Ok(module)
        },
        Err(m) => Err(vec![m]),
    }
}

} // verus!
