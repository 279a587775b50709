//! The whole pipeline: from source text to the bytes of a container.

use vstd::prelude::*;
use crate::err::{Diagnostic, T8Err};
use crate::interop::{lowered_from, Ctx};
use crate::lexer::{spec_lex, Lexer};
use crate::parser::{spec_parse, Parser};
use crate::instruction::Instruction;
use crate::scriptorium::{
    encode_from, lemma_container_round_trip, magic, spec_from, FormatError, Script,
};

verus! {

/// Why a source has no container.
#[derive(Debug, Clone, PartialEq, Eq)]
pub enum AssembleError {
    /// The source is at fault: a lexical, syntactic or semantic failure.
    Source(T8Err),
    /// An instruction cannot be encoded.
    Format(FormatError),
}

pub ghost enum AssembleFault {
    Source(Diagnostic),
    Format(FormatError),
}

impl View for AssembleError {
    type V = AssembleFault;

    open spec fn view(&self) -> AssembleFault {
        match self {
            AssembleError::Source(e) => AssembleFault::Source(e@),
            AssembleError::Format(e) => AssembleFault::Format(*e),
        }
    }
}

/// The container of a source: the magic tag, then the bytes of the
/// instructions that its operations lower to; or the first failure on the
/// way there.
pub open spec fn spec_assemble(src: Seq<u8>) -> Result<Seq<u8>, AssembleFault> {
    match spec_lex(src) {
        Err(d) => Err(AssembleFault::Source(d)),
        Ok(toks) => match spec_parse(toks) {
            Err(d) => Err(AssembleFault::Source(d)),
            Ok(nodes) => match lowered_from(Map::empty(), nodes, 0) {
                Err(d) => Err(AssembleFault::Source(d)),
                Ok(ins) => match encode_from(ins, 0) {
                    Err(e) => Err(AssembleFault::Format(e)),
                    Ok(bs) => Ok(magic() + bs),
                },
            },
        },
    }
}

/// The instructions that the operations of a source lower to, where the
/// source has no failure in it.
pub open spec fn spec_program(src: Seq<u8>) -> Option<Seq<Instruction>> {
    match spec_lex(src) {
        Err(_) => None,
        Ok(toks) => match spec_parse(toks) {
            Err(_) => None,
            Ok(nodes) => match lowered_from(Map::empty(), nodes, 0) {
                Err(_) => None,
                Ok(ins) => Some(ins),
            },
        },
    }
}

/// What was assembled reads back: the container of a source holds, behind
/// the magic tag, exactly the instructions that the source lowers to.
pub proof fn lemma_assembled_reads_back(src: Seq<u8>)
    requires
        spec_assemble(src) is Ok,
    ensures
        spec_program(src) is Some,
        spec_assemble(src)->Ok_0.len() == 5 + spec_program(src)->Some_0.len(),
        spec_from(spec_assemble(src)->Ok_0) == Ok::<Seq<Instruction>, FormatError>(
            spec_program(src)->Some_0,
        ),
{
    let ins = spec_program(src)->Some_0;
    lemma_container_round_trip(ins);
}

/// Tokenizes, parses, lowers and encodes `src`.
pub fn assemble(src: &[u8]) -> (r: Result<Vec<u8>, AssembleError>)
    ensures
        match spec_assemble(src@) {
            Ok(bytes) => r is Ok && r->Ok_0@ == bytes,
            Err(fault) => r is Err && r->Err_0@ == fault,
        },
{
    let mut lexer = Lexer::new(src);
    let tokens = match lexer.lex() {
        Ok(tokens) => tokens,
        Err(e) => {
            return Err(AssembleError::Source(e));
        },
    };
    let mut parser = Parser::new(tokens.as_slice());
    let nodes = match parser.parse() {
        Ok(nodes) => nodes,
        Err(e) => {
            return Err(AssembleError::Source(e));
        },
    };
    let mut ctx = Ctx::new();
    let instructions = match ctx.lower(nodes.as_slice()) {
        Ok(instructions) => instructions,
        Err(e) => {
            return Err(AssembleError::Source(e));
        },
    };
    let mut script = Script::new();
    match script.add_instructions(instructions.as_slice()) {
        Ok(()) => Ok(script.into_bytes()),
        Err(e) => Err(AssembleError::Format(e)),
    }
}

} // verus!
