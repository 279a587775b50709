//! The disassembler: instructions back to text, one statement each, with a
//! comment that shows the encoded byte.

use vstd::prelude::*;
use vstd::string::*;
use crate::instruction::Instruction;
use crate::text::{numeral, push_numeral, push_padded, zero_padded};

verus! {

/// An instruction as a line of source: the mnemonic, and the operand in
/// decimal where the opcode has an operand field.
pub open spec fn statement(i: Instruction) -> Seq<char> {
    if i.spec_wants_operand() || i is LD {
        i.spec_mnemonic() + " "@ + numeral(i.spec_operand() as nat, 10, false) + "\n"@
    } else {
        i.spec_mnemonic() + "\n"@
    }
}

/// What the listing shows of the instruction at `index`: a comment with the
/// index, the byte, and its two nibbles, then the statement. An instruction
/// without an encoding is left out.
pub open spec fn entry(index: int, i: Instruction) -> Seq<char> {
    match i.spec_encode() {
        None => Seq::empty(),
        Some(b) => "; "@ + zero_padded(numeral(index as nat, 16, false), 4) + ": 0x"@ + numeral(
            b as nat,
            16,
            true,
        ) + " (op=0x"@ + numeral((i.spec_opcode() * 16) as nat, 16, true) + ", imm=0x"@ + numeral(
            (i.spec_operand() % 16) as nat,
            16,
            true,
        ) + ")\n"@ + statement(i),
    }
}

/// The entries of the first `n` instructions, in order.
pub open spec fn entries(ins: Seq<Instruction>, n: int) -> Seq<char>
    decreases n,
{
    if n <= 0 {
        Seq::empty()
    } else {
        entries(ins, n - 1) + entry(n - 1, ins[n - 1])
    }
}

/// The listing of a program: the magic tag and the size as comments, an
/// empty line, then the entries.
pub open spec fn listing(ins: Seq<Instruction>) -> Seq<char> {
    "; magic=t8cpu\n; size="@ + numeral(ins.len(), 10, false) + "\n\n"@ + entries(
        ins,
        ins.len() as int,
    )
}

fn push_statement(out: &mut String, i: &Instruction)
    ensures
        final(out)@ == old(out)@ + statement(*i),
{
    out.append(i.to_str_lossy());
    match i {
        Instruction::LOADI { imm } => {
            out.append(" ");
            push_numeral(out, *imm as usize, 10, false);
        },
        Instruction::ST { addr } => {
            out.append(" ");
            push_numeral(out, *addr as usize, 10, false);
        },
        Instruction::LD { addr } => {
            out.append(" ");
            push_numeral(out, *addr as usize, 10, false);
        },
        Instruction::ROL { imm } => {
            out.append(" ");
            push_numeral(out, *imm as usize, 10, false);
        },
        _ => {},
    }
    out.append("\n");
    assert(out@ =~= old(out)@ + statement(*i));
}

fn push_entry(out: &mut String, index: usize, i: &Instruction)
    ensures
        final(out)@ == old(out)@ + entry(index as int, *i),
{
    match i.encode() {
        None => {
            assert(out@ =~= old(out)@ + entry(index as int, *i));
        },
        Some(encoded) => {
            out.append("; ");
            push_padded(out, index, 16, false, 4);
            out.append(": 0x");
            push_numeral(out, encoded as usize, 16, true);
            out.append(" (op=0x");
            push_numeral(out, i.op() as usize, 16, true);
            out.append(", imm=0x");
            push_numeral(out, i.imm() as usize, 16, true);
            out.append(")\n");
            push_statement(out, i);
            assert(out@ =~= old(out)@ + entry(index as int, *i));
        },
    }
}

/// Lists a program as text.
pub fn dis(ins: &[Instruction]) -> (r: String)
    ensures
        r@ == listing(ins@),
{
    let mut out = String::from_str("; magic=t8cpu\n; size=");
    push_numeral(&mut out, ins.len(), 10, false);
    out.append("\n\n");
    let ghost head = out@;
    let mut k: usize = 0;
    assert(out@ =~= head + entries(ins@, 0));
    while k < ins.len()
        invariant
            k <= ins@.len(),
            head == "; magic=t8cpu\n; size="@ + numeral(ins@.len(), 10, false) + "\n\n"@,
            out@ == head + entries(ins@, k as int),
        decreases ins@.len() - k,
    {
        push_entry(&mut out, k, &ins[k]);
        k += 1;
        assert(out@ =~= head + entries(ins@, k as int));
    }
    out
}

} // verus!
