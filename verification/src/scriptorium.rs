//! The binary container: a five-byte magic tag, then one byte for each
//! instruction in program order.

use vstd::prelude::*;
use vstd::string::*;
use crate::results::{after, emit, lemma_after_emit, lemma_after_end, lemma_after_nothing};
use crate::instruction::{lemma_decode_encode, spec_decode, Instruction};

verus! {

/// The tag that every container begins with: the ASCII text `t8cpu`.
pub const MAGIC: [u8; 5] = [0x74, 0x38, 0x63, 0x70, 0x75];

pub open spec fn magic() -> Seq<u8> {
    seq![0x74u8, 0x38u8, 0x63u8, 0x70u8, 0x75u8]
}

/// Why a container cannot be written or read.
#[derive(Debug, Clone, Copy, PartialEq, Eq, Structural)]
pub enum FormatError {
    /// The input is shorter than the magic tag.
    NotEnoughBytes,
    /// The input does not begin with the magic tag.
    InvalidHeader,
    /// The byte at `offset` has an opcode nibble that names no opcode.
    UnknownOperator { offset: usize, byte: u8 },
    /// The instruction at `index` holds an operand above 15.
    OperandTooLarge { index: usize },
}

impl FormatError {
    pub open spec fn spec_message(self) -> Seq<char> {
        match self {
            FormatError::NotEnoughBytes => "Not enough bytes for a valid t8 binary"@,
            FormatError::InvalidHeader => "Invalid header"@,
            FormatError::UnknownOperator { .. } => "unknown operator"@,
            FormatError::OperandTooLarge { .. } => "Failed to encode instruction, rhs too large"@,
        }
    }

    /// The failure in words.
    pub fn message(&self) -> (r: String)
        ensures
            r@ == self.spec_message(),
    {
        match self {
            FormatError::NotEnoughBytes => String::from_str(
                "Not enough bytes for a valid t8 binary",
            ),
            FormatError::InvalidHeader => String::from_str("Invalid header"),
            FormatError::UnknownOperator { .. } => String::from_str("unknown operator"),
            FormatError::OperandTooLarge { .. } => String::from_str(
                "Failed to encode instruction, rhs too large",
            ),
        }
    }
}

/// The bytes of the instructions from `at` on, or the first that has none.
pub open spec fn encode_from(ins: Seq<Instruction>, at: int) -> Result<Seq<u8>, FormatError>
    decreases ins.len() - at,
{
    if at < 0 || at >= ins.len() {
        Ok(Seq::empty())
    } else {
        match ins[at].spec_encode() {
            None => Err(FormatError::OperandTooLarge { index: at as usize }),
            Some(b) => emit(b, encode_from(ins, at + 1)),
        }
    }
}

/// The instructions of the bytes from `at` on, or the first byte that
/// stands for none.
pub open spec fn decode_from(bytes: Seq<u8>, at: int) -> Result<Seq<Instruction>, FormatError>
    decreases bytes.len() - at,
{
    if at < 0 || at >= bytes.len() {
        Ok(Seq::empty())
    } else {
        match spec_decode(bytes[at]) {
            None => Err(FormatError::UnknownOperator { offset: at as usize, byte: bytes[at] }),
            Some(i) => emit(i, decode_from(bytes, at + 1)),
        }
    }
}

/// What reading a container gives: its instructions, or why it has none.
pub open spec fn spec_from(bytes: Seq<u8>) -> Result<Seq<Instruction>, FormatError> {
    if bytes.len() < 5 {
        Err(FormatError::NotEnoughBytes)
    } else if bytes.subrange(0, 5) != magic() {
        Err(FormatError::InvalidHeader)
    } else {
        decode_from(bytes, 5)
    }
}

/// The bytes of instructions that all have an encoding: one byte each, in order.
proof fn lemma_encoded_bytes(ins: Seq<Instruction>, at: int)
    requires
        0 <= at <= ins.len(),
        encode_from(ins, at) is Ok,
    ensures
        encode_from(ins, at)->Ok_0.len() == ins.len() - at,
        forall|j: int|
            0 <= j < ins.len() - at ==> (#[trigger] ins[at + j]).spec_encode() == Some(
                encode_from(ins, at)->Ok_0[j],
            ),
    decreases ins.len() - at,
{
    if at < ins.len() {
        lemma_encoded_bytes(ins, at + 1);
        let rest = encode_from(ins, at + 1)->Ok_0;
        let b = ins[at].spec_encode()->Some_0;
        assert(encode_from(ins, at)->Ok_0 =~= seq![b] + rest);
        assert forall|j: int| 0 <= j < ins.len() - at implies (#[trigger] ins[at
            + j]).spec_encode() == Some(encode_from(ins, at)->Ok_0[j]) by {
            if j > 0 {
                assert(ins[at + 1 + (j - 1)].spec_encode() == Some(rest[j - 1]));
            }
        }
    }
}

/// Bytes that each decode to the instruction wanted of them decode, as a
/// whole, to the instructions wanted.
proof fn lemma_decoded_instructions(bytes: Seq<u8>, at: int, want: Seq<Instruction>)
    requires
        0 <= at <= bytes.len(),
        want.len() == bytes.len() - at,
        forall|j: int| 0 <= j < want.len() ==> spec_decode(bytes[at + j]) == Some(#[trigger] want[j]),
    ensures
        decode_from(bytes, at) == Ok::<Seq<Instruction>, FormatError>(want),
    decreases bytes.len() - at,
{
    if at < bytes.len() {
        let rest = want.drop_first();
        assert forall|j: int| 0 <= j < rest.len() implies spec_decode(bytes[at + 1 + j]) == Some(
            #[trigger] rest[j],
        ) by {
            assert(rest[j] == want[j + 1]);
        }
        lemma_decoded_instructions(bytes, at + 1, rest);
        assert(spec_decode(bytes[at + 0]) == Some(want[0]));
        assert(seq![want[0]] + rest =~= want);
    } else {
        assert(want =~= Seq::<Instruction>::empty());
    }
}

/// Reading undoes writing: the container written for instructions that all
/// have an encoding reads back as those instructions.
pub proof fn lemma_container_round_trip(ins: Seq<Instruction>)
    requires
        encode_from(ins, 0) is Ok,
    ensures
        encode_from(ins, 0)->Ok_0.len() == ins.len(),
        spec_from(magic() + encode_from(ins, 0)->Ok_0) == Ok::<Seq<Instruction>, FormatError>(ins),
{
    let body = encode_from(ins, 0)->Ok_0;
    let bytes = magic() + body;
    lemma_encoded_bytes(ins, 0);
    assert(bytes.subrange(0, 5) =~= magic());
    assert forall|j: int| 0 <= j < ins.len() implies spec_decode(bytes[5 + j]) == Some(
        #[trigger] ins[j],
    ) by {
        assert(ins[0 + j].spec_encode() == Some(body[j]));
        assert(bytes[5 + j] == body[j]);
        lemma_decode_encode(ins[j]);
    }
    lemma_decoded_instructions(bytes, 5, ins);
}

/// A container under construction.
pub struct Script {
    bytes: Vec<u8>,
}

impl View for Script {
    type V = Seq<u8>;

    closed spec fn view(&self) -> Seq<u8> {
        self.bytes@
    }
}

impl Script {
    /// A container that holds the magic tag and no instruction yet.
    pub fn new() -> (r: Self)
        ensures
            r@ == magic(),
    {
        let mut bytes: Vec<u8> = Vec::new();
        bytes.push(0x74);
        bytes.push(0x38);
        bytes.push(0x63);
        bytes.push(0x70);
        bytes.push(0x75);
        assert(bytes@ =~= magic());
        Script { bytes }
    }

    /// Appends the byte of each instruction, in order. Where one of them
    /// has no encoding, nothing is appended.
    pub fn add_instructions(&mut self, instructions: &[Instruction]) -> (r: Result<
        (),
        FormatError,
    >)
        ensures
            match encode_from(instructions@, 0) {
                Ok(bs) => r is Ok && final(self)@ == old(self)@ + bs,
                Err(e) => r == Err::<(), FormatError>(e) && final(self)@ == old(self)@,
            },
    {
        let mut encoded: Vec<u8> = Vec::new();
        let ghost goal = encode_from(instructions@, 0);
        proof {
            lemma_after_nothing(goal);
        }
        let mut i: usize = 0;
        while i < instructions.len()
            invariant
                i <= instructions@.len(),
                goal == encode_from(instructions@, 0),
                goal == after(encoded@, encode_from(instructions@, i as int)),
            decreases instructions@.len() - i,
        {
            match instructions[i].encode() {
                None => {
                    return Err(FormatError::OperandTooLarge { index: i });
                },
                Some(b) => {
                    proof {
                        lemma_after_emit(encoded@, b, encode_from(instructions@, i + 1));
                    }
                    encoded.push(b);
                },
            }
            i += 1;
        }
        proof {
            lemma_after_end::<u8, FormatError>(encoded@);
        }
        self.bytes.append(&mut encoded);
        Ok(())
    }

    /// The bytes of the container.
    pub fn into_bytes(self) -> (r: Vec<u8>)
        ensures
            r@ == self@,
    {
        self.bytes
    }
}

/// Reads a container: checks the magic tag, then decodes every byte
/// behind it.
pub fn from(bytes: &[u8]) -> (r: Result<Vec<Instruction>, FormatError>)
    ensures
        match spec_from(bytes@) {
            Ok(ins) => r is Ok && r->Ok_0@ == ins,
            Err(e) => r == Err::<Vec<Instruction>, FormatError>(e),
        },
{
    if bytes.len() < 5 {
        return Err(FormatError::NotEnoughBytes);
    }
    let mut k: usize = 0;
    while k < 5
        invariant
            k <= 5 <= bytes@.len(),
            forall|j: int| 0 <= j < k ==> bytes@[j] == magic()[j],
        decreases 5 - k,
    {
        if bytes[k] != MAGIC[k] {
            assert(bytes@.subrange(0, 5)[k as int] != magic()[k as int]);
            return Err(FormatError::InvalidHeader);
        }
        k += 1;
    }
    assert(bytes@.subrange(0, 5) =~= magic());
    let mut out: Vec<Instruction> = Vec::new();
    let ghost goal = decode_from(bytes@, 5);
    proof {
        lemma_after_nothing(goal);
    }
    let mut i: usize = 5;
    while i < bytes.len()
        invariant
            5 <= i <= bytes@.len(),
            goal == spec_from(bytes@),
            goal == after(out@, decode_from(bytes@, i as int)),
        decreases bytes@.len() - i,
    {
        match Instruction::decode(bytes[i]) {
            Err(_) => {
                return Err(FormatError::UnknownOperator { offset: i, byte: bytes[i] });
            },
            Ok(instruction) => {
                proof {
                    lemma_after_emit(out@, instruction, decode_from(bytes@, i + 1));
                }
                out.push(instruction);
            },
        }
        i += 1;
    }
    proof {
        lemma_after_end::<Instruction, FormatError>(out@);
    }
    Ok(out)
}

} // verus!
