//! The instruction set: nine opcodes in the high nibble of a byte, with an
//! optional 4-bit operand in the low nibble.

use vstd::prelude::*;
use vstd::string::*;
use crate::text::{debug_of, debug_text, same_text};

verus! {

#[derive(Debug, Clone, Copy, PartialEq, Eq, Structural)]
pub enum Instruction {
    NOP,
    LOADI { imm: u8 },
    MOV,
    ADD,
    SUB,
    ST { addr: u8 },
    LD { addr: u8 },
    ROL { imm: u8 },
    HALT,
}

/// The instruction that a byte stands for: the high nibble selects the
/// opcode, the low nibble is the operand. Nibbles above 8 name no opcode.
pub open spec fn spec_decode(b: u8) -> Option<Instruction> {
    let operand = b % 16;
    match b / 16 {
        0 => Some(Instruction::NOP),
        1 => Some(Instruction::LOADI { imm: operand }),
        2 => Some(Instruction::MOV),
        3 => Some(Instruction::ADD),
        4 => Some(Instruction::SUB),
        5 => Some(Instruction::ST { addr: operand }),
        6 => Some(Instruction::LD { addr: operand }),
        7 => Some(Instruction::ROL { imm: operand }),
        8 => Some(Instruction::HALT),
        _ => None,
    }
}

/// The instruction whose mnemonic is exactly `name`, with a zero operand.
pub open spec fn spec_from_mnemonic(name: Seq<char>) -> Option<Instruction> {
    if name == "NOP"@ {
        Some(Instruction::NOP)
    } else if name == "LOADI"@ {
        Some(Instruction::LOADI { imm: 0 })
    } else if name == "MOV"@ {
        Some(Instruction::MOV)
    } else if name == "ADD"@ {
        Some(Instruction::ADD)
    } else if name == "SUB"@ {
        Some(Instruction::SUB)
    } else if name == "ST"@ {
        Some(Instruction::ST { addr: 0 })
    } else if name == "LD"@ {
        Some(Instruction::LD { addr: 0 })
    } else if name == "ROL"@ {
        Some(Instruction::ROL { imm: 0 })
    } else if name == "HALT"@ {
        Some(Instruction::HALT)
    } else {
        None
    }
}

/// The text of the failure for a name that is no mnemonic: the name as
/// `Debug` shows it, behind a fixed beginning.
pub open spec fn invalid_instruction_msg(name: Seq<char>) -> Seq<char> {
    "Invalid instruction "@ + debug_text(name)
}

/// The failure for a name that is no mnemonic, from the name as it is shown.
pub fn invalid_instruction(shown: &str) -> (r: String)
    ensures
        r@ == "Invalid instruction "@ + shown@,
{
    String::from_str("Invalid instruction ").concat(shown)
}

impl Instruction {
    /// The opcode number, 0 to 8.
    pub open spec fn spec_opcode(self) -> u8 {
        match self {
            Instruction::NOP => 0,
            Instruction::LOADI { .. } => 1,
            Instruction::MOV => 2,
            Instruction::ADD => 3,
            Instruction::SUB => 4,
            Instruction::ST { .. } => 5,
            Instruction::LD { .. } => 6,
            Instruction::ROL { .. } => 7,
            Instruction::HALT => 8,
        }
    }

    /// The operand field as it is stored, or 0 where the opcode takes none.
    pub open spec fn spec_operand(self) -> u8 {
        match self {
            Instruction::LOADI { imm } => imm,
            Instruction::ST { addr } => addr,
            Instruction::LD { addr } => addr,
            Instruction::ROL { imm } => imm,
            _ => 0,
        }
    }

    /// Whether the opcode is one that the assembler reads an operand for.
    pub open spec fn spec_wants_operand(self) -> bool {
        self is LOADI || self is ST || self is ROL
    }

    /// The same opcode with `v` in its operand field; opcodes without an
    /// operand are left as they are.
    pub open spec fn spec_with_operand(self, v: u8) -> Instruction {
        match self {
            Instruction::LOADI { .. } => Instruction::LOADI { imm: v },
            Instruction::ST { .. } => Instruction::ST { addr: v },
            Instruction::LD { .. } => Instruction::LD { addr: v },
            Instruction::ROL { .. } => Instruction::ROL { imm: v },
            other => other,
        }
    }

    /// The byte of an instruction: opcode times 16 plus operand, defined
    /// only while the operand fits in four bits.
    pub open spec fn spec_encode(self) -> Option<u8> {
        if self.spec_operand() > 15 {
            None
        } else {
            Some((self.spec_opcode() * 16 + self.spec_operand()) as u8)
        }
    }

    pub open spec fn spec_mnemonic(self) -> Seq<char> {
        match self {
            Instruction::NOP => "NOP"@,
            Instruction::LOADI { .. } => "LOADI"@,
            Instruction::MOV => "MOV"@,
            Instruction::ADD => "ADD"@,
            Instruction::SUB => "SUB"@,
            Instruction::ST { .. } => "ST"@,
            Instruction::LD { .. } => "LD"@,
            Instruction::ROL { .. } => "ROL"@,
            Instruction::HALT => "HALT"@,
        }
    }

    pub fn encode(&self) -> (r: Option<u8>)
        ensures
            r == self.spec_encode(),
    {
        match self {
            Instruction::NOP => Some(0x00),
            Instruction::LOADI { imm } => pack(1, *imm),
            Instruction::MOV => Some(0x20),
            Instruction::ADD => Some(0x30),
            Instruction::SUB => Some(0x40),
            Instruction::ST { addr } => pack(5, *addr),
            Instruction::LD { addr } => pack(6, *addr),
            Instruction::ROL { imm } => pack(7, *imm),
            Instruction::HALT => Some(0x80),
        }
    }

    pub fn decode(b: u8) -> (r: Result<Self, &'static str>)
        ensures
            match spec_decode(b) {
                Some(i) => r == Ok::<Instruction, &'static str>(i),
                None => r == Err::<Instruction, &'static str>("unknown operator"),
            },
    {
        let op: u8 = b >> 4;
        let imm: u8 = b & 0xF;
        assert(b >> 4 == b / 16 && b & 0xF == b % 16) by (bit_vector);
        match op {
            0x0 => Ok(Self::NOP),
            0x1 => Ok(Self::LOADI { imm }),
            0x2 => Ok(Self::MOV),
            0x3 => Ok(Self::ADD),
            0x4 => Ok(Self::SUB),
            0x5 => Ok(Self::ST { addr: imm }),
            0x6 => Ok(Self::LD { addr: imm }),
            0x7 => Ok(Self::ROL { imm }),
            0x8 => Ok(Self::HALT),
            _ => Err("unknown operator"),
        }
    }

    /// The opcode as it stands in an encoded byte: in the high nibble.
    pub fn op(&self) -> (r: u8)
        ensures
            r == self.spec_opcode() * 16,
    {
        match self {
            Instruction::NOP => 0x00,
            Instruction::LOADI { .. } => 0x10,
            Instruction::MOV => 0x20,
            Instruction::ADD => 0x30,
            Instruction::SUB => 0x40,
            Instruction::ST { .. } => 0x50,
            Instruction::LD { .. } => 0x60,
            Instruction::ROL { .. } => 0x70,
            Instruction::HALT => 0x80,
        }
    }

    /// The low four bits of the operand field.
    pub fn imm(&self) -> (r: u8)
        ensures
            r == self.spec_operand() % 16,
    {
        let raw: u8 = match self {
            Instruction::ST { addr } => *addr,
            Instruction::LD { addr } => *addr,
            Instruction::LOADI { imm } => *imm,
            Instruction::ROL { imm } => *imm,
            _ => 0,
        };
        assert(raw & 0xF == raw % 16) by (bit_vector);
        raw & 0xF
    }

    /// Looks an instruction up by its mnemonic alone; the name is matched
    /// exactly and case-sensitively, and the operand field is left at zero.
    pub fn from_str_lossy(s: &str) -> (r: Result<Self, String>)
        ensures
            match spec_from_mnemonic(s@) {
                Some(i) => r == Ok::<Instruction, String>(i),
                None => r is Err && r->Err_0@ == invalid_instruction_msg(s@),
            },
    {
        if same_text(s, "NOP") {
            Ok(Self::NOP)
        } else if same_text(s, "LOADI") {
            Ok(Self::LOADI { imm: 0 })
        } else if same_text(s, "MOV") {
            Ok(Self::MOV)
        } else if same_text(s, "ADD") {
            Ok(Self::ADD)
        } else if same_text(s, "SUB") {
            Ok(Self::SUB)
        } else if same_text(s, "ST") {
            Ok(Self::ST { addr: 0 })
        } else if same_text(s, "LD") {
            Ok(Self::LD { addr: 0 })
        } else if same_text(s, "ROL") {
            Ok(Self::ROL { imm: 0 })
        } else if same_text(s, "HALT") {
            Ok(Self::HALT)
        } else {
            let shown = debug_of(s);
            Err(invalid_instruction(shown.as_str()))
        }
    }

    pub fn to_str_lossy(&self) -> (r: &'static str)
        ensures
            r@ == self.spec_mnemonic(),
    {
        match self {
            Self::NOP => "NOP",
            Self::LOADI { .. } => "LOADI",
            Self::MOV => "MOV",
            Self::ADD => "ADD",
            Self::SUB => "SUB",
            Self::ST { .. } => "ST",
            Self::LD { .. } => "LD",
            Self::ROL { .. } => "ROL",
            Self::HALT => "HALT",
        }
    }

    /// The same opcode with `v` in its operand field.
    pub fn with_operand(&self, v: u8) -> (r: Instruction)
        ensures
            r == self.spec_with_operand(v),
    {
        match self {
            Instruction::LOADI { .. } => Instruction::LOADI { imm: v },
            Instruction::ST { .. } => Instruction::ST { addr: v },
            Instruction::LD { .. } => Instruction::LD { addr: v },
            Instruction::ROL { .. } => Instruction::ROL { imm: v },
            other => *other,
        }
    }

    /// Whether the assembler reads an operand after this opcode's mnemonic.
    pub fn wants_operand(&self) -> (r: bool)
        ensures
            r == self.spec_wants_operand(),
    {
        match self {
            Instruction::LOADI { .. } | Instruction::ST { .. } | Instruction::ROL { .. } => true,
            _ => false,
        }
    }
}

impl TryFrom<u8> for Instruction {
    type Error = &'static str;

    fn try_from(value: u8) -> (r: Result<Self, Self::Error>) {
        Self::decode(value)
    }
}

impl vstd::std_specs::convert::TryFromSpecImpl<u8> for Instruction {
    open spec fn obeys_try_from_spec() -> bool {
        true
    }

    open spec fn try_from_spec(v: u8) -> Result<Self, &'static str> {
        match spec_decode(v) {
            Some(i) => Ok(i),
            None => Err("unknown operator"),
        }
    }
}

impl TryFrom<Instruction> for u8 {
    type Error = &'static str;

    fn try_from(value: Instruction) -> (r: Result<Self, Self::Error>) {
        match value.encode() {
            Some(b) => Ok(b),
            None => Err("Failed to encode instruction, rhs too large"),
        }
    }
}

impl vstd::std_specs::convert::TryFromSpecImpl<Instruction> for u8 {
    open spec fn obeys_try_from_spec() -> bool {
        true
    }

    open spec fn try_from_spec(v: Instruction) -> Result<Self, &'static str> {
        match v.spec_encode() {
            Some(b) => Ok(b),
            None => Err("Failed to encode instruction, rhs too large"),
        }
    }
}

/// Joins an opcode and an operand into one byte, if the operand fits.
fn pack(opcode: u8, operand: u8) -> (r: Option<u8>)
    requires
        opcode <= 8,
    ensures
        r == if operand > 15 {
            None
        } else {
            Some((opcode * 16 + operand) as u8)
        },
{
    if operand > 0xF {
        None
    } else {
        assert((opcode << 4) | (operand & 0xF) == opcode * 16 + operand) by (bit_vector)
            requires
                opcode <= 8,
                operand <= 15,
        ;
        Some((opcode << 4) | (operand & 0xF))
    }
}

/// Decoding undoes encoding: an instruction that has an encoding is what
/// its byte decodes to.
pub proof fn lemma_decode_encode(i: Instruction)
    requires
        i.spec_encode() is Some,
    ensures
        spec_decode(i.spec_encode().unwrap()) == Some(i),
{
}

/// Encoding undoes decoding: a byte whose high nibble names an opcode with
/// an operand is the encoding of what it decodes to, and every other byte
/// that decodes does so to the encoding of its high nibble alone.
pub proof fn lemma_encode_decode(b: u8)
    requires
        spec_decode(b) is Some,
    ensures
        spec_decode(b).unwrap().spec_encode() is Some,
        spec_decode(b).unwrap().spec_encode().unwrap() == (if spec_decode(
            b,
        ).unwrap().spec_wants_operand() || spec_decode(b).unwrap() is LD {
            b
        } else {
            (b / 16 * 16) as u8
        }),
{
}

/// A byte decodes exactly when its high nibble is at most 8; above that it
/// stands for no instruction, and so never for `NOP`.
pub proof fn lemma_unknown_operator(b: u8)
    ensures
        spec_decode(b) is None <==> b / 16 >= 9,
        spec_decode(b) == Some(Instruction::NOP) ==> b / 16 == 0,
{
}

} // verus!
