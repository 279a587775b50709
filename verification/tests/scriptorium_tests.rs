use t8::assembler::{assemble, AssembleError};
use t8::instruction::Instruction;
use t8::scriptorium::{from, FormatError, Script, MAGIC};

#[test]
fn the_magic_is_the_ascii_tag() {
    assert_eq!(&MAGIC, b"t8cpu");
    assert_eq!(Script::new().into_bytes(), b"t8cpu".to_vec());
}

#[test]
fn end_to_end_example() {
    let src = ".const led 0xF\nLOADI #led\nST [led]\nHALT\n";
    let bytes = assemble(src.as_bytes()).expect("assemble failed");
    assert_eq!(bytes, vec![b't', b'8', b'c', b'p', b'u', 0x1F, 0x5F, 0x80]);
    assert_eq!(
        from(&bytes),
        Ok(vec![
            Instruction::LOADI { imm: 0xF },
            Instruction::ST { addr: 0xF },
            Instruction::HALT,
        ])
    );
}

#[test]
fn writing_appends_one_byte_for_each_instruction() {
    let mut script = Script::new();
    assert_eq!(script.add_instructions(&[Instruction::LOADI { imm: 3 }, Instruction::MOV]), Ok(()));
    assert_eq!(script.add_instructions(&[]), Ok(()));
    assert_eq!(script.add_instructions(&[Instruction::HALT]), Ok(()));
    assert_eq!(script.into_bytes(), vec![0x74, 0x38, 0x63, 0x70, 0x75, 0x13, 0x20, 0x80]);
}

#[test]
fn writing_fails_on_an_operand_that_does_not_fit() {
    let mut script = Script::new();
    let program = [
        Instruction::LOADI { imm: 3 },
        Instruction::ST { addr: 16 },
        Instruction::ROL { imm: 99 },
    ];
    assert_eq!(script.add_instructions(&program), Err(FormatError::OperandTooLarge { index: 1 }));
    assert_eq!(script.into_bytes(), b"t8cpu".to_vec());
}

#[test]
fn reading_undoes_writing() {
    let mut program = Vec::new();
    for operand in 0u8..=15 {
        program.push(Instruction::NOP);
        program.push(Instruction::LOADI { imm: operand });
        program.push(Instruction::MOV);
        program.push(Instruction::ADD);
        program.push(Instruction::SUB);
        program.push(Instruction::ST { addr: operand });
        program.push(Instruction::LD { addr: operand });
        program.push(Instruction::ROL { imm: operand });
        program.push(Instruction::HALT);
    }
    let mut script = Script::new();
    script.add_instructions(&program).unwrap();
    let bytes = script.into_bytes();
    assert_eq!(bytes.len(), 5 + program.len());
    assert_eq!(from(&bytes), Ok(program));
}

#[test]
fn reading_checks_length_and_header_first() {
    assert_eq!(from(b""), Err(FormatError::NotEnoughBytes));
    assert_eq!(from(b"t8cp"), Err(FormatError::NotEnoughBytes));
    assert_eq!(from(b"\x90\x90"), Err(FormatError::NotEnoughBytes));
    assert_eq!(from(b"t8cpu"), Ok(vec![]));
    assert_eq!(from(b"T8cpu"), Err(FormatError::InvalidHeader));
    assert_eq!(from(b"t8cpv\x00"), Err(FormatError::InvalidHeader));
    assert_eq!(from(b"xxxxx\x90"), Err(FormatError::InvalidHeader));
}

#[test]
fn reading_fails_on_the_first_unknown_opcode() {
    assert_eq!(
        from(b"t8cpu\x00\x13\x9A\xFF"),
        Err(FormatError::UnknownOperator { offset: 7, byte: 0x9A })
    );
    assert_eq!(
        from(b"t8cpu\xF0"),
        Err(FormatError::UnknownOperator { offset: 5, byte: 0xF0 })
    );
    assert_eq!(from(b"t8cpu\x8F\x0F"), Ok(vec![Instruction::HALT, Instruction::NOP]));
}

#[test]
fn assembling_reports_the_first_failure() {
    match assemble(b"LOADI #1\nST [led]") {
        Err(AssembleError::Source(e)) => {
            assert_eq!((e.line, e.col), (1, 7));
            assert_eq!(e.msg, "Undefined identifier `\"led\"`");
        }
        other => panic!("{:?}", other),
    }
    match assemble(b"LOADI #1 $") {
        Err(AssembleError::Source(e)) => assert_eq!(e.msg, "Unknown character `$`"),
        other => panic!("{:?}", other),
    }
    match assemble(b"LOADI") {
        Err(AssembleError::Source(e)) => {
            assert_eq!(e.msg, "Wanted an operand, got something else")
        }
        other => panic!("{:?}", other),
    }
    assert_eq!(
        assemble(b"NOP\nLOADI #16"),
        Err(AssembleError::Format(FormatError::OperandTooLarge { index: 1 }))
    );
    assert_eq!(assemble(b""), Ok(b"t8cpu".to_vec()));
    assert_eq!(assemble(b"; nothing\n.const x 1\n"), Ok(b"t8cpu".to_vec()));
}

#[test]
fn assembling_the_led_example() {
    let src = b"
.const led 0xF
.const off 0
.const on 1

; simple on/off LED
    LOADI #off
    ST [led]
    LOADI #on
    ST [led]

; 8 leds mapped at 'led'
    LOADI #0xD  ; 0b00001101
    ST [led]    ; LEDs 0,2,3 on
";
    let mut expected = b"t8cpu".to_vec();
    expected.extend_from_slice(&[0x10, 0x5F, 0x11, 0x5F, 0x1D, 0x5F]);
    assert_eq!(assemble(src), Ok(expected));
}

#[test]
fn format_errors_in_words() {
    assert_eq!(FormatError::NotEnoughBytes.message(), "Not enough bytes for a valid t8 binary");
    assert_eq!(FormatError::InvalidHeader.message(), "Invalid header");
    assert_eq!(
        FormatError::UnknownOperator { offset: 5, byte: 0x90 }.message(),
        "unknown operator"
    );
    assert_eq!(
        FormatError::OperandTooLarge { index: 0 }.message(),
        "Failed to encode instruction, rhs too large"
    );
}
