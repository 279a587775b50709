use t8::dis::dis;
use t8::err::T8Err;
use t8::instruction::Instruction;
use t8::text::{copy_range, push_numeral, push_padded, push_repeated, same_text, text_of};

#[test]
fn text_has_one_character_for_each_byte() {
    assert_eq!(text_of(b"abc"), "abc");
    assert_eq!(text_of(b""), "");
    assert_eq!(text_of(b"0x1F [led]"), "0x1F [led]");
    assert_eq!(text_of(&[0xE9]), "\u{e9}");
    assert!(same_text("led", "led"));
    assert!(!same_text("led", "leD"));
    assert!(!same_text("led", "le"));
    assert_eq!(copy_range(b"LOADI #3", 2, 5), b"ADI".to_vec());
    assert_eq!(copy_range(b"LOADI #3", 4, 4), Vec::<u8>::new());
}

fn numeral(n: usize, radix: usize, upper: bool) -> String {
    let mut out = String::from(">");
    push_numeral(&mut out, n, radix, upper);
    out
}

fn padded(n: usize, radix: usize, upper: bool, width: usize) -> String {
    let mut out = String::from(">");
    push_padded(&mut out, n, radix, upper, width);
    out
}

#[test]
fn numerals_in_decimal_and_hex() {
    assert_eq!(numeral(0, 10, false), ">0");
    assert_eq!(numeral(9, 10, false), ">9");
    assert_eq!(numeral(10, 10, false), ">10");
    assert_eq!(numeral(255, 10, false), ">255");
    assert_eq!(numeral(255, 16, true), ">FF");
    assert_eq!(numeral(255, 16, false), ">ff");
    assert_eq!(numeral(0x1A0, 16, true), ">1A0");
    assert_eq!(numeral(5, 2, false), ">101");
    assert_eq!(numeral(usize::MAX, 10, false), format!(">{}", usize::MAX));
    assert_eq!(padded(7, 10, false, 2), ">07");
    assert_eq!(padded(42, 10, false, 2), ">42");
    assert_eq!(padded(123, 10, false, 2), ">123");
    assert_eq!(padded(0xAB, 16, false, 4), ">00ab");
    assert_eq!(padded(0, 16, false, 0), ">0");
    let mut out = String::from("a");
    push_repeated(&mut out, '-', 3);
    push_repeated(&mut out, '+', 0);
    assert_eq!(out, "a---");
}

fn lines() -> Vec<String> {
    vec![
        ".const led 0xF".to_string(),
        "LOADI #1".to_string(),
        "ST [led".to_string(),
        "HALT".to_string(),
        "NOP".to_string(),
        "MOV".to_string(),
    ]
}

#[test]
fn a_diagnostic_is_shown_with_two_lines_around_it() {
    let e = T8Err { line: 2, col: 7, msg: "] needed for addr syntax".to_string() };
    assert_eq!(
        e.render(&lines()),
        "00 | .const led 0xF\n01 | LOADI #1\n02 | ST [led\n   |      ^ ] needed for addr syntax \n03 | HALT\n04 | NOP\n"
    );
}

#[test]
fn context_stops_at_the_ends_of_the_source() {
    let e = T8Err { line: 0, col: 0, msg: "first".to_string() };
    assert_eq!(
        e.render(&lines()),
        "00 | .const led 0xF\n   |^ first \n01 | LOADI #1\n02 | ST [led\n"
    );
    let e = T8Err { line: 1, col: 1, msg: "second".to_string() };
    assert_eq!(
        e.render(&lines()),
        "00 | .const led 0xF\n01 | LOADI #1\n   |^ second \n02 | ST [led\n03 | HALT\n"
    );
    let e = T8Err { line: 5, col: 3, msg: "last".to_string() };
    assert_eq!(e.render(&lines()), "03 | HALT\n04 | NOP\n05 | MOV\n   |  ^ last \n");
    let e = T8Err { line: 6, col: 2, msg: "behind".to_string() };
    assert_eq!(e.render(&lines()), "04 | NOP\n05 | MOV\n   | ^ behind \n");
    let e = T8Err { line: 9, col: 2, msg: "far".to_string() };
    assert_eq!(e.render(&lines()), "   | ^ far \n");
    let e = T8Err { line: usize::MAX, col: usize::MAX.min(4), msg: "m".to_string() };
    assert_eq!(e.render(&[]), "   |   ^ m \n");
}

#[test]
fn listing_of_a_program() {
    let program = [
        Instruction::LOADI { imm: 0xF },
        Instruction::ST { addr: 0xF },
        Instruction::NOP,
        Instruction::LD { addr: 4 },
        Instruction::ROL { imm: 10 },
        Instruction::HALT,
    ];
    assert_eq!(
        dis(&program),
        "; magic=t8cpu\n; size=6\n\n\
         ; 0000: 0x1F (op=0x10, imm=0xF)\nLOADI 15\n\
         ; 0001: 0x5F (op=0x50, imm=0xF)\nST 15\n\
         ; 0002: 0x0 (op=0x0, imm=0x0)\nNOP\n\
         ; 0003: 0x64 (op=0x60, imm=0x4)\nLD 4\n\
         ; 0004: 0x7A (op=0x70, imm=0xA)\nROL 10\n\
         ; 0005: 0x80 (op=0x80, imm=0x0)\nHALT\n"
    );
    assert_eq!(dis(&[]), "; magic=t8cpu\n; size=0\n\n");
}

#[test]
fn listing_leaves_out_what_has_no_encoding() {
    let program = [Instruction::MOV, Instruction::LOADI { imm: 16 }, Instruction::ADD];
    assert_eq!(
        dis(&program),
        "; magic=t8cpu\n; size=3\n\n\
         ; 0000: 0x20 (op=0x20, imm=0x0)\nMOV\n\
         ; 0002: 0x30 (op=0x30, imm=0x0)\nADD\n"
    );
    let mut long = vec![Instruction::NOP; 0x1_0001];
    long[0x1_0000] = Instruction::SUB;
    assert!(dis(&long).ends_with("; 10000: 0x40 (op=0x40, imm=0x0)\nSUB\n"));
}
