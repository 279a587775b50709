use t8::instruction::Instruction;
use t8::interop::{undefined_identifier, Ctx};
use t8::lexer::Lexer;
use t8::parser::{Builtin, Node, Parser};

fn nodes_of(src: &str) -> Vec<Node> {
    let tokens = Lexer::new(src.as_bytes()).lex().expect("lex failed");
    Parser::new(&tokens).parse().expect("parse failed")
}

fn constant(name: &str, value: u8) -> Node {
    Node::Builtin { kind: Builtin::Const, lhs: name.to_string(), rhs: Box::new(Node::Number(value)) }
}

fn reference(name: &str) -> Node {
    Node::Ident { line: 3, col: 9, inner: name.to_string() }
}

#[test]
fn a_later_definition_replaces_an_earlier_one() {
    let mut ctx = Ctx::new();
    assert_eq!(ctx.node_to_instruction(constant("a", 1)), Ok(None));
    assert_eq!(ctx.lookup("a"), Some(1));
    assert_eq!(ctx.node_to_instruction(constant("a", 2)), Ok(None));
    assert_eq!(ctx.lookup("a"), Some(2));
    let load = Node::Instruction {
        partial: Instruction::LOADI { imm: 0 },
        rhs: Some(Box::new(Node::Literal(Box::new(reference("a"))))),
    };
    assert_eq!(ctx.node_to_instruction(load), Ok(Some(Instruction::LOADI { imm: 2 })));

    let mut ctx = Ctx::new();
    let program = nodes_of(".const a 1\n.const a 2\nLOADI #a\nST [a]\nROL #a");
    assert_eq!(
        ctx.lower(&program),
        Ok(vec![
            Instruction::LOADI { imm: 2 },
            Instruction::ST { addr: 2 },
            Instruction::ROL { imm: 2 },
        ])
    );
}

#[test]
fn a_reference_sees_the_definitions_before_it_only() {
    let mut ctx = Ctx::new();
    let program = nodes_of(".const a 1\nLOADI #a\n.const a 2\nLOADI #a");
    assert_eq!(
        ctx.lower(&program),
        Ok(vec![Instruction::LOADI { imm: 1 }, Instruction::LOADI { imm: 2 }])
    );

    let mut ctx = Ctx::new();
    let e = ctx.lower(&nodes_of("LOADI #a\n.const a 2")).unwrap_err();
    assert_eq!((e.line, e.col), (0, 8));
    assert_eq!(e.msg, "Undefined identifier `\"a\"`");
}

#[test]
fn names_are_kept_apart() {
    let mut ctx = Ctx::new();
    assert_eq!(ctx.lookup("led"), None);
    ctx.define("led".to_string(), 15);
    ctx.define("off".to_string(), 0);
    ctx.define("le".to_string(), 7);
    assert_eq!(ctx.lookup("led"), Some(15));
    assert_eq!(ctx.lookup("off"), Some(0));
    assert_eq!(ctx.lookup("le"), Some(7));
    assert_eq!(ctx.lookup("LED"), None);
    assert_eq!(ctx.lookup(""), None);
}

#[test]
fn operations_without_an_operand_pass_unchanged() {
    let mut ctx = Ctx::new();
    let program = nodes_of("NOP MOV ADD SUB LD HALT");
    assert_eq!(
        ctx.lower(&program),
        Ok(vec![
            Instruction::NOP,
            Instruction::MOV,
            Instruction::ADD,
            Instruction::SUB,
            Instruction::LD { addr: 0 },
            Instruction::HALT,
        ])
    );
    assert_eq!(Ctx::new().lower(&[]), Ok(vec![]));
    assert_eq!(Ctx::new().lower(&nodes_of(".const x 9")), Ok(vec![]));
}

#[test]
fn operands_keep_all_eight_bits() {
    let mut ctx = Ctx::new();
    assert_eq!(
        ctx.lower(&nodes_of(".const big 200\nLOADI #big\nST [255]\nROL 16")),
        Ok(vec![
            Instruction::LOADI { imm: 200 },
            Instruction::ST { addr: 255 },
            Instruction::ROL { imm: 16 },
        ])
    );
}

#[test]
fn an_undefined_name_fails_at_the_reference() {
    let mut ctx = Ctx::new();
    ctx.define("x".to_string(), 1);
    let store = Node::Instruction {
        partial: Instruction::ST { addr: 0 },
        rhs: Some(Box::new(Node::Addr(Box::new(reference("led"))))),
    };
    let e = ctx.node_to_instruction(store).unwrap_err();
    assert_eq!((e.line, e.col), (3, 9));
    assert_eq!(e.msg, "Undefined identifier `\"led\"`");
    let e = undefined_identifier(4, 2, "<x>");
    assert_eq!((e.line, e.col), (4, 2));
    assert_eq!(e.msg, "Undefined identifier `<x>`");
    assert_eq!(ctx.lookup("x"), Some(1));
}

#[test]
fn nodes_out_of_place_are_failures() {
    let mut ctx = Ctx::new();
    let e = ctx.node_to_instruction(Node::Number(3)).unwrap_err();
    assert_eq!((e.line, e.col), (0, 0));
    assert_eq!(e.msg, "Wanted a directive or an instruction, got an operand");

    let e = ctx.node_to_instruction(Node::Literal(Box::new(Node::Number(3)))).unwrap_err();
    assert_eq!(e.msg, "Wanted a directive or an instruction, got an operand");

    let e = ctx
        .node_to_instruction(Node::Instruction { partial: Instruction::LOADI { imm: 0 }, rhs: None })
        .unwrap_err();
    assert_eq!(e.msg, "Instruction is missing its operand");

    let nested = Node::Instruction {
        partial: Instruction::ROL { imm: 0 },
        rhs: Some(Box::new(Node::Instruction { partial: Instruction::HALT, rhs: None })),
    };
    let e = ctx.node_to_instruction(nested).unwrap_err();
    assert_eq!(e.msg, "Wanted an operand, got something else");

    let bad = Node::Builtin {
        kind: Builtin::Const,
        lhs: "x".to_string(),
        rhs: Box::new(reference("y")),
    };
    let e = ctx.node_to_instruction(bad).unwrap_err();
    assert_eq!(e.msg, "Invalid rhs for .const, wanted number");
    assert_eq!(ctx.lookup("x"), None);
}

#[test]
fn wrappers_are_transparent_at_any_depth() {
    let mut ctx = Ctx::new();
    let deep = Node::Instruction {
        partial: Instruction::LOADI { imm: 0 },
        rhs: Some(Box::new(Node::Literal(Box::new(Node::Addr(Box::new(Node::Number(9))))))),
    };
    assert_eq!(ctx.node_to_instruction(deep), Ok(Some(Instruction::LOADI { imm: 9 })));
    let ignored = Node::Instruction {
        partial: Instruction::HALT,
        rhs: Some(Box::new(Node::Number(9))),
    };
    assert_eq!(ctx.node_to_instruction(ignored), Ok(Some(Instruction::HALT)));
}
