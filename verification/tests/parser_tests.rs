use t8::err::T8Err;
use t8::instruction::Instruction;
use t8::lexer::Lexer;
use t8::parser::{Builtin, Node, Parser};

fn ident(line: usize, col: usize, name: &str) -> Node {
    Node::Ident { line, col, inner: name.to_string() }
}

fn parse(src: &str) -> Result<Vec<Node>, T8Err> {
    let tokens = Lexer::new(src.as_bytes()).lex().expect("lex failed");
    Parser::new(&tokens).parse()
}

#[test]
fn test_const_builtin() {
    let tokens = Lexer::new(".const led 5".as_bytes()).lex().expect("lex failed");

    let ast = Parser::new(&tokens).parse().expect("parse failed");

    assert_eq!(
        ast,
        vec![Node::Builtin {
            kind: Builtin::Const,
            lhs: "led".to_string(),
            rhs: Box::new(Node::Number(5)),
        }]
    );
}

#[test]
fn test_loadi_literal_ident() {
    let tokens = Lexer::new("LOADI #foo".as_bytes()).lex().expect("lex failed");
    let ast = Parser::new(&tokens).parse().expect("parse failed");

    assert_eq!(
        ast,
        vec![Node::Instruction {
            partial: Instruction::LOADI { imm: 0 },
            rhs: Some(Box::new(Node::Literal(Box::new(ident(0, 10, "foo"))))),
        }]
    );
}

#[test]
fn test_loadi_literal_number() {
    let tokens = Lexer::new("LOADI #3".as_bytes()).lex().expect("lex failed");
    let ast = Parser::new(&tokens).parse().expect("parse failed");

    assert_eq!(
        ast,
        vec![Node::Instruction {
            partial: Instruction::LOADI { imm: 0 },
            rhs: Some(Box::new(Node::Literal(Box::new(Node::Number(3))))),
        }]
    );
}

#[test]
fn test_st_addr_ident() {
    let tokens = Lexer::new("ST [led]".as_bytes()).lex().expect("lex failed");
    let ast = Parser::new(&tokens).parse().expect("parse failed");

    assert_eq!(
        ast,
        vec![Node::Instruction {
            partial: Instruction::ST { addr: 0 },
            rhs: Some(Box::new(Node::Addr(Box::new(ident(0, 7, "led"))))),
        }]
    );
}

#[test]
fn test_st_addr_number() {
    let tokens = Lexer::new("ST [5]".as_bytes()).lex().expect("lex failed");
    let ast = Parser::new(&tokens).parse().expect("parse failed");

    assert_eq!(
        ast,
        vec![Node::Instruction {
            partial: Instruction::ST { addr: 0 },
            rhs: Some(Box::new(Node::Addr(Box::new(Node::Number(5))))),
        }]
    );
}

#[test]
fn test_small_program() {
    let src = "
.const led 0xF
LOADI #led
ST [led]
HALT
        ";

    let tokens = Lexer::new(src.as_bytes()).lex().expect("lex failed");
    let ast = Parser::new(&tokens).parse().expect("parse failed");

    assert_eq!(
        ast,
        vec![
            Node::Builtin {
                kind: Builtin::Const,
                lhs: "led".to_string(),
                rhs: Box::new(Node::Number(0xF)),
            },
            Node::Instruction {
                partial: Instruction::LOADI { imm: 0 },
                rhs: Some(Box::new(Node::Literal(Box::new(ident(2, 10, "led"))))),
            },
            Node::Instruction {
                partial: Instruction::ST { addr: 0 },
                rhs: Some(Box::new(Node::Addr(Box::new(ident(3, 7, "led"))))),
            },
            Node::Instruction { partial: Instruction::HALT, rhs: None }
        ]
    );
}

#[test]
fn test_fail_missing_rhs() {
    let tokens = Lexer::new("LOADI".as_bytes()).lex().expect("lex failed");
    assert!(Parser::new(&tokens).parse().is_err());
}

#[test]
fn test_fail_addr_missing_bracket() {
    let tokens = Lexer::new("ST [led".as_bytes()).lex().expect("lex failed");
    assert!(Parser::new(&tokens).parse().is_err());
}

#[test]
fn test_fail_builtin_invalid_rhs() {
    let tokens = Lexer::new(".const x foo".as_bytes()).lex().expect("lex failed");
    assert!(Parser::new(&tokens).parse().is_err());
}

fn failure(src: &str) -> (usize, usize, String) {
    let e = parse(src).unwrap_err();
    (e.line, e.col, e.msg)
}

#[test]
fn failures_carry_a_place_and_a_message() {
    assert_eq!(failure("LOADI"), (0, 5, "Wanted an operand, got something else".to_string()));
    assert_eq!(failure("ST [led"), (0, 7, "] needed for addr syntax".to_string()));
    assert_eq!(failure("ST [led #"), (0, 8, "] needed for addr syntax".to_string()));
    assert_eq!(
        failure(".const x foo"),
        (0, 12, "Invalid rhs for .const, wanted number".to_string())
    );
    assert_eq!(
        failure(".const x"),
        (0, 8, "Invalid rhs for .const, wanted number".to_string())
    );
    assert_eq!(
        failure(".const 5 5"),
        (0, 8, "Wanted ident as builtin lhs, got something else".to_string())
    );
    assert_eq!(
        failure(".const"),
        (0, 6, "Wanted ident as builtin lhs, got something else".to_string())
    );
    assert_eq!(failure(".org x 5"), (0, 4, "Unknown builtin `org`".to_string()));
    assert_eq!(failure("HALT\nJMP"), (1, 3, "Invalid instruction \"JMP\"".to_string()));
    assert_eq!(failure("loadi #1"), (0, 5, "Invalid instruction \"loadi\"".to_string()));
    assert_eq!(
        failure("LOADI #]"),
        (0, 7, "Invalid inner literal, wanted ident or number".to_string())
    );
    assert_eq!(
        failure("LOADI #"),
        (0, 6, "Invalid inner literal, wanted ident or number".to_string())
    );
    assert_eq!(
        failure("ST [#"),
        (0, 4, "Invalid inner addr, wanted ident or number".to_string())
    );
    assert_eq!(
        failure("]"),
        (0, 0, "Unkown token type Token { line: 0, col: 0, inner: RightBracket }".to_string())
    );
    assert_eq!(
        failure("HALT\n\nLOADI ]"),
        (2, 6, "Unkown token type Token { line: 2, col: 6, inner: RightBracket }".to_string())
    );
    assert_eq!(
        failure("NOP NOP NOP ]"),
        (0, 12, "Unkown token type Token { line: 0, col: 12, inner: RightBracket }".to_string())
    );
    assert_eq!(
        failure("LOADI HALT"),
        (0, 10, "Wanted an operand, got something else".to_string())
    );
    assert_eq!(
        failure("ROL .const x 1"),
        (0, 10, "Wanted an operand, got something else".to_string())
    );
}

#[test]
fn operands_follow_their_mnemonic_only() {
    assert_eq!(
        parse("MOV ADD SUB NOP LD HALT"),
        Ok(vec![
            Node::Instruction { partial: Instruction::MOV, rhs: None },
            Node::Instruction { partial: Instruction::ADD, rhs: None },
            Node::Instruction { partial: Instruction::SUB, rhs: None },
            Node::Instruction { partial: Instruction::NOP, rhs: None },
            Node::Instruction { partial: Instruction::LD { addr: 0 }, rhs: None },
            Node::Instruction { partial: Instruction::HALT, rhs: None },
        ])
    );
    assert_eq!(
        parse("ROL 3 LOADI [x]"),
        Ok(vec![
            Node::Instruction {
                partial: Instruction::ROL { imm: 0 },
                rhs: Some(Box::new(Node::Number(3))),
            },
            Node::Instruction {
                partial: Instruction::LOADI { imm: 0 },
                rhs: Some(Box::new(Node::Addr(Box::new(ident(0, 14, "x"))))),
            },
        ])
    );
}

#[test]
fn operands_may_stand_alone() {
    assert_eq!(
        parse("#1 [2] 3 HALT #four"),
        Ok(vec![
            Node::Literal(Box::new(Node::Number(1))),
            Node::Addr(Box::new(Node::Number(2))),
            Node::Number(3),
            Node::Instruction { partial: Instruction::HALT, rhs: None },
            Node::Literal(Box::new(ident(0, 19, "four"))),
        ])
    );
    assert_eq!(parse(""), Ok(vec![]));
}

#[test]
fn a_finished_parser_has_nothing_left() {
    let tokens = Lexer::new(b"HALT HALT").lex().unwrap();
    let mut parser = Parser::new(&tokens);
    assert_eq!(parser.parse().unwrap().len(), 2);
    assert_eq!(parser.parse(), Ok(vec![]));
}

#[test]
fn builtins_by_name() {
    assert_eq!(Builtin::from_name(b"const"), Ok(Builtin::Const));
    assert_eq!(Builtin::from_name(b"Const"), Err("Unknown builtin `Const`".to_string()));
    assert_eq!(Builtin::from_name(b""), Err("Unknown builtin ``".to_string()));
}

#[test]
fn one_node_at_a_time() {
    let tokens = Lexer::new(b".const x 1 LOADI #x HALT ]").lex().unwrap();
    let mut parser = Parser::new(&tokens);
    assert_eq!(
        parser.parse_one(),
        Ok(Node::Builtin {
            kind: Builtin::Const,
            lhs: "x".to_string(),
            rhs: Box::new(Node::Number(1)),
        })
    );
    assert_eq!(
        parser.parse_one(),
        Ok(Node::Instruction {
            partial: Instruction::LOADI { imm: 0 },
            rhs: Some(Box::new(Node::Literal(Box::new(ident(0, 19, "x"))))),
        })
    );
    assert_eq!(parser.parse_one(), Ok(Node::Instruction { partial: Instruction::HALT, rhs: None }));
    assert!(parser.parse_one().is_err());
}
