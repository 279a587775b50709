use t8::err::T8Err;
use t8::lexer::{parse_number, Lexer, NumberFault, Token, TokenInner};

fn lex(src: &str) -> Result<Vec<Token>, T8Err> {
    Lexer::new(src.as_bytes()).lex()
}

fn kinds(src: &str) -> Vec<TokenInner> {
    lex(src).expect("Lexer failed").into_iter().map(|t| t.inner).collect()
}

fn ident(name: &str) -> TokenInner {
    TokenInner::Ident(name.as_bytes().to_vec())
}

fn builtin(name: &str) -> TokenInner {
    TokenInner::Builtin(name.as_bytes().to_vec())
}

const LED_PROGRAM: &[u8] = br#"
; vim: filetype=asm
; 
; simple example of blinking an io mapped led, either single or 8bit addressed
; via 1 byte led array. 
;
; Assemble via: cargo run -p t8asm examples/led.t8
; Emulate via: cargo run -p t8emu examples/led.t8b

.const led 0xF
.const off 0
.const on 1

; simple on/off LED
    LOADI #off
    ST [led]
    LOADI #on
    ST [led]

; 8 leds mapped at 'led'
    LOADI #0xD  ; 0b00001101
    ST [led]    ; LEDs 0,2,3 on
"#;

fn led_tokens() -> Vec<TokenInner> {
    vec![
        builtin("const"),
        ident("led"),
        TokenInner::Number(0xF),
        builtin("const"),
        ident("off"),
        TokenInner::Number(0),
        builtin("const"),
        ident("on"),
        TokenInner::Number(1),
        ident("LOADI"),
        TokenInner::Hash,
        ident("off"),
        ident("ST"),
        TokenInner::LeftBraket,
        ident("led"),
        TokenInner::RightBraket,
        ident("LOADI"),
        TokenInner::Hash,
        ident("on"),
        ident("ST"),
        TokenInner::LeftBraket,
        ident("led"),
        TokenInner::RightBraket,
        ident("LOADI"),
        TokenInner::Hash,
        TokenInner::Number(0xD),
        ident("ST"),
        TokenInner::LeftBraket,
        ident("led"),
        TokenInner::RightBraket,
    ]
}

#[test]
fn test_lexer_sequence() {
    let mut lexer = Lexer::new(LED_PROGRAM);
    let tokens = lexer.lex().expect("Lexer failed");

    let expected = led_tokens();

    assert_eq!(tokens.len(), expected.len(), "Token count mismatch {:?}", tokens);

    for (i, (got, exp)) in tokens.iter().zip(expected.iter()).enumerate() {
        assert_eq!(
            got.inner, *exp,
            "Mismatch at token {}: got {:?}, expected {:?}",
            i, got, exp
        );
    }
}

#[test]
fn lexer_test_lexer_sequence() {
    let mut lexer = Lexer::new(LED_PROGRAM);
    let tokens = lexer.lex().expect("Lexer failed");

    let expected = led_tokens();

    assert_eq!(tokens.len(), expected.len(), "Token count mismatch {:?}", tokens);

    for (i, (got, exp)) in tokens.iter().zip(expected.iter()).enumerate() {
        assert_eq!(
            got.inner, *exp,
            "Mismatch at token {}: got {:?}, expected {:?}",
            i, got, exp
        );
    }
}

#[test]
fn tokenizing_twice_gives_the_same_tokens_and_places() {
    let first = Lexer::new(LED_PROGRAM).lex();
    let second = Lexer::new(LED_PROGRAM).lex();
    assert_eq!(first, second);
    assert_eq!(lex("LOADI @"), lex("LOADI @"));
}

#[test]
fn a_finished_lexer_has_nothing_left() {
    let mut lexer = Lexer::new(b"ST [5]");
    assert_eq!(lexer.lex().unwrap().len(), 4);
    assert_eq!(lexer.lex(), Ok(vec![]));
}

#[test]
fn tokens_carry_the_place_where_they_were_emitted() {
    let tokens = lex("LOADI #foo\n.const x 12").unwrap();
    assert_eq!(
        tokens,
        vec![
            Token { line: 0, col: 5, inner: ident("LOADI") },
            Token { line: 0, col: 6, inner: TokenInner::Hash },
            Token { line: 0, col: 10, inner: ident("foo") },
            Token { line: 1, col: 6, inner: builtin("const") },
            Token { line: 1, col: 8, inner: ident("x") },
            Token { line: 1, col: 11, inner: TokenInner::Number(12) },
        ]
    );
    let brackets = lex("\r\n [3]").unwrap();
    assert_eq!(
        brackets,
        vec![
            Token { line: 2, col: 1, inner: TokenInner::LeftBraket },
            Token { line: 2, col: 3, inner: TokenInner::Number(3) },
            Token { line: 2, col: 3, inner: TokenInner::RightBraket },
        ]
    );
}

#[test]
fn empty_and_blank_sources_have_no_tokens() {
    assert_eq!(lex(""), Ok(vec![]));
    assert_eq!(lex("  \n\r\n   "), Ok(vec![]));
    assert_eq!(lex("; only a comment"), Ok(vec![]));
    assert_eq!(kinds("; comment\nHALT ; trailing"), vec![ident("HALT")]);
}

#[test]
fn identifiers_are_runs_of_letters_only() {
    assert_eq!(kinds("abc9"), vec![ident("abc"), TokenInner::Number(9)]);
    assert_eq!(kinds("LOADI#x"), vec![ident("LOADI"), TokenInner::Hash, ident("x")]);
    assert_eq!(kinds("aZ"), vec![ident("aZ")]);
    let e = lex("a_b").unwrap_err();
    assert_eq!((e.line, e.col), (0, 1));
    assert_eq!(e.msg, "Unknown character `_`");
}

#[test]
fn numbers_in_both_bases() {
    assert_eq!(kinds("0"), vec![TokenInner::Number(0)]);
    assert_eq!(kinds("255"), vec![TokenInner::Number(255)]);
    assert_eq!(kinds("007"), vec![TokenInner::Number(7)]);
    assert_eq!(kinds("0xFF"), vec![TokenInner::Number(255)]);
    assert_eq!(kinds("0x0A"), vec![TokenInner::Number(10)]);
    assert_eq!(kinds("0x000010"), vec![TokenInner::Number(16)]);
    assert_eq!(kinds("12 0xC"), vec![TokenInner::Number(12), TokenInner::Number(12)]);
}

#[test]
fn numbers_without_a_value_fail_with_their_text() {
    let e = lex("256").unwrap_err();
    assert_eq!((e.line, e.col), (0, 3));
    assert_eq!(e.msg, "number too large to fit in target type: `256`");

    let e = lex("\n  0x100").unwrap_err();
    assert_eq!((e.line, e.col), (1, 7));
    assert_eq!(e.msg, "number too large to fit in target type: `0x100`");

    let e = lex("12AB").unwrap_err();
    assert_eq!(e.msg, "invalid digit found in string: `12AB`");

    let e = lex("1x5").unwrap_err();
    assert_eq!(e.msg, "invalid digit found in string: `1x5`");

    let e = lex("0x1x").unwrap_err();
    assert_eq!(e.msg, "invalid digit found in string: `0x1x`");

    let e = lex("0x").unwrap_err();
    assert_eq!(e.msg, "cannot parse integer from empty string: `0x`");

    let e = lex("0xf").unwrap_err();
    assert_eq!((e.line, e.col), (0, 2));
    assert_eq!(e.msg, "cannot parse integer from empty string: `0x`");
}

#[test]
fn parse_number_reads_from_the_left() {
    assert_eq!(parse_number(b"42"), Ok(42));
    assert_eq!(parse_number(b"0x2A"), Ok(42));
    assert_eq!(parse_number(b"0x2a"), Ok(42));
    assert_eq!(parse_number(b"255"), Ok(255));
    assert_eq!(parse_number(b"256"), Err(NumberFault::TooLarge));
    assert_eq!(parse_number(b"999x"), Err(NumberFault::TooLarge));
    assert_eq!(parse_number(b"9x99"), Err(NumberFault::InvalidDigit));
    assert_eq!(parse_number(b""), Err(NumberFault::Empty));
    assert_eq!(parse_number(b"0x"), Err(NumberFault::Empty));
    assert_eq!(parse_number(b"0"), Ok(0));
    assert_eq!(parse_number(b"F"), Err(NumberFault::InvalidDigit));
}

#[test]
fn a_dot_needs_a_name() {
    let e = lex(". const").unwrap_err();
    assert_eq!((e.line, e.col), (0, 1));
    assert_eq!(e.msg, "A '.' requires a following builtin name");
    let e = lex("HALT\n.").unwrap_err();
    assert_eq!((e.line, e.col), (1, 1));
    assert_eq!(e.msg, "A '.' requires a following builtin name");
    assert_eq!(kinds(".x1"), vec![builtin("x"), TokenInner::Number(1)]);
}

#[test]
fn the_first_illegal_byte_stops_the_tokenizer() {
    let e = lex("LOADI #1\n\tHALT @").unwrap_err();
    assert_eq!((e.line, e.col), (1, 0));
    assert_eq!(e.msg, "Unknown character `\t`");
    let e = lex("ST (").unwrap_err();
    assert_eq!((e.line, e.col), (0, 3));
    assert_eq!(e.msg, "Unknown character `(`");
}
