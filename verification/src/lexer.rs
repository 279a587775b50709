//! The tokenizer: one pass over the source bytes, left to right, that
//! stops at the first byte it cannot place.

use vstd::prelude::*;
use vstd::string::*;
use crate::err::{Diagnostic, T8Err};
use crate::results::{after, emit, lemma_after_emit, lemma_after_nothing};
use crate::text::{copy_range, text_of, text_of_bytes};

verus! {

/// The ASCII codes of the bytes that the tokenizer tells apart.
pub const LINE_FEED: u8 = 10;

pub const CARRIAGE_RETURN: u8 = 13;

pub const SPACE: u8 = 32;

pub const HASH: u8 = 35;

pub const DOT: u8 = 46;

pub const DIGIT_0: u8 = 48;

pub const DIGIT_9: u8 = 57;

pub const SEMICOLON: u8 = 59;

pub const UPPER_A: u8 = 65;

pub const UPPER_F: u8 = 70;

pub const UPPER_Z: u8 = 90;

pub const LEFT_BRACKET: u8 = 91;

pub const RIGHT_BRACKET: u8 = 93;

pub const LOWER_A: u8 = 97;

pub const LOWER_F: u8 = 102;

pub const LOWER_X: u8 = 120;

pub const LOWER_Z: u8 = 122;

#[derive(PartialEq, Eq, Clone, Debug)]
pub enum TokenInner {
    Ident(Vec<u8>),
    Builtin(Vec<u8>),
    Hash,
    LeftBraket,
    RightBraket,
    Number(u8),
}

/// A token with the place at which the tokenizer stood when it emitted it:
/// before a one-byte token, behind the last byte of a longer one.
#[derive(PartialEq, Eq, Clone, Debug)]
pub struct Token {
    pub line: usize,
    pub col: usize,
    pub inner: TokenInner,
}

pub ghost enum TokenKind {
    Ident(Seq<u8>),
    Builtin(Seq<u8>),
    Hash,
    LeftBraket,
    RightBraket,
    Number(u8),
}

pub ghost struct TokenView {
    pub line: int,
    pub col: int,
    pub inner: TokenKind,
}

impl View for TokenInner {
    type V = TokenKind;

    open spec fn view(&self) -> TokenKind {
        match self {
            TokenInner::Ident(name) => TokenKind::Ident(name@),
            TokenInner::Builtin(name) => TokenKind::Builtin(name@),
            TokenInner::Hash => TokenKind::Hash,
            TokenInner::LeftBraket => TokenKind::LeftBraket,
            TokenInner::RightBraket => TokenKind::RightBraket,
            TokenInner::Number(n) => TokenKind::Number(*n),
        }
    }
}

impl View for Token {
    type V = TokenView;

    open spec fn view(&self) -> TokenView {
        TokenView { line: self.line as int, col: self.col as int, inner: self.inner@ }
    }
}

/// The views of a sequence of tokens, in order.
pub open spec fn token_views(toks: Seq<Token>) -> Seq<TokenView> {
    toks.map_values(|t: Token| t@)
}

/// The classes of bytes that form runs in the source.
#[derive(Clone, Copy, PartialEq, Eq, Structural, Debug)]
pub enum ByteClass {
    /// ASCII letters.
    Alphabetic,
    /// What a number may go on with: digits, `A` to `F`, and `x`.
    NumberBody,
    /// Everything but a line feed.
    CommentBody,
}

pub open spec fn is_alphabetic(b: u8) -> bool {
    (LOWER_A <= b && b <= LOWER_Z) || (UPPER_A <= b && b <= UPPER_Z)
}

pub open spec fn is_digit(b: u8) -> bool {
    DIGIT_0 <= b && b <= DIGIT_9
}

impl ByteClass {
    pub open spec fn admits(self, b: u8) -> bool {
        match self {
            ByteClass::Alphabetic => is_alphabetic(b),
            ByteClass::NumberBody => is_digit(b) || (UPPER_A <= b && b <= UPPER_F) || b == LOWER_X,
            ByteClass::CommentBody => b != LINE_FEED,
        }
    }

    fn holds(self, b: u8) -> (r: bool)
        ensures
            r == self.admits(b),
    {
        match self {
            ByteClass::Alphabetic => (LOWER_A <= b && b <= LOWER_Z) || (UPPER_A <= b && b <= UPPER_Z),
            ByteClass::NumberBody => (DIGIT_0 <= b && b <= DIGIT_9) || (UPPER_A <= b && b <= UPPER_F) || b
                == LOWER_X,
            ByteClass::CommentBody => b != LINE_FEED,
        }
    }
}

/// How many bytes from `pos` on belong to `class` without a break.
pub open spec fn run_len(src: Seq<u8>, pos: int, class: ByteClass) -> nat
    decreases src.len() - pos,
{
    if 0 <= pos < src.len() && class.admits(src[pos]) {
        1 + run_len(src, pos + 1, class)
    } else {
        0
    }
}

/// Why a number's text has no value.
#[derive(Clone, Copy, PartialEq, Eq, Structural, Debug)]
pub enum NumberFault {
    Empty,
    InvalidDigit,
    TooLarge,
}

/// The value of one digit in base 10 or 16.
pub open spec fn digit_value(b: u8, radix: int) -> Option<int> {
    if is_digit(b) {
        Some(b - DIGIT_0)
    } else if radix == 16 && UPPER_A <= b && b <= UPPER_F {
        Some(b - UPPER_A + 10)
    } else if radix == 16 && LOWER_A <= b && b <= LOWER_F {
        Some(b - LOWER_A + 10)
    } else {
        None
    }
}

/// The value of a run of digits, read from the left; the first digit that
/// is no digit of the base, or that takes the value past 255, decides the
/// fault.
pub open spec fn digits_value(text: Seq<u8>, radix: int) -> Result<int, NumberFault>
    decreases text.len(),
{
    if text.len() == 0 {
        Ok(0)
    } else {
        match digits_value(text.drop_last(), radix) {
            Err(f) => Err(f),
            Ok(v) => match digit_value(text.last(), radix) {
                None => Err(NumberFault::InvalidDigit),
                Some(d) => if v * radix + d > 255 {
                    Err(NumberFault::TooLarge)
                } else {
                    Ok(v * radix + d)
                },
            },
        }
    }
}

/// Whether a number's text begins with `0x`.
pub open spec fn has_hex_prefix(text: Seq<u8>) -> bool {
    text.len() >= 2 && text[0] == DIGIT_0 && text[1] == LOWER_X
}

/// The value of a number's text: base 16 behind a `0x` prefix, else base 10.
pub open spec fn number_value(text: Seq<u8>) -> Result<u8, NumberFault> {
    let digits = if has_hex_prefix(text) {
        text.subrange(2, text.len() as int)
    } else {
        text
    };
    let radix: int = if has_hex_prefix(text) {
        16
    } else {
        10
    };
    if digits.len() == 0 {
        Err(NumberFault::Empty)
    } else {
        match digits_value(digits, radix) {
            Ok(v) => Ok(v as u8),
            Err(f) => Err(f),
        }
    }
}

pub open spec fn number_fault_text(fault: NumberFault) -> Seq<char> {
    match fault {
        NumberFault::Empty => "cannot parse integer from empty string"@,
        NumberFault::InvalidDigit => "invalid digit found in string"@,
        NumberFault::TooLarge => "number too large to fit in target type"@,
    }
}

/// The message for a number without a value: the reason, then the text.
pub open spec fn number_msg(fault: NumberFault, text: Seq<u8>) -> Seq<char> {
    number_fault_text(fault) + ": `"@ + text_of_bytes(text) + "`"@
}

pub open spec fn unknown_character_msg(b: u8) -> Seq<char> {
    "Unknown character `"@ + seq![b as char] + "`"@
}

pub open spec fn missing_builtin_name_msg() -> Seq<char> {
    "A '.' requires a following builtin name"@
}

/// What tokenizing gives from byte `pos` on, for a tokenizer that stands
/// there at `line` and `col`: the tokens to the end of the source, or the
/// first failure.
pub open spec fn lex_from(src: Seq<u8>, pos: int, line: int, col: int) -> Result<
    Seq<TokenView>,
    Diagnostic,
>
    decreases
            (if pos < src.len() {
                src.len() - pos
            } else {
                0
            }),
{
    if pos < 0 || pos >= src.len() {
        Ok(Seq::empty())
    } else {
        let c = src[pos];
        if c == SEMICOLON {
            let n = 1 + run_len(src, pos + 1, ByteClass::CommentBody);
            lex_from(src, pos + n, line, col + n)
        } else if c == LINE_FEED || c == CARRIAGE_RETURN {
            lex_from(src, pos + 1, line + 1, 0)
        } else if c == SPACE {
            lex_from(src, pos + 1, line, col + 1)
        } else if c == DOT {
            let n = run_len(src, pos + 1, ByteClass::Alphabetic);
            if n == 0 {
                Err(Diagnostic { line, col: col + 1, msg: missing_builtin_name_msg() })
            } else {
                emit(
                    TokenView {
                        line,
                        col: col + 1 + n,
                        inner: TokenKind::Builtin(src.subrange(pos + 1, pos + 1 + n)),
                    },
                    lex_from(src, pos + 1 + n, line, col + 1 + n),
                )
            }
        } else if c == HASH {
            emit(
                TokenView { line, col, inner: TokenKind::Hash },
                lex_from(src, pos + 1, line, col + 1),
            )
        } else if c == LEFT_BRACKET {
            emit(
                TokenView { line, col, inner: TokenKind::LeftBraket },
                lex_from(src, pos + 1, line, col + 1),
            )
        } else if c == RIGHT_BRACKET {
            emit(
                TokenView { line, col, inner: TokenKind::RightBraket },
                lex_from(src, pos + 1, line, col + 1),
            )
        } else if is_digit(c) {
            let n = 1 + run_len(src, pos + 1, ByteClass::NumberBody);
            let text = src.subrange(pos, pos + n);
            match number_value(text) {
                Ok(v) => emit(
                    TokenView { line, col: col + n, inner: TokenKind::Number(v) },
                    lex_from(src, pos + n, line, col + n),
                ),
                Err(fault) => Err(Diagnostic { line, col: col + n, msg: number_msg(fault, text) }),
            }
        } else if is_alphabetic(c) {
            let n = 1 + run_len(src, pos + 1, ByteClass::Alphabetic);
            emit(
                TokenView {
                    line,
                    col: col + n,
                    inner: TokenKind::Ident(src.subrange(pos, pos + n)),
                },
                lex_from(src, pos + n, line, col + n),
            )
        } else {
            Err(Diagnostic { line, col, msg: unknown_character_msg(c) })
        }
    }
}

/// The tokens of a whole source, or its first failure.
pub open spec fn spec_lex(src: Seq<u8>) -> Result<Seq<TokenView>, Diagnostic> {
    lex_from(src, 0, 0, 0)
}

impl TokenView {
    /// A name is never empty and holds letters only.
    pub open spec fn well_formed(self) -> bool {
        match self.inner {
            TokenKind::Ident(name) => name.len() > 0 && forall|i: int|
                0 <= i < name.len() ==> is_alphabetic(#[trigger] name[i]),
            TokenKind::Builtin(name) => name.len() > 0 && forall|i: int|
                0 <= i < name.len() ==> is_alphabetic(#[trigger] name[i]),
            _ => true,
        }
    }
}

/// A run ends inside the source, and every byte of it is of its class.
pub proof fn lemma_run(src: Seq<u8>, pos: int, class: ByteClass)
    requires
        0 <= pos <= src.len(),
    ensures
        pos + run_len(src, pos, class) <= src.len(),
        forall|i: int| pos <= i < pos + run_len(src, pos, class) ==> class.admits(#[trigger] src[i]),
    decreases src.len() - pos,
{
    if pos < src.len() && class.admits(src[pos]) {
        lemma_run(src, pos + 1, class);
    }
}

/// Every name among the tokens of a source is a run of letters, at least
/// one letter long.
pub proof fn lemma_lexed_names(src: Seq<u8>, pos: int, line: int, col: int)
    requires
        0 <= pos,
        lex_from(src, pos, line, col) is Ok,
    ensures
        forall|i: int|
            0 <= i < lex_from(src, pos, line, col)->Ok_0.len() ==> (#[trigger] lex_from(
                src,
                pos,
                line,
                col,
            )->Ok_0[i]).well_formed(),
    decreases src.len() - pos,
{
    if pos < src.len() {
        let c = src[pos];
        lemma_run(src, pos + 1, ByteClass::CommentBody);
        lemma_run(src, pos + 1, ByteClass::Alphabetic);
        lemma_run(src, pos + 1, ByteClass::NumberBody);
        if c == SEMICOLON {
            let n = 1 + run_len(src, pos + 1, ByteClass::CommentBody);
            lemma_lexed_names(src, pos + n, line, col + n);
        } else if c == LINE_FEED || c == CARRIAGE_RETURN {
            lemma_lexed_names(src, pos + 1, line + 1, 0);
        } else if c == SPACE {
            lemma_lexed_names(src, pos + 1, line, col + 1);
        } else if c == DOT {
            let n = run_len(src, pos + 1, ByteClass::Alphabetic);
            lemma_lexed_names(src, pos + 1 + n, line, col + 1 + n);
        } else if c == HASH || c == LEFT_BRACKET || c == RIGHT_BRACKET {
            lemma_lexed_names(src, pos + 1, line, col + 1);
        } else if is_digit(c) {
            let n = 1 + run_len(src, pos + 1, ByteClass::NumberBody);
            lemma_lexed_names(src, pos + n, line, col + n);
        } else if is_alphabetic(c) {
            let n = 1 + run_len(src, pos + 1, ByteClass::Alphabetic);
            lemma_lexed_names(src, pos + n, line, col + n);
        }
    }
}

/// Tokens come in source order: none lies on a line before the one that
/// the tokenizer started on, and none on a line before that of a token in
/// front of it.
pub proof fn lemma_lexed_lines_ascend(src: Seq<u8>, pos: int, line: int, col: int)
    requires
        0 <= pos,
        lex_from(src, pos, line, col) is Ok,
    ensures
        forall|i: int|
            0 <= i < lex_from(src, pos, line, col)->Ok_0.len() ==> line <= (#[trigger] lex_from(
                src,
                pos,
                line,
                col,
            )->Ok_0[i]).line,
        forall|i: int, j: int|
            0 <= i <= j < lex_from(src, pos, line, col)->Ok_0.len() ==> lex_from(
                src,
                pos,
                line,
                col,
            )->Ok_0[i].line <= lex_from(src, pos, line, col)->Ok_0[j].line,
    decreases src.len() - pos,
{
    if pos < src.len() {
        let c = src[pos];
        lemma_run(src, pos + 1, ByteClass::CommentBody);
        lemma_run(src, pos + 1, ByteClass::Alphabetic);
        lemma_run(src, pos + 1, ByteClass::NumberBody);
        if c == SEMICOLON {
            let n = 1 + run_len(src, pos + 1, ByteClass::CommentBody);
            lemma_lexed_lines_ascend(src, pos + n, line, col + n);
        } else if c == LINE_FEED || c == CARRIAGE_RETURN {
            lemma_lexed_lines_ascend(src, pos + 1, line + 1, 0);
        } else if c == SPACE {
            lemma_lexed_lines_ascend(src, pos + 1, line, col + 1);
        } else if c == DOT {
            let n = run_len(src, pos + 1, ByteClass::Alphabetic);
            lemma_lexed_lines_ascend(src, pos + 1 + n, line, col + 1 + n);
        } else if c == HASH || c == LEFT_BRACKET || c == RIGHT_BRACKET {
            lemma_lexed_lines_ascend(src, pos + 1, line, col + 1);
        } else if is_digit(c) {
            let n = 1 + run_len(src, pos + 1, ByteClass::NumberBody);
            lemma_lexed_lines_ascend(src, pos + n, line, col + n);
        } else if is_alphabetic(c) {
            let n = 1 + run_len(src, pos + 1, ByteClass::Alphabetic);
            lemma_lexed_lines_ascend(src, pos + n, line, col + n);
        }
    }
}

/// Whether `r` is what tokenizing `src` from its first byte gives.
pub open spec fn lexes_to(src: Seq<u8>, r: Result<Vec<Token>, T8Err>) -> bool {
    match spec_lex(src) {
        Ok(toks) => r is Ok && token_views(r->Ok_0@) == toks,
        Err(d) => r is Err && r->Err_0@ == d,
    }
}

/// Tokenizing is a function of the source: two results of tokenizing the
/// same bytes hold the same tokens at the same places, or the same failure.
pub proof fn lemma_lex_deterministic(
    src: Seq<u8>,
    first: Result<Vec<Token>, T8Err>,
    second: Result<Vec<Token>, T8Err>,
)
    requires
        lexes_to(src, first),
        lexes_to(src, second),
    ensures
        first is Ok <==> second is Ok,
        first is Ok ==> token_views(first->Ok_0@) == token_views(second->Ok_0@),
        first is Err ==> first->Err_0@ == second->Err_0@,
{
}

/// A fault among the first `n` digits is the fault of the whole text.
proof fn lemma_fault_persists(text: Seq<u8>, n: int, radix: int)
    requires
        0 <= n <= text.len(),
        digits_value(text.take(n), radix) is Err,
    ensures
        digits_value(text, radix) == digits_value(text.take(n), radix),
    decreases text.len(),
{
    if n == text.len() {
        assert(text.take(n) =~= text);
    } else {
        assert(text.drop_last().take(n) =~= text.take(n));
        lemma_fault_persists(text.drop_last(), n, radix);
    }
}

fn digit_of(b: u8, radix: u32) -> (r: Option<u32>)
    ensures
        match digit_value(b, radix as int) {
            Some(d) => r == Some(d as u32) && d < 16,
            None => r is None,
        },
{
    if DIGIT_0 <= b && b <= DIGIT_9 {
        Some((b - DIGIT_0) as u32)
    } else if radix == 16 && UPPER_A <= b && b <= UPPER_F {
        Some((b - UPPER_A) as u32 + 10)
    } else if radix == 16 && LOWER_A <= b && b <= LOWER_F {
        Some((b - LOWER_A) as u32 + 10)
    } else {
        None
    }
}

/// Reads the text of a number: base 16 behind a `0x` prefix, else base 10.
pub fn parse_number(text: &[u8]) -> (r: Result<u8, NumberFault>)
    ensures
        r == number_value(text@),
{
    let hex = text.len() >= 2 && text[0] == DIGIT_0 && text[1] == LOWER_X;
    let start: usize = if hex {
        2
    } else {
        0
    };
    let radix: u32 = if hex {
        16
    } else {
        10
    };
    if start == text.len() {
        return Err(NumberFault::Empty);
    }
    let ghost digits = text@.subrange(start as int, text.len() as int);
    let mut acc: u32 = 0;
    let mut i: usize = start;
    assert(digits.take(0) =~= Seq::<u8>::empty());
    assert(!hex ==> digits =~= text@);
    while i < text.len()
        invariant
            start <= i <= text.len(),
            digits == text@.subrange(start as int, text.len() as int),
            hex == has_hex_prefix(text@),
            hex ==> start == 2 && radix == 16,
            !hex ==> start == 0 && radix == 10 && digits == text@,
            digits.len() > 0,
            acc <= 255,
            digits_value(digits.take(i - start), radix as int) == Ok::<int, NumberFault>(
                acc as int,
            ),
        decreases text.len() - i,
    {
        let ghost next = digits.take(i - start + 1);
        proof {
            assert(next.drop_last() =~= digits.take(i - start));
        }
        match digit_of(text[i], radix) {
            None => {
                proof {
                    lemma_fault_persists(digits, i - start + 1, radix as int);
                }
                return Err(NumberFault::InvalidDigit);
            },
            Some(d) => {
                let v: u32 = acc * radix + d;
                if v > 255 {
                    proof {
                        lemma_fault_persists(digits, i - start + 1, radix as int);
                    }
                    return Err(NumberFault::TooLarge);
                }
                acc = v;
            },
        }
        i += 1;
    }
    assert(digits.take(i - start) =~= digits);
    Ok(acc as u8)
}

fn number_fault_str(fault: NumberFault) -> (r: &'static str)
    ensures
        r@ == number_fault_text(fault),
{
    match fault {
        NumberFault::Empty => "cannot parse integer from empty string",
        NumberFault::InvalidDigit => "invalid digit found in string",
        NumberFault::TooLarge => "number too large to fit in target type",
    }
}

proof fn lemma_views_push(toks: Seq<Token>, t: Token)
    ensures
        token_views(toks.push(t)) == token_views(toks).push(t@),
{
    assert(token_views(toks.push(t)) =~= token_views(toks).push(t@));
}

pub struct Lexer<'lex> {
    src: &'lex [u8],
    pos: usize,
    line: usize,
    col: usize,
}

impl<'lex> Lexer<'lex> {
    /// The bytes that the tokenizer reads.
    pub closed spec fn source(&self) -> Seq<u8> {
        self.src@
    }

    /// The index of the next byte to read.
    pub closed spec fn position(&self) -> int {
        self.pos as int
    }

    pub closed spec fn at_line(&self) -> int {
        self.line as int
    }

    pub closed spec fn at_col(&self) -> int {
        self.col as int
    }

    /// The tokenizer stands inside its source, and has counted no more
    /// lines or columns than bytes read.
    pub closed spec fn inv(&self) -> bool {
        &&& self.pos <= self.src@.len() <= usize::MAX
        &&& self.line <= self.pos
        &&& self.col <= self.pos
    }

    pub fn new(src: &'lex [u8]) -> (r: Lexer<'lex>)
        ensures
            r.inv(),
            r.source() == src@,
            r.position() == 0,
            r.at_line() == 0,
            r.at_col() == 0,
    {
        let _len: usize = src.len();
        Lexer { src, line: 0, pos: 0, col: 0 }
    }

    fn tok(&self, inner: TokenInner) -> (r: Token)
        ensures
            r.line == self.line,
            r.col == self.col,
            r.inner == inner,
    {
        Token { line: self.line, col: self.col, inner }
    }

    fn err(&self, msg: String) -> (r: T8Err)
        ensures
            r@ == (Diagnostic { line: self.line as int, col: self.col as int, msg: msg@ }),
    {
        T8Err { line: self.line, col: self.col, msg }
    }

    fn end(&self) -> (r: bool)
        ensures
            r == (self.pos >= self.src@.len()),
    {
        self.pos >= self.src.len()
    }

    fn cur(&self) -> (r: u8)
        requires
            self.pos < self.src@.len(),
        ensures
            r == self.src@[self.pos as int],
    {
        self.src[self.pos]
    }

    fn advance(&mut self)
        requires
            old(self).inv(),
            old(self).pos < old(self).src@.len(),
        ensures
            final(self).inv(),
            final(self).src == old(self).src,
            final(self).pos == old(self).pos + 1,
            final(self).col == old(self).col + 1,
            final(self).line == old(self).line,
    {
        self.pos += 1;
        self.col += 1
    }

    /// Steps over the bytes of `class` that stand at the tokenizer's place.
    fn advance_run(&mut self, class: ByteClass)
        requires
            old(self).inv(),
        ensures
            final(self).inv(),
            final(self).src == old(self).src,
            final(self).pos == old(self).pos + run_len(old(self).src@, old(self).pos as int, class),
            final(self).col == old(self).col + run_len(old(self).src@, old(self).pos as int, class),
            final(self).line == old(self).line,
    {
        let ghost start = self.pos as int;
        while self.pos < self.src.len() && class.holds(self.src[self.pos])
            invariant
                self.inv(),
                self.src == old(self).src,
                self.line == old(self).line,
                start == old(self).pos,
                start <= self.pos,
                self.col - old(self).col == self.pos - start,
                run_len(self.src@, start, class) == (self.pos - start) + run_len(
                    self.src@,
                    self.pos as int,
                    class,
                ),
            decreases self.src@.len() - self.pos,
        {
            self.advance();
        }
    }

    /// Reads on from the tokenizer's place until one token is complete,
    /// the source ends, or a byte cannot be placed. `None` stands for the
    /// end of the source.
    fn next_token(&mut self) -> (r: Option<Result<Token, T8Err>>)
        requires
            old(self).inv(),
        ensures
            final(self).inv(),
            final(self).src == old(self).src,
            final(self).pos >= old(self).pos,
            r is Some ==> final(self).pos > old(self).pos,
            r is None ==> final(self).pos == final(self).src@.len(),
            lex_from(
                old(self).src@,
                old(self).pos as int,
                old(self).line as int,
                old(self).col as int,
            ) == (match r {
                None => Ok(Seq::<TokenView>::empty()),
                Some(Ok(t)) => emit(
                    t@,
                    lex_from(
                        final(self).src@,
                        final(self).pos as int,
                        final(self).line as int,
                        final(self).col as int,
                    ),
                ),
                Some(Err(e)) => Err(e@),
            }),
    {
        while !self.end()
            invariant
                self.inv(),
                self.src == old(self).src,
                self.pos >= old(self).pos,
                lex_from(
                    old(self).src@,
                    old(self).pos as int,
                    old(self).line as int,
                    old(self).col as int,
                ) == lex_from(self.src@, self.pos as int, self.line as int, self.col as int),
            decreases self.src@.len() - self.pos,
        {
            let c: u8 = self.cur();
            let ghost here = lex_from(
                self.src@,
                self.pos as int,
                self.line as int,
                self.col as int,
            );
            if c == SEMICOLON {
                self.advance();
                self.advance_run(ByteClass::CommentBody);
            } else if c == LINE_FEED || c == CARRIAGE_RETURN {
                self.advance();
                self.line += 1;
                self.col = 0;
            } else if c == SPACE {
                self.advance();
            } else if c == DOT {
                return Some(self.builtin_name());
            } else if c == HASH || c == LEFT_BRACKET || c == RIGHT_BRACKET {
                let inner = if c == HASH {
                    TokenInner::Hash
                } else if c == LEFT_BRACKET {
                    TokenInner::LeftBraket
                } else {
                    TokenInner::RightBraket
                };
                let tok = self.tok(inner);
                self.advance();
                return Some(Ok(tok));
            } else if DIGIT_0 <= c && c <= DIGIT_9 {
                return Some(self.number());
            } else if (LOWER_A <= c && c <= LOWER_Z) || (UPPER_A <= c && c <= UPPER_Z) {
                let start: usize = self.pos;
                self.advance();
                self.advance_run(ByteClass::Alphabetic);
                let tok = self.tok(TokenInner::Ident(copy_range(self.src, start, self.pos)));
                return Some(Ok(tok));
            } else {
                let one = copy_range(self.src, self.pos, self.pos + 1);
                let shown = text_of(one.as_slice());
                assert(shown@ =~= seq![c as char]);
                let msg = String::from_str("Unknown character `").concat(shown.as_str()).concat(
                    "`",
                );
                let e = self.err(msg);
                self.advance();
                return Some(Err(e));
            }
        }
        None
    }

    /// Reads a `.` and the name behind it.
    fn builtin_name(&mut self) -> (r: Result<Token, T8Err>)
        requires
            old(self).inv(),
            old(self).pos < old(self).src@.len(),
            old(self).src@[old(self).pos as int] == DOT,
        ensures
            final(self).inv(),
            final(self).src == old(self).src,
            final(self).pos > old(self).pos,
            lex_from(
                old(self).src@,
                old(self).pos as int,
                old(self).line as int,
                old(self).col as int,
            ) == (match r {
                Ok(t) => emit(
                    t@,
                    lex_from(
                        final(self).src@,
                        final(self).pos as int,
                        final(self).line as int,
                        final(self).col as int,
                    ),
                ),
                Err(e) => Err(e@),
            }),
    {
        self.advance();
        let start: usize = self.pos;
        self.advance_run(ByteClass::Alphabetic);
        if self.pos == start {
            return Err(self.err(String::from_str("A '.' requires a following builtin name")));
        }
        Ok(self.tok(TokenInner::Builtin(copy_range(self.src, start, self.pos))))
    }

    /// Reads a number that begins at the tokenizer's place.
    fn number(&mut self) -> (r: Result<Token, T8Err>)
        requires
            old(self).inv(),
            old(self).pos < old(self).src@.len(),
            is_digit(old(self).src@[old(self).pos as int]),
        ensures
            final(self).inv(),
            final(self).src == old(self).src,
            final(self).pos > old(self).pos,
            lex_from(
                old(self).src@,
                old(self).pos as int,
                old(self).line as int,
                old(self).col as int,
            ) == (match r {
                Ok(t) => emit(
                    t@,
                    lex_from(
                        final(self).src@,
                        final(self).pos as int,
                        final(self).line as int,
                        final(self).col as int,
                    ),
                ),
                Err(e) => Err(e@),
            }),
    {
        let start: usize = self.pos;
        self.advance();
        self.advance_run(ByteClass::NumberBody);
        let text = copy_range(self.src, start, self.pos);
        match parse_number(text.as_slice()) {
            Ok(v) => Ok(self.tok(TokenInner::Number(v))),
            Err(fault) => {
                let shown = text_of(text.as_slice());
                let msg = String::from_str(number_fault_str(fault)).concat(": `").concat(
                    shown.as_str(),
                ).concat("`");
                Err(self.err(msg))
            },
        }
    }

    /// Tokenizes from the tokenizer's place to the end of the source. The
    /// result is the whole token sequence, or the first failure; on success
    /// the tokenizer is left at the end of its source.
    pub fn lex(&mut self) -> (r: Result<Vec<Token>, T8Err>)
        requires
            old(self).inv(),
        ensures
            final(self).inv(),
            final(self).source() == old(self).source(),
            match lex_from(
                old(self).source(),
                old(self).position(),
                old(self).at_line(),
                old(self).at_col(),
            ) {
                Ok(toks) => r is Ok && token_views(r->Ok_0@) == toks && final(self).position()
                    == final(self).source().len(),
                Err(d) => r is Err && r->Err_0@ == d,
            },
    {
        let mut toks: Vec<Token> = Vec::new();
        let ghost goal = lex_from(self.src@, self.pos as int, self.line as int, self.col as int);
        proof {
            assert(token_views(toks@) =~= Seq::<TokenView>::empty());
            lemma_after_nothing(
                lex_from(self.src@, self.pos as int, self.line as int, self.col as int),
            );
        }
        loop
            invariant
                self.inv(),
                self.src == old(self).src,
                goal == lex_from(
                    old(self).src@,
                    old(self).pos as int,
                    old(self).line as int,
                    old(self).col as int,
                ),
                goal == after(
                    token_views(toks@),
                    lex_from(self.src@, self.pos as int, self.line as int, self.col as int),
                ),
            decreases self.src@.len() - self.pos,
        {
            let ghost pre = token_views(toks@);
            match self.next_token() {
                None => {
                    proof {
                        assert(pre + Seq::<TokenView>::empty() =~= pre);
                    }
                    return Ok(toks);
                },
                Some(Err(e)) => {
                    return Err(e);
                },
                Some(Ok(tok)) => {
                    proof {
                        lemma_views_push(toks@, tok);
                        lemma_after_emit(
                            pre,
                            tok@,
                            lex_from(
                                self.src@,
                                self.pos as int,
                                self.line as int,
                                self.col as int,
                            ),
                        );
                    }
                    toks.push(tok);
                },
            }
        }
    }
}

} // verus!
