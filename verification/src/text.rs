//! Bytes of source text as owned strings.

use vstd::prelude::*;
use vstd::string::*;

verus! {

/// The characters that a run of source bytes stands for, one per byte.
pub open spec fn text_of_bytes(bytes: Seq<u8>) -> Seq<char> {
    Seq::new(bytes.len(), |i: int| bytes[i] as char)
}

/// `String::push` of the standard library: the string afterwards is the
/// string before with `c` appended as its last character.
#[verifier::external_body]
fn push_char(s: &mut String, c: char)
    ensures
        final(s)@ == old(s)@.push(c),
{
    s.push(c);
}

/// What `Debug` of the standard library shows of a string: the string
/// between double quotes, with its quotes, backslashes and control
/// characters escaped.
pub uninterp spec fn debug_text(s: Seq<char>) -> Seq<char>;

/// `Debug` of the standard library on `str`, called through `format!` with
/// `{:?}`. Nothing is proved of it: the contract gives its result the name
/// `debug_text`, which claims that the result depends on the characters of
/// the string alone.
#[verifier::external_body]
pub(crate) fn debug_of(s: &str) -> (r: String)
    ensures
        r@ == debug_text(s@),
{
    format!("{:?}", s)
}

/// An owned string with one character per byte of `bytes`.
pub fn text_of(bytes: &[u8]) -> (r: String)
    ensures
        r@ == text_of_bytes(bytes@),
{
    let mut out = String::new();
    let mut i: usize = 0;
    while i < bytes.len()
        invariant
            i <= bytes.len(),
            out@ == text_of_bytes(bytes@.take(i as int)),
        decreases bytes.len() - i,
    {
        push_char(&mut out, bytes[i] as char);
        i += 1;
        assert(out@ =~= text_of_bytes(bytes@.take(i as int)));
    }
    assert(bytes@.take(i as int) =~= bytes@);
    out
}

/// Whether two strings hold the same characters.
pub fn same_text(a: &str, b: &str) -> (r: bool)
    ensures
        r == (a@ == b@),
{
    let x = String::from_str(a);
    let y = String::from_str(b);
    x == y
}

/// An owned copy of the bytes of `src` from `start` up to `end`.
pub fn copy_range(src: &[u8], start: usize, end: usize) -> (r: Vec<u8>)
    requires
        start <= end <= src.len(),
    ensures
        r@ == src@.subrange(start as int, end as int),
{
    let mut out: Vec<u8> = Vec::new();
    let mut i: usize = start;
    while i < end
        invariant
            start <= i <= end <= src.len(),
            out@ == src@.subrange(start as int, i as int),
        decreases end - i,
    {
        out.push(src[i]);
        i += 1;
        assert(out@ =~= src@.subrange(start as int, i as int));
    }
    out
}

/// The character of one digit: `0` to `9`, then letters from `a` or `A`.
pub open spec fn digit_char(d: int, upper: bool) -> char {
    if d < 10 {
        ((48 + d) as u8) as char
    } else if upper {
        ((55 + d) as u8) as char
    } else {
        ((87 + d) as u8) as char
    }
}

/// The digits of `n` in base `radix`, most significant first.
pub open spec fn numeral(n: nat, radix: nat, upper: bool) -> Seq<char>
    decreases n,
    via numeral_decreases
{
    if n < radix || radix < 2 {
        seq![digit_char(n as int, upper)]
    } else {
        numeral(n / radix, radix, upper).push(digit_char((n % radix) as int, upper))
    }
}

#[via_fn]
proof fn numeral_decreases(n: nat, radix: nat, upper: bool) {
    if n >= radix && radix >= 2 {
        assert(n / radix < n) by (nonlinear_arith)
            requires
                n >= radix,
                radix >= 2,
        ;
    }
}

/// `count` copies of `c`.
pub open spec fn repeated(c: char, count: int) -> Seq<char> {
    Seq::new(
        if count > 0 {
            count as nat
        } else {
            0
        },
        |i: int| c,
    )
}

/// `text` with zeros in front of it up to `width` characters.
pub open spec fn zero_padded(text: Seq<char>, width: int) -> Seq<char> {
    repeated('0', width - text.len()) + text
}

/// Appends `count` copies of `c`.
pub fn push_repeated(out: &mut String, c: char, count: usize)
    ensures
        final(out)@ == old(out)@ + repeated(c, count as int),
{
    let mut i: usize = 0;
    assert(out@ =~= old(out)@ + repeated(c, 0));
    while i < count
        invariant
            i <= count,
            out@ == old(out)@ + repeated(c, i as int),
        decreases count - i,
    {
        push_char(out, c);
        i += 1;
        assert(out@ =~= old(out)@ + repeated(c, i as int));
    }
}

fn digit_of(d: usize, upper: bool) -> (r: char)
    requires
        d < 16,
    ensures
        r == digit_char(d as int, upper),
{
    let b: u8 = d as u8;
    if b < 10 {
        (48 + b) as char
    } else if upper {
        (55 + b) as char
    } else {
        (87 + b) as char
    }
}

/// Appends the digits of `n` in base `radix`.
pub fn push_numeral(out: &mut String, n: usize, radix: usize, upper: bool)
    requires
        2 <= radix <= 16,
    ensures
        final(out)@ == old(out)@ + numeral(n as nat, radix as nat, upper),
    decreases n,
{
    if n < radix {
        push_char(out, digit_of(n, upper));
        assert(out@ =~= old(out)@ + numeral(n as nat, radix as nat, upper));
    } else {
        assert(n / radix < n) by (nonlinear_arith)
            requires
                n >= radix,
                radix >= 2,
        ;
        push_numeral(out, n / radix, radix, upper);
        push_char(out, digit_of(n % radix, upper));
        assert(out@ =~= old(out)@ + numeral(n as nat, radix as nat, upper));
    }
}

/// Appends the digits of `n` in base `radix`, with zeros in front of them
/// up to `width` characters.
pub fn push_padded(out: &mut String, n: usize, radix: usize, upper: bool, width: usize)
    requires
        2 <= radix <= 16,
    ensures
        final(out)@ == old(out)@ + zero_padded(numeral(n as nat, radix as nat, upper), width as int),
{
    let mut digits = String::new();
    push_numeral(&mut digits, n, radix, upper);
    assert(digits@ =~= numeral(n as nat, radix as nat, upper));
    let len: usize = digits.as_str().unicode_len();
    if len < width {
        push_repeated(out, '0', width - len);
    } else {
        assert(repeated('0', width - len) =~= Seq::<char>::empty());
    }
    out.append(digits.as_str());
    assert(out@ =~= old(out)@ + zero_padded(
        numeral(n as nat, radix as nat, upper),
        width as int,
    ));
}

} // verus!
