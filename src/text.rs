//! Plain-text rendering of numbers and byte runs, for names and descriptions.
use vstd::prelude::*;
use vstd::utf8::*;

verus! {

/// The characters that an ASCII byte sequence spells.
pub open spec fn ascii_text(b: Seq<u8>) -> Seq<char> {
    b.map_values(|x: u8| (x as u32) as char)
}

pub open spec fn is_ascii_bytes(b: Seq<u8>) -> bool {
    forall|i: int| 0 <= i < b.len() ==> #[trigger] b[i] < 128
}

/// The upper-case hex digit for `d < 16`.
pub open spec fn hex_digit(d: nat) -> u8 {
    if d < 10 {
        (48 + d) as u8
    } else {
        (55 + d) as u8
    }
}

/// `n` in upper-case hexadecimal, without leading zeros (`0` for zero).
pub open spec fn hex_bytes(n: nat) -> Seq<u8>
    decreases n,
{
    if n < 16 {
        seq![hex_digit(n)]
    } else {
        hex_bytes(n / 16).push(hex_digit(n % 16))
    }
}

/// `n` in decimal, without leading zeros (`0` for zero).
pub open spec fn decimal_bytes(n: nat) -> Seq<u8>
    decreases n,
{
    if n < 10 {
        seq![(48 + n) as u8]
    } else {
        decimal_bytes(n / 10).push((48 + n % 10) as u8)
    }
}

/// `b` left-padded with `0` digits to at least `width` bytes.
pub open spec fn zero_padded(b: Seq<u8>, width: nat) -> Seq<u8> {
    if b.len() >= width {
        b
    } else {
        Seq::new((width - b.len()) as nat, |i: int| 48u8) + b
    }
}

/// `n` in upper-case hexadecimal, as text.
pub open spec fn hex_text(n: nat) -> Seq<char> {
    ascii_text(hex_bytes(n))
}

/// `n` in decimal, as text.
pub open spec fn decimal_text(n: nat) -> Seq<char> {
    ascii_text(decimal_bytes(n))
}

proof fn lemma_hex_bytes_ascii(n: nat)
    ensures
        is_ascii_bytes(hex_bytes(n)),
    decreases n,
{
    if n >= 16 {
        lemma_hex_bytes_ascii(n / 16);
    }
}

proof fn lemma_decimal_bytes_ascii(n: nat)
    ensures
        is_ascii_bytes(decimal_bytes(n)),
    decreases n,
{
    if n >= 10 {
        lemma_decimal_bytes_ascii(n / 10);
    }
}

/// ASCII bytes are valid UTF-8 and decode to the characters they spell.
proof fn lemma_ascii_decodes(b: Seq<u8>)
    requires
        is_ascii_bytes(b),
    ensures
        valid_utf8(b),
        decode_utf8(b) == ascii_text(b),
{
    let c = ascii_text(b);
    assert(is_ascii_chars(c)) by {
        assert forall|i: int| 0 <= i < c.len() implies '\0' <= #[trigger] c[i] <= '\u{7f}' by {
            assert(b[i] < 128);
            assert(c[i] == (b[i] as u32) as char);
        }
    }
    is_ascii_chars_encode_utf8(c);
    assert(encode_utf8(c) =~= b) by {
        assert forall|i: int| 0 <= i < b.len() implies encode_utf8(c)[i] == b[i] by {
            assert(c[i] as u8 == encode_utf8(c)[i]);
            assert(b[i] < 128);
            assert(c[i] == (b[i] as u32) as char);
        }
    }
    encode_utf8_valid_utf8(c);
    encode_utf8_decode_utf8(c);
}

/// Relies on `String::from_utf8`: it accepts exactly the valid UTF-8 byte
/// sequences, and the string it returns holds the characters they encode.
#[verifier::external_body]
pub(crate) fn string_from_utf8(bytes: Vec<u8>) -> (r: Option<String>)
    ensures
        r is Some <==> valid_utf8(bytes@),
        r is Some ==> r->0@ == decode_utf8(bytes@),
{
    String::from_utf8(bytes).ok()
}

/// The string that ASCII bytes spell.
pub fn ascii_string(bytes: Vec<u8>) -> (r: String)
    requires
        is_ascii_bytes(bytes@),
    ensures
        r@ == ascii_text(bytes@),
{
    proof {
        lemma_ascii_decodes(bytes@);
    }
    match string_from_utf8(bytes) {
        Some(s) => s,
        None => String::new(),
    }
}

fn push_hex(n: usize, out: &mut Vec<u8>)
    ensures
        final(out)@ == old(out)@ + hex_bytes(n as nat),
    decreases n,
{
    if n >= 16 {
        push_hex(n / 16, out);
    }
    let d = (n % 16) as u8;
    if d < 10 {
        out.push(48 + d);
    } else {
        out.push(55 + d);
    }
    assert(out@ =~= old(out)@ + hex_bytes(n as nat));
}

fn push_decimal(n: u64, out: &mut Vec<u8>)
    ensures
        final(out)@ == old(out)@ + decimal_bytes(n as nat),
    decreases n,
{
    if n >= 10 {
        push_decimal(n / 10, out);
    }
    let d = (n % 10) as u8;
    out.push(48 + d);
    assert(out@ =~= old(out)@ + decimal_bytes(n as nat));
}

/// `n` in upper-case hexadecimal.
pub fn hex_string(n: usize) -> (r: String)
    ensures
        r@ == hex_text(n as nat),
{
    let mut out: Vec<u8> = Vec::new();
    push_hex(n, &mut out);
    proof {
        assert(out@ =~= hex_bytes(n as nat));
        lemma_hex_bytes_ascii(n as nat);
    }
    ascii_string(out)
}

/// `n` in upper-case hexadecimal, left-padded with zeros to `width` digits.
pub fn hex_string_padded(n: usize, width: usize) -> (r: String)
    ensures
        r@ == ascii_text(zero_padded(hex_bytes(n as nat), width as nat)),
{
    let out = hex_string_padded_bytes(n, width);
    proof {
        lemma_hex_bytes_ascii(n as nat);
        let b = zero_padded(hex_bytes(n as nat), width as nat);
        assert(is_ascii_bytes(b));
    }
    ascii_string(out)
}

/// The digits of `hex_string_padded`, as bytes.
pub(crate) fn hex_string_padded_bytes(n: usize, width: usize) -> (r: Vec<u8>)
    ensures
        r@ == zero_padded(hex_bytes(n as nat), width as nat),
{
    let mut digits: Vec<u8> = Vec::new();
    push_hex(n, &mut digits);
    assert(digits@ =~= hex_bytes(n as nat));
    let mut out: Vec<u8> = Vec::new();
    let len = digits.len();
    if len < width {
        let mut k: usize = 0;
        while k < width - len
            invariant
                len < width,
                k <= width - len,
                out@ == Seq::new(k as nat, |i: int| 48u8),
            decreases width - len - k,
        {
            out.push(48);
            k = k + 1;
            assert(out@ =~= Seq::new(k as nat, |i: int| 48u8));
        }
    }
    let mut k: usize = 0;
    let ghost pad = out@;
    while k < len
        invariant
            len == digits@.len(),
            k <= len,
            out@ == pad + digits@.subrange(0, k as int),
        decreases len - k,
    {
        out.push(digits[k]);
        k = k + 1;
        assert(out@ =~= pad + digits@.subrange(0, k as int));
    }
    assert(digits@.subrange(0, len as int) =~= digits@);
    assert(out@ =~= zero_padded(hex_bytes(n as nat), width as nat));
    out
}

/// `n` in decimal.
pub fn decimal_string(n: u64) -> (r: String)
    ensures
        r@ == decimal_text(n as nat),
{
    let mut out: Vec<u8> = Vec::new();
    push_decimal(n, &mut out);
    proof {
        assert(out@ =~= decimal_bytes(n as nat));
        lemma_decimal_bytes_ascii(n as nat);
    }
    ascii_string(out)
}

} // verus!
