//! Writing bytes as hexadecimal text.
use vstd::prelude::*;
use vstd::utf8::encode_utf8;

verus! {

/// The lowercase hexadecimal digit for a value below 16.
pub open spec fn digit_char(v: u8) -> char {
    if v < 10 {
        ((v + 48) as u8) as char
    } else {
        ((v + 87) as u8) as char
    }
}

/// The two lowercase digits of a byte, the high one first.
pub open spec fn byte_hex(b: u8) -> Seq<char> {
    seq![digit_char(b / 16), digit_char(b % 16)]
}

/// Bytes written as two-digit groups with one space between groups.
pub open spec fn hex_of(b: Seq<u8>) -> Seq<char>
    decreases b.len(),
{
    if b.len() == 0 {
        Seq::empty()
    } else if b.len() == 1 {
        byte_hex(b[0])
    } else {
        byte_hex(b[0]) + seq![' '] + hex_of(b.drop_first())
    }
}

/// Adding a byte at the end of a non-empty sequence adds a space and its digits.
pub proof fn lemma_hex_of_push(b: Seq<u8>, x: u8)
    requires
        b.len() > 0,
    ensures
        hex_of(b.push(x)) == hex_of(b) + seq![' '] + byte_hex(x),
    decreases b.len(),
{
    assert(b.push(x).drop_first() =~= b.drop_first().push(x));
    if b.len() == 1 {
        assert(b.drop_first().push(x) =~= seq![x]);
        assert(hex_of(seq![x]) == byte_hex(x));
        assert(hex_of(b.push(x)) =~= hex_of(b) + seq![' '] + byte_hex(x));
    } else {
        lemma_hex_of_push(b.drop_first(), x);
        assert(hex_of(b.push(x)) =~= hex_of(b) + seq![' '] + byte_hex(x));
    }
}

/// Relies on String::push: the character is added at the end.
#[verifier::external_body]
pub(crate) fn push_char(s: &mut String, c: char)
    ensures
        final(s)@ == old(s)@.push(c),
{
    s.push(c)
}

/// The lowercase hexadecimal digit for `v`.
pub fn hex_digit(v: u8) -> (c: char)
    requires
        v < 16,
    ensures
        c == digit_char(v),
{
    if v < 10 {
        (v + 48) as char
    } else {
        (v + 87) as char
    }
}

/// Writes each byte as two lowercase digits, with one space between bytes.
pub fn encode_bytes_to_hex(bytes: &[u8]) -> (r: String)
    ensures
        r@ == hex_of(bytes@),
{
    let mut out = String::new();
    let mut i: usize = 0;
    while i < bytes.len()
        invariant
            0 <= i <= bytes@.len(),
            out@ == hex_of(bytes@.take(i as int)),
        decreases bytes@.len() - i,
    {
        let b = bytes[i];
        proof {
            assert(bytes@.take(i + 1) =~= bytes@.take(i as int).push(b));
            if i > 0 {
                lemma_hex_of_push(bytes@.take(i as int), b);
            } else {
                assert(bytes@.take(1) =~= seq![b]);
            }
        }
        if i > 0 {
            push_char(&mut out, ' ');
        }
        push_char(&mut out, hex_digit(b / 16));
        push_char(&mut out, hex_digit(b % 16));
        proof {
            assert(out@ =~= hex_of(bytes@.take(i + 1)));
        }
        i = i + 1;
    }
    assert(bytes@.take(bytes@.len() as int) =~= bytes@);
    out
}

/// Writes the UTF-8 bytes of `input` as two lowercase digits each, with one
/// space between bytes and none before the first or after the last.
pub fn encode_to_hex(input: &str) -> (r: String)
    ensures
        r@ == hex_of(encode_utf8(input@)),
{
    encode_bytes_to_hex(input.as_bytes())
}

} // verus!
