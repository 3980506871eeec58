//! What the decoder makes of the encoder's output.
use vstd::prelude::*;

use crate::decode::{
    chunk_text,
    chunk_value,
    decoded,
    hex_value,
    is_white_space,
    latin1_of,
    lemma_token_len_bound,
    token_len,
    token_text,
};
use crate::encode::{byte_hex, digit_char, hex_of};

verus! {

proof fn lemma_digit_value(v: u8)
    requires
        v < 16,
    ensures
        hex_value(digit_char(v)) == Some(v),
        !is_white_space(digit_char(v)),
{
}

proof fn lemma_byte_hex_text(b: u8)
    ensures
        token_text(byte_hex(b)) == seq![b as char],
        forall|k: int| 0 <= k < 2 ==> !is_white_space(#[trigger] byte_hex(b)[k]),
{
    lemma_digit_value(b / 16);
    lemma_digit_value(b % 16);
    assert(16 * (b / 16) + b % 16 == b);
    assert(chunk_value(byte_hex(b)) == Some(b));
    assert(token_text(byte_hex(b)) == chunk_text(byte_hex(b)));
}

/// Text that holds no whitespace is one token.
proof fn lemma_decoded_one_token(x: Seq<char>)
    requires
        forall|k: int| 0 <= k < x.len() ==> !is_white_space(#[trigger] x[k]),
    ensures
        decoded(x) == token_text(x),
{
    lemma_token_len_bound(x);
    if token_len(x) < x.len() {
        assert(!is_white_space(x[token_len(x) as int]));
    }
}

/// A token followed by a space decodes on its own, ahead of the rest.
proof fn lemma_decoded_token_then(x: Seq<char>, y: Seq<char>)
    requires
        forall|k: int| 0 <= k < x.len() ==> !is_white_space(#[trigger] x[k]),
    ensures
        decoded(x + seq![' '] + y) == token_text(x) + decoded(y),
{
    let s = x + seq![' '] + y;
    lemma_token_len_bound(s);
    if token_len(s) < x.len() {
        assert(s[token_len(s) as int] == x[token_len(s) as int]);
    }
    if token_len(s) > x.len() {
        assert(s[x.len() as int] == ' ');
    }
    assert(token_len(s) == x.len());
    assert(s.take(x.len() as int) =~= x);
    assert(s.skip(x.len() + 1 as int) =~= y);
}

/// Decoding the hexadecimal form of any bytes gives back those bytes, each as
/// the character of the same code point.
pub proof fn lemma_round_trip(b: Seq<u8>)
    ensures
        decoded(hex_of(b)) == latin1_of(b),
    decreases b.len(),
{
    if b.len() == 0 {
        assert(latin1_of(b) =~= Seq::empty());
    } else {
        lemma_byte_hex_text(b[0]);
        if b.len() == 1 {
            lemma_decoded_one_token(byte_hex(b[0]));
            assert(latin1_of(b) =~= seq![b[0] as char]);
        } else {
            lemma_decoded_token_then(byte_hex(b[0]), hex_of(b.drop_first()));
            lemma_round_trip(b.drop_first());
            assert(latin1_of(b) =~= seq![b[0] as char] + latin1_of(b.drop_first()));
        }
    }
}

} // verus!
