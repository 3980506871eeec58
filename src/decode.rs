//! Reading free-form hexadecimal text back into characters.
use vstd::prelude::*;
use vstd::std_specs::iter::IteratorSpec;
use vstd::string::StringExecFns;

use crate::encode::push_char;

verus! {

broadcast use {vstd::string::axiom_spec_iter, vstd::string::next_postcondition};

/// Characters with the Unicode `White_Space` property.
pub open spec fn is_white_space(c: char) -> bool {
    let u = c as u32;
    (0x09 <= u && u <= 0x0d) || u == 0x20 || u == 0x85 || u == 0xa0 || u == 0x1680 || (0x2000
        <= u && u <= 0x200a) || u == 0x2028 || u == 0x2029 || u == 0x202f || u == 0x205f || u
        == 0x3000
}

/// Whether `c` has the Unicode `White_Space` property.
pub fn white_space(c: char) -> (r: bool)
    ensures
        r == is_white_space(c),
{
    let u = c as u32;
    (0x09 <= u && u <= 0x0d) || u == 0x20 || u == 0x85 || u == 0xa0 || u == 0x1680 || (0x2000
        <= u && u <= 0x200a) || u == 0x2028 || u == 0x2029 || u == 0x202f || u == 0x205f || u
        == 0x3000
}

/// The value of a hexadecimal digit of either case, if `c` is one.
pub open spec fn hex_value(c: char) -> Option<u8> {
    let u = c as u32;
    if 48 <= u && u <= 57 {
        Some((u - 48) as u8)
    } else if 97 <= u && u <= 102 {
        Some((u - 87) as u8)
    } else if 65 <= u && u <= 70 {
        Some((u - 55) as u8)
    } else {
        None
    }
}

/// The byte that a chunk of one or two hexadecimal digits stands for; none
/// if the chunk holds any other character.
pub open spec fn chunk_value(chunk: Seq<char>) -> Option<u8> {
    if chunk.len() == 1 && hex_value(chunk[0]) is Some {
        Some(hex_value(chunk[0])->0)
    } else if chunk.len() == 2 && hex_value(chunk[0]) is Some && hex_value(chunk[1]) is Some {
        Some((16 * hex_value(chunk[0])->0 + hex_value(chunk[1])->0) as u8)
    } else {
        None
    }
}

/// The text put in place of a chunk that is not hexadecimal.
pub open spec fn no_hex_marker() -> Seq<char> {
    seq!['<', 'N', 'O', '_', 'H', 'E', 'X', '>']
}

/// What a chunk decodes to: the character whose code point is its byte, or
/// the marker.
pub open spec fn chunk_text(chunk: Seq<char>) -> Seq<char> {
    match chunk_value(chunk) {
        Some(b) => seq![b as char],
        None => no_hex_marker(),
    }
}

/// A token decoded chunk by chunk, two characters at a time from its start;
/// an odd last character forms a chunk of its own.
pub open spec fn token_text(t: Seq<char>) -> Seq<char>
    decreases t.len(),
{
    if t.len() == 0 {
        Seq::empty()
    } else if t.len() <= 2 {
        chunk_text(t)
    } else {
        chunk_text(t.take(2)) + token_text(t.skip(2))
    }
}

/// The length of the token at the start of `s`: the characters before the
/// first whitespace.
pub open spec fn token_len(s: Seq<char>) -> nat
    decreases s.len(),
{
    if s.len() == 0 || is_white_space(s[0]) {
        0
    } else {
        1 + token_len(s.drop_first())
    }
}

/// Free-form hexadecimal text decoded: its whitespace-separated tokens
/// decoded one by one and joined with nothing between them.
pub open spec fn decoded(s: Seq<char>) -> Seq<char>
    decreases s.len(),
{
    if s.len() == 0 {
        Seq::empty()
    } else if token_len(s) >= s.len() {
        token_text(s)
    } else {
        token_text(s.take(token_len(s) as int)) + decoded(s.skip(token_len(s) + 1 as int))
    }
}

/// Bytes read as characters of the same code point.
pub open spec fn latin1_of(b: Seq<u8>) -> Seq<char> {
    b.map_values(|x: u8| x as char)
}

/// The token at the start of `s` fits in `s`, holds no whitespace, and is
/// followed by whitespace unless it reaches the end.
pub proof fn lemma_token_len_bound(s: Seq<char>)
    ensures
        token_len(s) <= s.len(),
        token_len(s) < s.len() ==> is_white_space(s[token_len(s) as int]),
        forall|k: int| 0 <= k < token_len(s) ==> !is_white_space(#[trigger] s[k]),
    decreases s.len(),
{
    if s.len() > 0 && !is_white_space(s[0]) {
        lemma_token_len_bound(s.drop_first());
        assert forall|k: int| 0 <= k < token_len(s) implies !is_white_space(#[trigger] s[k]) by {
            if k > 0 {
                assert(s[k] == s.drop_first()[k - 1]);
            }
        }
    }
}

/// The characters of `s`, in order.
pub fn chars_of(s: &str) -> (r: Vec<char>)
    ensures
        r@ == s@,
{
    let mut it = s.chars();
    let mut v: Vec<char> = Vec::new();
    loop
        invariant
            it.obeys_prophetic_iter_laws(),
            v@ + it.remaining() == s@,
            it.decrease() is Some,
        ensures
            v@ == s@,
        decreases it.decrease()->0,
    {
        match it.next() {
            Some(c) => {
                v.push(c);
            },
            None => {
                assert(v@ =~= s@);
                break;
            },
        }
    }
    v
}

/// A token of two or more characters decodes as its first chunk of two,
/// then the rest.
proof fn lemma_token_text_split(t: Seq<char>)
    requires
        t.len() >= 2,
    ensures
        token_text(t) == chunk_text(t.take(2)) + token_text(t.skip(2)),
{
    if t.len() == 2 {
        assert(t.take(2) =~= t);
        assert(t.skip(2).len() == 0);
        assert(token_text(t) =~= chunk_text(t.take(2)) + token_text(t.skip(2)));
    }
}

/// The value of `c` as a hexadecimal digit of either case, if it is one.
pub fn hex_digit_value(c: char) -> (r: Option<u8>)
    ensures
        r == hex_value(c),
{
    let u = c as u32;
    if 48 <= u && u <= 57 {
        Some((u - 48) as u8)
    } else if 97 <= u && u <= 102 {
        Some((u - 87) as u8)
    } else if 65 <= u && u <= 70 {
        Some((u - 55) as u8)
    } else {
        None
    }
}

/// Reads one or two hexadecimal digits as a byte, the first digit being the
/// high one when there are two.
pub fn parse_chunk(chunk: &Vec<char>) -> (r: Option<u8>)
    ensures
        r == chunk_value(chunk@),
{
    if chunk.len() == 1 {
        hex_digit_value(chunk[0])
    } else if chunk.len() == 2 {
        match (hex_digit_value(chunk[0]), hex_digit_value(chunk[1])) {
            (Some(hi), Some(lo)) => Some(16 * hi + lo),
            _ => None,
        }
    } else {
        None
    }
}

/// Appends what the buffered chunk decodes to, then empties the buffer.
pub fn consume_hex_buffer(ascii: &mut String, hex_buffer: &mut Vec<char>)
    ensures
        final(ascii)@ == old(ascii)@ + chunk_text(old(hex_buffer)@),
        final(hex_buffer)@.len() == 0,
{
    match parse_chunk(hex_buffer) {
        Some(b) => push_char(ascii, b as char),
        None => {
            proof {
                reveal_strlit("<NO_HEX>");
            }
            ascii.append("<NO_HEX>");
            assert(ascii@ =~= old(ascii)@ + no_hex_marker());
        },
    }
    hex_buffer.clear();
}

/// Decodes the token `cs[i..j]` onto `ascii`, two characters at a time.
fn decode_token(cs: &Vec<char>, i: usize, j: usize, ascii: &mut String)
    requires
        i <= j <= cs@.len(),
    ensures
        final(ascii)@ == old(ascii)@ + token_text(cs@.subrange(i as int, j as int)),
{
    let mut hex_buffer: Vec<char> = Vec::new();
    let mut k: usize = i;
    while k < j
        invariant
            i <= k <= j <= cs@.len(),
            hex_buffer@.len() <= 1,
            ascii@ + token_text(hex_buffer@ + cs@.subrange(k as int, j as int)) == old(ascii)@
                + token_text(cs@.subrange(i as int, j as int)),
        decreases j - k,
    {
        let ghost before = hex_buffer@ + cs@.subrange(k as int, j as int);
        hex_buffer.push(cs[k]);
        k = k + 1;
        assert(hex_buffer@ + cs@.subrange(k as int, j as int) =~= before);
        if hex_buffer.len() > 1 {
            proof {
                lemma_token_text_split(before);
                assert(before.take(2) =~= hex_buffer@);
                assert(before.skip(2) =~= cs@.subrange(k as int, j as int));
            }
            consume_hex_buffer(ascii, &mut hex_buffer);
            assert(hex_buffer@ + cs@.subrange(k as int, j as int) =~= cs@.subrange(
                k as int,
                j as int,
            ));
        }
    }
    assert(hex_buffer@ + cs@.subrange(k as int, j as int) =~= hex_buffer@);
    if hex_buffer.len() > 0 {
        consume_hex_buffer(ascii, &mut hex_buffer);
    }
}

/// Reads free-form hexadecimal text: tokens are separated by whitespace, each
/// token is read two characters at a time (an odd last character alone), and
/// each chunk becomes the character whose code point is its byte, or
/// `<NO_HEX>` where it is not hexadecimal. Nothing stands between the results.
pub fn decode_from_hex(input: &str) -> (r: String)
    ensures
        r@ == decoded(input@),
{
    let cs = chars_of(input);
    let n = cs.len();
    let mut ascii = String::new();
    let mut i: usize = 0;
    assert(cs@.skip(0) =~= cs@);
    assert(ascii@ + decoded(cs@.skip(0)) =~= decoded(cs@));
    while i < n
        invariant
            n == cs@.len(),
            i <= n,
            ascii@ + decoded(cs@.skip(i as int)) == decoded(cs@),
        decreases n - i,
    {
        let ghost rest = cs@.skip(i as int);
        let mut j: usize = i;
        while j < n && !white_space(cs[j])
            invariant
                n == cs@.len(),
                i <= j <= n,
                forall|k: int| i <= k < j ==> !is_white_space(#[trigger] cs@[k]),
            decreases n - j,
        {
            j = j + 1;
        }
        proof {
            lemma_token_len_bound(rest);
            let t = token_len(rest);
            if t < j - i {
                assert(rest[t as int] == cs@[i + t]);
            }
            if t > j - i {
                assert(rest[j - i] == cs@[j as int]);
            }
            assert(t == j - i);
            assert(rest.take(t as int) =~= cs@.subrange(i as int, j as int));
            if j < n {
                assert(rest.skip(t + 1 as int) =~= cs@.skip(j + 1));
            } else {
                assert(rest =~= cs@.subrange(i as int, j as int));
                assert(cs@.skip(n as int).len() == 0);
            }
        }
        decode_token(&cs, i, j, &mut ascii);
        if j < n {
            i = j + 1;
        } else {
            i = n;
        }
    }
    assert(cs@.skip(n as int).len() == 0);
    assert(ascii@ =~= decoded(cs@));
    ascii
}

} // verus!
