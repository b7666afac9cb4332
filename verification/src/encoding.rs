//! Digests as text: hexadecimal for a short look at a digest, base64 for
//! storing one.

use crate::hasher::Hash32Bytes;
use vstd::prelude::*;
use vstd::string::*;

verus! {

/// The lower-case character of the hexadecimal digit `v`.
pub open spec fn hex_digit(v: nat) -> char
    recommends
        v < 16,
{
    seq!['0', '1', '2', '3', '4', '5', '6', '7', '8', '9', 'a', 'b', 'c', 'd', 'e', 'f'][v as int]
}

/// Bytes in lower-case hexadecimal: two digits for each byte, the high half
/// first.
pub open spec fn hex_text(data: Seq<u8>) -> Seq<char> {
    Seq::new(
        2 * data.len(),
        |i: int|
            if i % 2 == 0 {
                hex_digit((data[i / 2] / 16) as nat)
            } else {
                hex_digit((data[i / 2] % 16) as nat)
            },
    )
}

/// Calls `hex::encode`, which writes each byte as two lower-case hexadecimal
/// digits, the high four bits first, in the order of the bytes. The contract
/// states that text in full.
#[verifier::external_body]
fn hex_encode(data: &[u8]) -> (text: String)
    ensures
        text@ == hex_text(data@),
{
    hex::encode(data)
}

/// The first four hexadecimal digits of a digest.
pub fn hexs(v: Hash32Bytes) -> (prefix: String)
    ensures
        prefix@ == hex_text(v@).take(4),
{
    let h = hex_encode(v.as_slice());
    String::from_str(h.as_str().substring_char(0, 4))
}

/// The character of the base64 digit `v`, in the standard alphabet.
pub open spec fn base64_char(v: nat) -> char
    recommends
        v < 64,
{
    "ABCDEFGHIJKLMNOPQRSTUVWXYZabcdefghijklmnopqrstuvwxyz0123456789+/"@[v as int]
}

/// Bytes in base64 with the standard alphabet and padding: each three bytes
/// give four digits of six bits, and a last group of one or two bytes is
/// filled with zero bits and closed with `=`.
pub open spec fn base64_text(data: Seq<u8>) -> Seq<char>
    decreases data.len(),
{
    if data.len() == 0 {
        Seq::empty()
    } else if data.len() == 1 {
        seq![
            base64_char((data[0] / 4) as nat),
            base64_char(((data[0] % 4) * 16) as nat),
            '=',
            '=',
        ]
    } else if data.len() == 2 {
        seq![
            base64_char((data[0] / 4) as nat),
            base64_char(((data[0] % 4) * 16 + data[1] / 16) as nat),
            base64_char(((data[1] % 16) * 4) as nat),
            '=',
        ]
    } else {
        seq![
            base64_char((data[0] / 4) as nat),
            base64_char(((data[0] % 4) * 16 + data[1] / 16) as nat),
            base64_char(((data[1] % 16) * 4 + data[2] / 64) as nat),
            base64_char((data[2] % 64) as nat),
        ] + base64_text(data.skip(3))
    }
}

/// The text of one base64 digit.
fn base64_piece(v: u8) -> (piece: &'static str)
    requires
        v < 64,
    ensures
        piece@ == seq![base64_char(v as nat)],
{
    let alphabet = "ABCDEFGHIJKLMNOPQRSTUVWXYZabcdefghijklmnopqrstuvwxyz0123456789+/";
    proof {
        reveal_strlit("ABCDEFGHIJKLMNOPQRSTUVWXYZabcdefghijklmnopqrstuvwxyz0123456789+/");
    }
    alphabet.substring_char(v as usize, v as usize + 1)
}

/// Writes bytes in base64.
pub fn encode_base64(data: &[u8]) -> (text: String)
    ensures
        text@ == base64_text(data@),
{
    let len: usize = data.len();
    let mut text = String::new();
    let mut i: usize = 0;
    assert(data@.skip(0) =~= data@);
    while len - i >= 3
        invariant
            len == data.len(),
            i <= len,
            text@ + base64_text(data@.skip(i as int)) == base64_text(data@),
        decreases len - i,
    {
        let d0: u8 = data[i];
        let d1: u8 = data[i + 1];
        let d2: u8 = data[i + 2];
        text.append(base64_piece(d0 / 4));
        text.append(base64_piece((d0 % 4) * 16 + d1 / 16));
        text.append(base64_piece((d1 % 16) * 4 + d2 / 64));
        text.append(base64_piece(d2 % 64));
        assert(data@.skip(i as int).skip(3) =~= data@.skip(i + 3));
        i += 3;
    }
    if len - i == 1 {
        let d0: u8 = data[i];
        text.append(base64_piece(d0 / 4));
        text.append(base64_piece((d0 % 4) * 16));
        text.append("==");
        proof {
            reveal_strlit("==");
        }
    } else if len - i == 2 {
        let d0: u8 = data[i];
        let d1: u8 = data[i + 1];
        text.append(base64_piece(d0 / 4));
        text.append(base64_piece((d0 % 4) * 16 + d1 / 16));
        text.append(base64_piece((d1 % 16) * 4));
        text.append("=");
        proof {
            reveal_strlit("=");
        }
    }
    text
}

/// A digest in base64: 44 characters, the last of them `=`.
pub fn encode_hash(hash: Hash32Bytes) -> (text: String)
    ensures
        text@ == base64_text(hash@),
{
    encode_base64(hash.as_slice())
}

/// The base64 digits are 64 different characters, none of them `=`.
proof fn lemma_base64_chars(v: nat, w: nat)
    requires
        v < 64,
        w < 64,
    ensures
        base64_char(v) != '=',
        base64_char(v) == base64_char(w) ==> v == w,
{
    reveal_strlit("ABCDEFGHIJKLMNOPQRSTUVWXYZabcdefghijklmnopqrstuvwxyz0123456789+/");
}

/// The base64 text of `n` bytes has four characters for each three bytes
/// begun.
pub proof fn lemma_base64_length(data: Seq<u8>)
    ensures
        base64_text(data).len() == 4 * ((data.len() + 2) / 3),
    decreases data.len(),
{
    if data.len() >= 3 {
        lemma_base64_length(data.skip(3));
    }
}

/// The second base64 digit of bytes that are not empty: the low two bits
/// of the first byte, then the high four of the second, if there is one.
pub open spec fn second_sextet(data: Seq<u8>) -> nat {
    if data.len() == 1 {
        ((data[0] % 4) * 16) as nat
    } else {
        ((data[0] % 4) * 16 + data[1] / 16) as nat
    }
}

/// The third base64 digit of two bytes or more: the low four bits of the
/// second byte, then the high two of the third, if there is one.
pub open spec fn third_sextet(data: Seq<u8>) -> nat {
    if data.len() == 2 {
        ((data[1] % 16) * 4) as nat
    } else {
        ((data[1] % 16) * 4 + data[2] / 64) as nat
    }
}

/// The first four characters of the base64 text of bytes that are not
/// empty, and what follows them.
proof fn lemma_base64_head(data: Seq<u8>)
    requires
        data.len() > 0,
    ensures
        base64_text(data).len() >= 4,
        base64_text(data)[0] == base64_char((data[0] / 4) as nat),
        base64_text(data)[1] == base64_char(second_sextet(data)),
        base64_text(data)[2] == if data.len() == 1 {
            '='
        } else {
            base64_char(third_sextet(data))
        },
        base64_text(data)[3] == if data.len() <= 2 {
            '='
        } else {
            base64_char((data[2] % 64) as nat)
        },
        data.len() >= 3 ==> base64_text(data).skip(4) == base64_text(data.skip(3)),
        data.len() <= 3 ==> base64_text(data).len() == 4,
{
    lemma_base64_length(data);
    if data.len() >= 3 {
        assert(base64_text(data).skip(4) =~= base64_text(data.skip(3)));
    }
}

/// The text keeps what it was made from: two byte strings with the same
/// base64 text are the same bytes.
pub proof fn lemma_base64_is_injective(a: Seq<u8>, b: Seq<u8>)
    requires
        base64_text(a) == base64_text(b),
    ensures
        a == b,
    decreases a.len(),
{
    lemma_base64_length(a);
    lemma_base64_length(b);
    if a.len() > 0 && b.len() > 0 {
        lemma_base64_head(a);
        lemma_base64_head(b);
        lemma_base64_chars((a[0] / 4) as nat, (b[0] / 4) as nat);
        lemma_base64_chars(second_sextet(a), second_sextet(b));
        if a.len() >= 2 {
            lemma_base64_chars(third_sextet(a), third_sextet(a));
        }
        if b.len() >= 2 {
            lemma_base64_chars(third_sextet(b), third_sextet(b));
        }
        if a.len() >= 2 && b.len() >= 2 {
            lemma_base64_chars(third_sextet(a), third_sextet(b));
        }
        if a.len() >= 3 {
            lemma_base64_chars((a[2] % 64) as nat, (a[2] % 64) as nat);
        }
        if b.len() >= 3 {
            lemma_base64_chars((b[2] % 64) as nat, (b[2] % 64) as nat);
        }
        if a.len() >= 3 && b.len() >= 3 {
            lemma_base64_chars((a[2] % 64) as nat, (b[2] % 64) as nat);
            lemma_base64_is_injective(a.skip(3), b.skip(3));
            assert(a =~= a.take(3) + a.skip(3));
            assert(b =~= b.take(3) + b.skip(3));
            assert(a.take(3) =~= b.take(3));
        }
    }
    assert(a =~= b);
}

} // verus!
