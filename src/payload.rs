//! The text of a card payload: UTF-8 JSON, base64-encoded for the chunk.

use base64::Engine;
use vstd::prelude::*;
use vstd::utf8::{decode_utf8, encode_utf8, valid_utf8};

verus! {

/// Why chunk bytes do not decode to text.
#[derive(Debug, Clone, Copy, PartialEq, Eq, Structural)]
pub enum TranscodeError {
    /// The bytes are not standard padded base64.
    NotBase64,
    /// The decoded bytes are not valid UTF-8.
    NotUtf8,
}


/// Digit `x` (below 64) of the standard base64 alphabet: `A`-`Z`, `a`-`z`,
/// `0`-`9`, `+`, `/`.
pub open spec fn base64_digit(x: int) -> u8 {
    if x < 26 {
        (65 + x) as u8
    } else if x < 52 {
        (97 + x - 26) as u8
    } else if x < 62 {
        (48 + x - 52) as u8
    } else if x == 62 {
        43u8
    } else {
        47u8
    }
}

/// Standard padded base64 of `b`, as ASCII bytes: each group of three bytes
/// becomes four digits of six bits each, and a last group of one or two bytes
/// is filled with zero bits and padded with `=`.
pub open spec fn base64_of(b: Seq<u8>) -> Seq<u8>
    decreases b.len(),
{
    if b.len() == 0 {
        Seq::empty()
    } else if b.len() == 1 {
        let n = b[0] as int * 65536;
        seq![base64_digit(n / 262144 % 64), base64_digit(n / 4096 % 64), 61u8, 61u8]
    } else if b.len() == 2 {
        let n = b[0] as int * 65536 + b[1] as int * 256;
        seq![
            base64_digit(n / 262144 % 64),
            base64_digit(n / 4096 % 64),
            base64_digit(n / 64 % 64),
            61u8,
        ]
    } else {
        let n = b[0] as int * 65536 + b[1] as int * 256 + b[2] as int;
        seq![
            base64_digit(n / 262144 % 64),
            base64_digit(n / 4096 % 64),
            base64_digit(n / 64 % 64),
            base64_digit(n % 64),
        ] + base64_of(b.subrange(3, b.len() as int))
    }
}

/// Four digits for every started group of three bytes.
pub proof fn lemma_base64_len(b: Seq<u8>)
    ensures
        base64_of(b).len() == 4 * ((b.len() + 2) / 3),
    decreases b.len(),
{
    if b.len() > 2 {
        lemma_base64_len(b.subrange(3, b.len() as int));
    }
}

/// The largest input that base64 encoding accepts here without its output
/// length overflowing.
pub const MAX_ENCODE_LEN: usize = 0x5fff_ffff;

/// Relies on base64's `STANDARD` engine `decode`: it requires canonical
/// padding and zero trailing bits, so it succeeds exactly on the encodings of
/// byte strings and gives back the bytes encoded.
#[verifier::external_body]
fn base64_decode(b: &[u8]) -> (r: Option<Vec<u8>>)
    ensures
        match r {
            Some(v) => b@ == base64_of(v@),
            None => forall|x: Seq<u8>| base64_of(x) != b@,
        },
{
    base64::engine::general_purpose::STANDARD.decode(b).ok()
}

/// Relies on base64's `STANDARD` engine `encode`: padded base64 of the input
/// in the standard alphabet.
#[verifier::external_body]
fn base64_encode(b: &[u8]) -> (r: Vec<u8>)
    requires
        b@.len() <= MAX_ENCODE_LEN,
    ensures
        r@ == base64_of(b@),
{
    base64::engine::general_purpose::STANDARD.encode(b).into_bytes()
}

/// Relies on std's `String::from_utf8`: `Ok` exactly for valid UTF-8, holding
/// the characters that the bytes encode.
#[verifier::external_body]
fn utf8_to_string(b: Vec<u8>) -> (r: Option<String>)
    ensures
        match r {
            Some(s) => valid_utf8(b@) && s@ == decode_utf8(b@),
            None => !valid_utf8(b@),
        },
{
    String::from_utf8(b).ok()
}

/// The text that chunk bytes carry, or why they carry none.
pub open spec fn decoded_text(raw: Seq<u8>) -> Result<Seq<char>, TranscodeError> {
    if exists|b: Seq<u8>| base64_of(b) == raw {
        let b = choose|b: Seq<u8>| base64_of(b) == raw;
        if valid_utf8(b) {
            Ok(decode_utf8(b))
        } else {
            Err(TranscodeError::NotUtf8)
        }
    } else {
        Err(TranscodeError::NotBase64)
    }
}

/// The chunk bytes that carry `text`.
pub open spec fn encoded_text(text: Seq<char>) -> Seq<u8> {
    base64_of(encode_utf8(text))
}

/// Base64-decodes chunk bytes and reads them as UTF-8 text.
pub fn decode(raw: &[u8]) -> (r: Result<String, TranscodeError>)
    ensures
        match r {
            Ok(s) => decoded_text(raw@) == Ok::<Seq<char>, TranscodeError>(s@),
            Err(e) => decoded_text(raw@) == Err::<Seq<char>, TranscodeError>(e),
        },
{
    match base64_decode(raw) {
        None => Err(TranscodeError::NotBase64),
        Some(bytes) => {
            proof {
                let b = choose|b: Seq<u8>| base64_of(b) == raw@;
                lemma_base64_injective(b, bytes@);
            }
            match utf8_to_string(bytes) {
                Some(s) => Ok(s),
                None => Err(TranscodeError::NotUtf8),
            }
        },
    }
}

/// Encodes text as UTF-8 and then base64, for a chunk. Decoding the result
/// gives back `text`.
pub fn encode(text: &str) -> (r: Vec<u8>)
    requires
        encode_utf8(text@).len() <= MAX_ENCODE_LEN,
    ensures
        r@ == encoded_text(text@),
        decoded_text(r@) == Ok::<Seq<char>, TranscodeError>(text@),
{
    let bytes = text.as_bytes();
    let r = base64_encode(bytes);
    proof {
        vstd::utf8::encode_utf8_valid_utf8(text@);
        vstd::utf8::encode_utf8_decode_utf8(text@);
        let b = choose|b: Seq<u8>| base64_of(b) == r@;
        lemma_base64_injective(b, bytes@);
    }
    r
}


proof fn lemma_digit_index(v: int, w: int)
    requires
        0 <= v < 64,
        0 <= w < 64,
        base64_digit(v) == base64_digit(w),
    ensures
        v == w,
{
}

/// Equal digits of a group come from equal 24-bit values.
proof fn lemma_group_digits(n: int, m: int)
    requires
        0 <= n < 16777216,
        0 <= m < 16777216,
        base64_digit(n / 262144 % 64) == base64_digit(m / 262144 % 64),
        base64_digit(n / 4096 % 64) == base64_digit(m / 4096 % 64),
        n / 64 % 64 == m / 64 % 64,
        n % 64 == m % 64,
    ensures
        n == m,
{
    lemma_digit_index(n / 262144 % 64, m / 262144 % 64);
    lemma_digit_index(n / 4096 % 64, m / 4096 % 64);

}


/// Bytes in the first group of `x`: three, or fewer at the end.
pub open spec fn head_len(x: Seq<u8>) -> int {
    if x.len() >= 3 {
        3
    } else {
        x.len() as int
    }
}

/// The 24-bit value of the first group of `x`, zero-filled.
pub open spec fn head_value(x: Seq<u8>) -> int {
    x[0] as int * 65536 + (if head_len(x) >= 2 {
        x[1] as int * 256
    } else {
        0
    }) + (if head_len(x) == 3 {
        x[2] as int
    } else {
        0
    })
}

proof fn lemma_head(x: Seq<u8>)
    requires
        x.len() > 0,
    ensures
        0 <= head_value(x) < 16777216,
        base64_of(x).len() >= 4,
        base64_of(x)[0] == base64_digit(head_value(x) / 262144 % 64),
        base64_of(x)[1] == base64_digit(head_value(x) / 4096 % 64),
        base64_of(x)[2] == if head_len(x) == 1 {
            61u8
        } else {
            base64_digit(head_value(x) / 64 % 64)
        },
        base64_of(x)[3] == if head_len(x) < 3 {
            61u8
        } else {
            base64_digit(head_value(x) % 64)
        },
        head_len(x) == 1 ==> head_value(x) / 64 % 64 == 0,
        head_len(x) < 3 ==> head_value(x) % 64 == 0,
        head_len(x) == 3 ==> base64_of(x).subrange(4, base64_of(x).len() as int) == base64_of(
            x.subrange(3, x.len() as int),
        ),
{
    lemma_base64_len(x);
    if head_len(x) == 3 {
        let e = base64_of(x);
        assert(e.subrange(4, e.len() as int) =~= base64_of(x.subrange(3, x.len() as int)));
    }
}

proof fn lemma_head_bytes(x: Seq<u8>, y: Seq<u8>)
    requires
        x.len() > 0,
        y.len() > 0,
        head_len(x) == head_len(y),
        head_value(x) == head_value(y),
    ensures
        x[0] == y[0],
        head_len(x) >= 2 ==> x[1] == y[1],
        head_len(x) == 3 ==> x[2] == y[2],
{
}

/// Different byte strings have different base64 encodings.
pub proof fn lemma_base64_injective(x: Seq<u8>, y: Seq<u8>)
    requires
        base64_of(x) == base64_of(y),
    ensures
        x == y,
    decreases x.len(),
{
    lemma_base64_len(x);
    lemma_base64_len(y);
    if x.len() == 0 || y.len() == 0 {
        assert(x.len() == 0 && y.len() == 0);
        assert(x =~= y);
    } else {
        let nx = head_value(x);
        let ny = head_value(y);
        lemma_head(x);
        lemma_head(y);
        assert(base64_digit(nx / 64 % 64) != 61u8);
        assert(base64_digit(ny / 64 % 64) != 61u8);
        assert(base64_digit(nx % 64) != 61u8);
        assert(base64_digit(ny % 64) != 61u8);
        assert(head_len(x) == head_len(y));
        if head_len(x) >= 2 {
            lemma_digit_index(nx / 64 % 64, ny / 64 % 64);
        }
        if head_len(x) == 3 {
            lemma_digit_index(nx % 64, ny % 64);
        }
        lemma_group_digits(nx, ny);
        lemma_head_bytes(x, y);
        if head_len(x) == 3 {
            let rx = x.subrange(3, x.len() as int);
            let ry = y.subrange(3, y.len() as int);
            lemma_base64_injective(rx, ry);
            assert(x =~= y.subrange(0, 3) + ry);
            assert(y =~= y.subrange(0, 3) + ry);
        } else {
            assert(x =~= y);
        }
    }
}


/// A byte of the base64 alphabet, or the pad `=`.
pub open spec fn is_base64_byte(c: u8) -> bool {
    (65 <= c <= 90) || (97 <= c <= 122) || (48 <= c <= 57) || c == 43 || c == 47 || c == 61
}

proof fn lemma_base64_alphabet(x: Seq<u8>)
    ensures
        forall|i: int| 0 <= i < base64_of(x).len() ==> is_base64_byte(#[trigger] base64_of(x)[i]),
    decreases x.len(),
{
    assert(forall|v: int| 0 <= v < 64 ==> is_base64_byte(#[trigger] base64_digit(v)));
    let e = base64_of(x);
    if x.len() > 0 {
        lemma_head(x);
        let n = head_value(x);
        assert(is_base64_byte(base64_digit(n / 262144 % 64)));
        assert(is_base64_byte(base64_digit(n / 4096 % 64)));
        assert(is_base64_byte(base64_digit(n / 64 % 64)));
        assert(is_base64_byte(base64_digit(n % 64)));
        if x.len() >= 3 {
            let rest = x.subrange(3, x.len() as int);
            lemma_base64_alphabet(rest);
            assert forall|i: int| 0 <= i < e.len() implies is_base64_byte(#[trigger] e[i]) by {
                if i >= 4 {
                    assert(e[i] == e.subrange(4, e.len() as int)[i - 4]);
                    assert(e[i] == base64_of(rest)[i - 4]);
                }
            }
        } else {
            assert(e.len() == 4);
        }
    }
}

/// Chunk bytes with a byte outside the base64 alphabet decode to no text.
pub proof fn lemma_not_base64(raw: Seq<u8>, i: int)
    requires
        0 <= i < raw.len(),
        !is_base64_byte(raw[i]),
    ensures
        decoded_text(raw) == Err::<Seq<char>, TranscodeError>(TranscodeError::NotBase64),
{
    assert forall|b: Seq<u8>| base64_of(b) != raw by {
        lemma_base64_alphabet(b);
        if base64_of(b) == raw {
            assert(is_base64_byte(base64_of(b)[i]));
        }
    }
}

} // verus!
