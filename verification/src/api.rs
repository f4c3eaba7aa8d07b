//! Values that the HTTP API reports and reads: a transaction's status,
//! error bodies and a client's public key.

use vstd::prelude::*;
use vstd::string::StrSliceExecFns;
use crate::hashing::{hex_decode, hex_digit, hex_encode, hex_lower, hex_nibble, hex_value, str_trim, trimmed};

verus! {

/// Where a transaction stands.
#[derive(Clone, Copy, Debug, PartialEq, Eq, Structural)]
pub enum TransactionStatus {
    Pending,
    Finalized,
    Expired,
}

/// An error answer: a message and the HTTP status code.
#[derive(Clone, Debug)]
pub struct ApiError {
    pub error: String,
    pub code: u16,
}

impl ApiError {
    /// Answer 404 with `message`.
    pub fn not_found(message: String) -> (e: Self)
        ensures
            e.error@ == message@,
            e.code == 404,
    {
        ApiError { error: message, code: 404 }
    }

    /// Answer 400 with `message`.
    pub fn bad_request(message: String) -> (e: Self)
        ensures
            e.error@ == message@,
            e.code == 400,
    {
        ApiError { error: message, code: 400 }
    }
}

} // verus!

verus! {

/// A public key as a client sends it: raw bytes, or hex text.
#[derive(Clone, Debug)]
pub enum PublicKeyField {
    Bytes(Vec<u8>),
    Hex(String),
}

/// `text` without a leading `0x`.
pub open spec fn without_0x(text: Seq<char>) -> Seq<char> {
    if text.len() >= 2 && text[0] == '0' && text[1] == 'x' {
        text.subrange(2, text.len() as int)
    } else {
        text
    }
}

/// `c` with the ASCII capitals turned into small letters.
pub open spec fn ascii_lower(c: char) -> char {
    if 'A' <= c <= 'Z' {
        ((c as int) + 32) as char
    } else {
        c
    }
}

proof fn lemma_lower_digit(c: char)
    requires
        hex_nibble(c) >= 0,
    ensures
        hex_digit(hex_nibble(c)) == ascii_lower(c),
        0 <= hex_nibble(c) < 16,
{
}

/// Re-encoding what hex text decodes to gives the text in small letters.
proof fn lemma_hex_relower(text: Seq<char>)
    requires
        hex_value(text) is Some,
    ensures
        hex_lower(hex_value(text)->0) == text.map_values(|c: char| ascii_lower(c)),
{
    let bytes = hex_value(text)->0;
    let lowered = text.map_values(|c: char| ascii_lower(c));
    assert forall|j: int| 0 <= j < text.len() implies #[trigger] hex_lower(bytes)[j] == lowered[j] by {
        let i = j / 2;
        let hi = hex_nibble(text[2 * i]);
        let lo = hex_nibble(text[2 * i + 1]);
        lemma_lower_digit(text[2 * i]);
        lemma_lower_digit(text[2 * i + 1]);
        assert(bytes[i] == (16 * hi + lo) as u8);
        assert((16 * hi + lo) / 16 == hi && (16 * hi + lo) % 16 == lo) by (nonlinear_arith)
            requires
                0 <= hi < 16,
                0 <= lo < 16,
        ;
        if j % 2 == 0 {
            assert(j == 2 * i);
        } else {
            assert(j == 2 * i + 1);
        }
    }
    assert(hex_lower(bytes) =~= lowered);
}

impl PublicKeyField {
    /// The key as lowercase hex text: bytes are encoded, and hex text is
    /// trimmed, stripped of a `0x` and checked.
    pub fn to_hex(&self) -> (r: Result<String, String>)
        ensures
            match self {
                PublicKeyField::Bytes(b) => if b@.len() == 0 {
                    r matches Err(e) && e@ == "empty publicKey"@
                } else {
                    r matches Ok(s) && s@ == hex_lower(b@)
                },
                PublicKeyField::Hex(h) => {
                    let cleaned = without_0x(trimmed(h@));
                    if hex_value(cleaned) is Some {
                        r matches Ok(s) && s@ == cleaned.map_values(|c: char| ascii_lower(c))
                    } else {
                        r matches Err(e) && e@ == "invalid publicKey hex"@
                    }
                },
            },
    {
        match self {
            PublicKeyField::Bytes(b) => {
                if b.len() == 0 {
                    Err("empty publicKey".to_owned())
                } else {
                    Ok(hex_encode(b.as_slice()))
                }
            },
            PublicKeyField::Hex(h) => {
                let trimmed_text = str_trim(h.as_str());
                let n = trimmed_text.unicode_len();
                let cleaned = if n >= 2 && trimmed_text.get_char(0) == '0' && trimmed_text.get_char(1) == 'x' {
                    trimmed_text.substring_char(2, n)
                } else {
                    trimmed_text
                };
                match hex_decode(cleaned) {
                    Ok(bytes) => {
                        proof {
                            lemma_hex_relower(cleaned@);
                        }
                        Ok(hex_encode(bytes.as_slice()))
                    },
                    Err(_) => Err("invalid publicKey hex".to_owned()),
                }
            },
        }
    }
}

} // verus!
