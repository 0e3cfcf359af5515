//! Document identifiers.

use std::str::FromStr;
use vstd::arithmetic::div_mod::{lemma_basic_div, lemma_div_denominator, lemma_small_mod};
use vstd::prelude::*;

verus! {

/// 32 to the power of `n`.
pub open spec fn pow32(n: nat) -> nat
    decreases n,
{
    if n == 0 {
        1
    } else {
        32 * pow32((n - 1) as nat)
    }
}

/// The upper-case form of an ASCII letter; any other character is left alone.
pub open spec fn ascii_upper(c: char) -> char {
    if 'a' <= c && c <= 'z' {
        ((c as u8) - 32) as u8 as char
    } else {
        c
    }
}

/// A text with its ASCII letters in upper case.
pub open spec fn upper(text: Seq<char>) -> Seq<char> {
    text.map_values(|c: char| ascii_upper(c))
}

/// The 32 characters of ULID text, each at the place of its value.
pub open spec fn alphabet() -> Seq<char> {
    "0123456789ABCDEFGHJKMNPQRSTVWXYZ"@
}

/// The value of one character of ULID text: its place in the alphabet, where a
/// lower-case letter counts as its upper-case form. The letters I, L, O and U
/// and all other characters have no value.
pub open spec fn digit_value(c: char) -> Option<nat> {
    let c = ascii_upper(c);
    if '0' <= c && c <= '9' {
        Some((c as u8 - '0' as u8) as nat)
    } else if 'A' <= c && c <= 'H' {
        Some((10 + c as u8 - 'A' as u8) as nat)
    } else if 'J' <= c && c <= 'K' {
        Some((18 + c as u8 - 'J' as u8) as nat)
    } else if 'M' <= c && c <= 'N' {
        Some((20 + c as u8 - 'M' as u8) as nat)
    } else if 'P' <= c && c <= 'T' {
        Some((22 + c as u8 - 'P' as u8) as nat)
    } else if 'V' <= c && c <= 'Z' {
        Some((27 + c as u8 - 'V' as u8) as nat)
    } else {
        None
    }
}

/// The number that a text stands for in base 32, most significant character
/// first; `None` where a character has no value.
pub open spec fn base32_value(text: Seq<char>) -> Option<nat>
    decreases text.len(),
{
    if text.len() == 0 {
        Some(0)
    } else {
        match (base32_value(text.drop_last()), digit_value(text.last())) {
            (Some(value), Some(digit)) => Some(value * 32 + digit),
            _ => None,
        }
    }
}

/// Two to the power of 128: the number of 128-bit values.
pub open spec fn two_to_128() -> nat {
    u128::MAX as nat + 1
}

/// The 128-bit value that a ULID text stands for: the text has 26 characters,
/// each with a value, and the 130 bits they spell are cut to the lower 128.
/// Every other text is no ULID.
pub open spec fn ulid_decode(text: Seq<char>) -> Option<u128> {
    if text.len() == 26 {
        match base32_value(text) {
            Some(value) => Some((value % two_to_128()) as u128),
            None => None,
        }
    } else {
        None
    }
}

/// The ULID text of a 128-bit value: 26 characters of the alphabet, five bits
/// each, most significant first.
pub open spec fn ulid_encode(value: u128) -> Seq<char> {
    Seq::new(26, |i: int| alphabet()[((value as nat / pow32((25 - i) as nat)) % 32) as int])
}

/// Each character of the alphabet has its place as its value.
pub proof fn lemma_alphabet_values(digit: nat)
    requires
        digit < 32,
    ensures
        digit_value(alphabet()[digit as int]) == Some(digit),
{
    reveal_strlit("0123456789ABCDEFGHJKMNPQRSTVWXYZ");
}

/// Upper and lower case stand for the same identifier.
pub proof fn lemma_case_does_not_matter(text: Seq<char>)
    ensures
        base32_value(upper(text)) == base32_value(text),
        ulid_decode(upper(text)) == ulid_decode(text),
    decreases text.len(),
{
    if text.len() > 0 {
        lemma_case_does_not_matter(text.drop_last());
        assert(upper(text).drop_last() =~= upper(text.drop_last()));
        assert(upper(text).last() == ascii_upper(text.last()));
    }
}

proof fn lemma_encoded_prefix(value: u128, k: nat)
    requires
        k <= 26,
    ensures
        base32_value(ulid_encode(value).take(k as int)) == Some(
            value as nat / pow32((26 - k) as nat),
        ),
    decreases k,
{
    let text = ulid_encode(value);
    if k == 0 {
        assert(pow32(26) > u128::MAX) by {
            reveal_with_fuel(pow32, 27);
        }
        lemma_basic_div(value as int, pow32(26) as int);
    } else {
        lemma_encoded_prefix(value, (k - 1) as nat);
        let low = pow32((26 - k) as nat);
        let shifted = value as nat / low;
        lemma_pow32_positive((26 - k) as nat);
        assert(pow32((27 - k) as nat) == 32 * low);
        lemma_div_denominator(value as int, low as int, 32);
        assert(text.take(k as int).drop_last() =~= text.take(k as int - 1));
        assert(text.take(k as int).last() == alphabet()[(shifted % 32) as int]);
        lemma_alphabet_values(shifted % 32);
    }
}

proof fn lemma_pow32_positive(n: nat)
    ensures
        pow32(n) >= 1,
    decreases n,
{
    if n > 0 {
        lemma_pow32_positive((n - 1) as nat);
    }
}

/// The text written for a value is read back as that value.
pub proof fn lemma_encoding_is_decoded_back(value: u128)
    ensures
        ulid_encode(value).len() == 26,
        ulid_decode(ulid_encode(value)) == Some(value),
{
    let text = ulid_encode(value);
    lemma_encoded_prefix(value, 26);
    assert(text.take(26) =~= text);
    assert(pow32(0) == 1);
    assert(base32_value(text.take(26)) == Some(value as nat / pow32(0)));
    assert(value as nat / 1 == value as nat);
    assert(base32_value(text) == Some(value as nat));
    lemma_small_mod(value as nat, two_to_128());
}

/// Decodes a textual ULID with `ulid::Ulid::from_str`.
///
/// Trusted: the crate takes a text of 26 characters of its alphabet, in upper
/// or lower case, reads five bits from each and keeps the lower 128 bits; it
/// reports every other text as an error, which becomes `None`.
#[verifier::external_body]
fn decode_ulid(text: &str) -> (value: Option<u128>)
    ensures
        value == ulid_decode(text@),
{
    match ulid::Ulid::from_str(text) {
        Ok(ulid) => Some(ulid.0),
        Err(_) => None,
    }
}

/// Writes a 128-bit value as a ULID through `ulid::Ulid`'s `Display`.
///
/// Trusted: the crate writes 26 characters of its alphabet, five bits each,
/// most significant first.
#[verifier::external_body]
fn encode_ulid(value: u128) -> (text: String)
    ensures
        text@ == ulid_encode(value),
{
    format!("{}", ulid::Ulid(value))
}

/// A 128-bit document identifier. Two identifiers are the same document exactly
/// when their raw values are equal; on the wire an identifier is a ULID.
#[derive(Clone, Copy, PartialEq, Eq, Structural, Hash, Debug)]
pub struct DocId(pub u128);

/// The error of parsing a text that is no document identifier.
#[derive(Clone, Copy, PartialEq, Eq, Structural, Debug)]
pub struct InvalidDocId;

impl InvalidDocId {
    /// The message shown for this error.
    pub fn to_string(&self) -> (message: String)
        ensures
            message@ == "invalid doc id"@,
    {
        "invalid doc id".to_owned()
    }
}

impl DocId {
    /// The identifier that a text stands for, if any.
    pub open spec fn parse_spec(text: Seq<char>) -> Result<DocId, InvalidDocId> {
        match ulid_decode(text) {
            Some(value) => Ok(DocId(value)),
            None => Err(InvalidDocId),
        }
    }

    /// Parses the wire form of an identifier. Upper and lower case stand for the
    /// same identifier.
    pub fn from_str(text: &str) -> (parsed: Result<DocId, InvalidDocId>)
        ensures
            parsed == DocId::parse_spec(text@),
            parsed == DocId::parse_spec(upper(text@)),
    {
        proof {
            lemma_case_does_not_matter(text@);
        }
        match decode_ulid(text) {
            Some(value) => Ok(DocId(value)),
            None => Err(InvalidDocId),
        }
    }

    /// The wire form of this identifier: 26 characters. Parsing it gives the
    /// identifier back.
    pub fn to_string(&self) -> (text: String)
        ensures
            text@ == ulid_encode(self.0),
            text@.len() == 26,
            DocId::parse_spec(text@) == Ok::<DocId, InvalidDocId>(*self),
    {
        proof {
            lemma_encoding_is_decoded_back(self.0);
        }
        encode_ulid(self.0)
    }
}

impl FromStr for DocId {
    type Err = InvalidDocId;

    /// Parses the wire form of an identifier, as [`DocId::from_str`] does.
    fn from_str(text: &str) -> (parsed: Result<Self, Self::Err>)
        ensures
            parsed == DocId::parse_spec(text@),
            parsed == DocId::parse_spec(upper(text@)),
    {
        DocId::from_str(text)
    }
}

} // verus!
