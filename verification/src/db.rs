//! The layout of stored state: the key of a user's personal document and the
//! sixteen bytes that stand for a document identifier.

use crate::doc_id::DocId;
use vstd::arithmetic::div_mod::{lemma_basic_div, lemma_div_denominator};
use vstd::prelude::*;
use vstd::string::StringExecFns;

verus! {

/// 256 to the power of `n`.
pub open spec fn pow256(n: nat) -> nat
    decreases n,
{
    if n == 0 {
        1
    } else {
        256 * pow256((n - 1) as nat)
    }
}

/// The number that a byte string stands for, most significant byte first.
pub open spec fn be_value(bytes: Seq<u8>) -> nat
    decreases bytes.len(),
{
    if bytes.len() == 0 {
        0
    } else {
        be_value(bytes.drop_last()) * 256 + bytes.last() as nat
    }
}

/// The key under which the personal document of `user` is stored.
pub open spec fn personal_doc_key_of(user: Seq<char>) -> Seq<char> {
    user + ":personal_doc"@
}

proof fn lemma_pow256_values()
    ensures
        pow256(15) == 0x100_0000_0000_0000_0000_0000_0000_0000,
        pow256(16) == 0x1_0000_0000_0000_0000_0000_0000_0000_0000,
{
    reveal_with_fuel(pow256, 17);
}

proof fn lemma_pow256_grows(i: nat, j: nat)
    requires
        i <= j,
    ensures
        1 <= pow256(i) <= pow256(j),
    decreases j,
{
    if j == 0 {
    } else if i == j {
        lemma_pow256_grows((i - 1) as nat, (j - 1) as nat);
    } else {
        lemma_pow256_grows(i, (j - 1) as nat);
    }
}

/// A string of `n` bytes stands for a number below 256 to the power of `n`.
pub proof fn lemma_be_value_bound(bytes: Seq<u8>)
    ensures
        be_value(bytes) < pow256(bytes.len()),
    decreases bytes.len(),
{
    if bytes.len() > 0 {
        lemma_be_value_bound(bytes.drop_last());
    }
}

/// Two byte strings of the same length that stand for the same number are the
/// same string.
pub proof fn lemma_be_value_injective(a: Seq<u8>, b: Seq<u8>)
    requires
        a.len() == b.len(),
        be_value(a) == be_value(b),
    ensures
        a == b,
    decreases a.len(),
{
    if a.len() > 0 {
        lemma_be_value_injective(a.drop_last(), b.drop_last());
        assert(a =~= a.drop_last().push(a.last()));
        assert(b =~= b.drop_last().push(b.last()));
    } else {
        assert(a =~= b);
    }
}

/// The key under which the personal document of `user` is stored:
/// `<user>:personal_doc`.
pub fn personal_doc_key(user: &str) -> (key: String)
    ensures
        key@ == personal_doc_key_of(user@),
{
    let mut key = user.to_owned();
    key.append(":personal_doc");
    key
}

/// Reads a document identifier from its stored form: sixteen bytes, most
/// significant first. Any other number of bytes is no identifier.
pub fn doc_id_from_bytes(bytes: &[u8]) -> (doc: Option<DocId>)
    ensures
        match doc {
            Some(doc) => bytes@.len() == 16 && doc.0 == be_value(bytes@),
            None => bytes@.len() != 16,
        },
{
    if bytes.len() != 16 {
        return None;
    }
    let mut value: u128 = 0;
    let mut i: usize = 0;
    while i < 16
        invariant
            i <= 16,
            bytes.len() == 16,
            value == be_value(bytes@.take(i as int)),
        decreases 16 - i,
    {
        proof {
            lemma_be_value_bound(bytes@.take(i as int));
            lemma_pow256_grows(i as nat, 15);
            lemma_pow256_values();
            assert(bytes@.take(i as int + 1).drop_last() =~= bytes@.take(i as int));
            assert(bytes@.take(i as int + 1).last() == bytes@[i as int]);
        }
        value = value * 256 + bytes[i] as u128;
        i += 1;
    }
    assert(bytes@.take(16) =~= bytes@);
    Some(DocId(value))
}

/// Writes a document identifier in its stored form: sixteen bytes, most
/// significant first.
pub fn doc_id_to_bytes(doc: DocId) -> (bytes: Vec<u8>)
    ensures
        bytes@.len() == 16,
        be_value(bytes@) == doc.0,
{
    let value = doc.0;
    let mut bytes: Vec<u8> = Vec::new();
    let mut divisor: u128 = 0x100_0000_0000_0000_0000_0000_0000_0000;
    let mut i: usize = 0;
    proof {
        lemma_pow256_values();
        lemma_basic_div(value as int, pow256(16) as int);
    }
    while i < 16
        invariant
            i <= 16,
            value == doc.0,
            bytes@.len() == i,
            i < 16 ==> divisor == pow256((15 - i) as nat),
            be_value(bytes@) == value as nat / pow256((16 - i) as nat),
        decreases 16 - i,
    {
        proof {
            lemma_pow256_grows(0, (15 - i) as nat);
        }
        let shifted = value / divisor;
        let byte = (shifted % 256) as u8;
        proof {
            let low = pow256((15 - i) as nat);
            assert(pow256((16 - i) as nat) == 256 * low);
            lemma_div_denominator(value as int, low as int, 256);
            assert((value as int / low as int) / 256 == value as int / (low as int * 256));
            assert(bytes@.push(byte).drop_last() =~= bytes@);
            assert(be_value(bytes@.push(byte)) == be_value(bytes@) * 256 + byte as nat);
            if i < 15 {
                assert(low == 256 * pow256((14 - i) as nat));
            }
        }
        bytes.push(byte);
        if i < 15 {
            divisor = divisor / 256;
        }
        i += 1;
    }
    assert(pow256(0) == 1);
    assert(be_value(bytes@) == value as nat / pow256(0));
    bytes
}

} // verus!
