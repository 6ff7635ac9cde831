//! Applying a keystream to data, and choosing the direction of the operation.

use vstd::prelude::*;
use crate::automaton::keystream;

verus! {

/// The bytes of `data` xor-ed position by position with those of `keystream`,
/// as far as the shorter of the two goes.
pub open spec fn xor_seq(data: Seq<u8>, keystream: Seq<u8>) -> Seq<u8> {
    let n = if data.len() <= keystream.len() {
        data.len()
    } else {
        keystream.len()
    };
    Seq::new(n, |i: int| data[i] ^ keystream[i])
}

/// Xors each byte of `data` with the byte at the same position of `keystream`;
/// the result is as long as the shorter input.
pub fn combine(data: &[u8], keystream: &[u8]) -> (out: Vec<u8>)
    ensures
        out@ == xor_seq(data@, keystream@),
        out@.len() == if data@.len() <= keystream@.len() {
            data@.len()
        } else {
            keystream@.len()
        },
        forall|i: int| 0 <= i < out@.len() ==> #[trigger] out@[i] == data@[i] ^ keystream@[i],
{
    let n: usize = if data.len() <= keystream.len() {
        data.len()
    } else {
        keystream.len()
    };
    let mut out: Vec<u8> = Vec::with_capacity(n);
    let mut i: usize = 0;
    while i < n
        invariant
            i <= n,
            n <= data@.len(),
            n <= keystream@.len(),
            out@.len() == i,
            forall|j: int| 0 <= j < i ==> #[trigger] out@[j] == data@[j] ^ keystream@[j],
        decreases n - i,
    {
        out.push(data[i] ^ keystream[i]);
        i = i + 1;
    }
    assert(out@ =~= xor_seq(data@, keystream@));
    out
}

/// Combining twice with a keystream at least as long as the data gives the
/// data back.
pub proof fn lemma_combine_involution(data: Seq<u8>, keystream: Seq<u8>)
    requires
        keystream.len() >= data.len(),
    ensures
        xor_seq(xor_seq(data, keystream), keystream) == data,
{
    let once = xor_seq(data, keystream);
    let twice = xor_seq(once, keystream);
    assert forall|i: int| 0 <= i < data.len() implies #[trigger] twice[i] == data[i] by {
        let d = data[i];
        let k = keystream[i];
        assert((d ^ k) ^ k == d) by (bit_vector);
    }
    assert(twice =~= data);
}

/// Encrypting data with the keystream of its own length and decrypting the
/// result with the keystream regenerated from the same rule number and
/// iteration count gives the data back.
pub proof fn lemma_round_trip(data: Seq<u8>, rule_number: u8, iterations: nat)
    ensures
        ({
            let pad = keystream(data.len(), rule_number, iterations);
            let cipher = xor_seq(data, pad);
            xor_seq(cipher, keystream(cipher.len(), rule_number, iterations)) == data
        }),
{
    let pad = keystream(data.len(), rule_number, iterations);
    lemma_combine_involution(data, pad);
}

/// The direction of an operation.
#[derive(Clone, Copy, Debug, PartialEq, Eq)]
pub enum Mode {
    Encrypt,
    Decrypt,
}

/// Why no direction could be chosen.
#[derive(Clone, Copy, Debug, PartialEq, Eq)]
pub enum SelectorError {
    /// Neither an input to encrypt nor one to decrypt was given.
    Missing,
    /// Both an input to encrypt and one to decrypt were given.
    Conflicting,
}

/// Picks the direction from the two mutually exclusive inputs and hands back
/// the input that was given.
pub fn select_mode(encrypt: Option<String>, decrypt: Option<String>) -> (r: Result<
    (Mode, String),
    SelectorError,
>)
    ensures
        match (encrypt, decrypt) {
            (Some(e), None) => r == Ok::<(Mode, String), SelectorError>((Mode::Encrypt, e)),
            (None, Some(d)) => r == Ok::<(Mode, String), SelectorError>((Mode::Decrypt, d)),
            (None, None) => r == Err::<(Mode, String), SelectorError>(SelectorError::Missing),
            (Some(_), Some(_)) => r == Err::<(Mode, String), SelectorError>(
                SelectorError::Conflicting,
            ),
        },
{
    match (encrypt, decrypt) {
        (Some(e), None) => Ok((Mode::Encrypt, e)),
        (None, Some(d)) => Ok((Mode::Decrypt, d)),
        (None, None) => Err(SelectorError::Missing),
        (Some(_), Some(_)) => Err(SelectorError::Conflicting),
    }
}

} // verus!
