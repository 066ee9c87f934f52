//! SHA-256 block compression, delegated to a cryptographic primitive.
//!
//! The compression function itself is named, not restated: `sha_compress`
//! stands for what the primitive returns, a function of the state and the
//! block alone, and the privileged-call contract is exact over that name.

use vstd::prelude::*;
use crate::bytes::{word_be, word_byte};
use crate::monitor::bytes_of;

verus! {

/// What SHA-256 block compression returns for a state of eight words and
/// a block of 64 bytes.
pub uninterp spec fn sha_compress(state: Seq<u32>, block: Seq<u8>) -> Seq<u32>;

/// Relies on sha2::compress256: compresses one 64-byte block into the
/// eight-word state; the result is a function of state and block alone,
/// and remains eight words.
#[verifier::external_body]
pub fn compress_block(state: &mut Vec<u32>, block: &Vec<u8>)
    requires
        old(state)@.len() == 8,
        block@.len() == 64,
    ensures
        final(state)@ == sha_compress(old(state)@, block@),
        final(state)@.len() == 8,
{
    let mut st = [0u32; 8];
    st.copy_from_slice(&state[..]);
    let arr = generic_array::GenericArray::<u8, generic_array::typenum::U64>::clone_from_slice(
        &block[..],
    );
    sha2::compress256(&mut st, &[arr]);
    state.clear();
    state.extend_from_slice(&st);
}

/// The big-endian words held by a byte string, one per four bytes.
pub open spec fn be_words(b: Seq<u8>) -> Seq<u32> {
    Seq::new(b.len() / 4, |i: int| word_be(b[4 * i], b[4 * i + 1], b[4 * i + 2], b[4 * i + 3]))
}

/// The big-endian byte serialization of a word sequence.
pub open spec fn be_state_bytes(s: Seq<u32>) -> Seq<u8> {
    Seq::new((4 * s.len()) as nat, |i: int| word_byte(s[i / 4], (3 - (i % 4)) as u32))
}

/// One block of the sha privileged call: 32 bytes from each of the two
/// half-block pointers.
pub open spec fn sha_block(m: Map<u32, u32>, b1: u32, b2: u32) -> Seq<u8> {
    bytes_of(m, b1, 32) + bytes_of(m, b2, 32)
}

/// The state after compressing `count` successive blocks read from
/// memory, both half-block pointers advancing by 64 bytes per block.
pub open spec fn sha_fold(state: Seq<u32>, m: Map<u32, u32>, b1: u32, b2: u32, count: nat) -> Seq<
    u32,
>
    decreases count,
{
    if count == 0 {
        state
    } else {
        sha_fold(
            sha_compress(state, sha_block(m, b1, b2)),
            m,
            (b1 + 64) as u32,
            (b2 + 64) as u32,
            (count - 1) as nat,
        )
    }
}

/// Serializing the big-endian words parsed from a 32-byte string gives
/// the string back: the byte-swap round trip is the identity.
pub proof fn lemma_be_round_trip(b: Seq<u8>)
    requires
        b.len() % 4 == 0,
    ensures
        be_state_bytes(be_words(b)) == b,
{
    let w = be_words(b);
    let r = be_state_bytes(w);
    assert forall|i: int| 0 <= i < b.len() implies r[i] == b[i] by {
        let q = i / 4;
        let k = i % 4;
        crate::bytes::lemma_word_be(0, b[4 * q], b[4 * q + 1], b[4 * q + 2], b[4 * q + 3]);
        assert(w[q] == word_be(b[4 * q], b[4 * q + 1], b[4 * q + 2], b[4 * q + 3]));
        assert(4 * q + k == i);
    }
    assert(r =~= b);
}

} // verus!
