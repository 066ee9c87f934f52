//! Byte-level views of 32-bit words and little-endian values of byte
//! strings. Guest memory is word-addressed; these functions relate the
//! words to the byte semantics that the privileged calls are specified in.

use vstd::prelude::*;
use vstd::arithmetic::power2::pow2;

verus! {

/// Byte `k` (0 = least significant) of a little-endian 32-bit word.
pub open spec fn word_byte(w: u32, k: u32) -> u8 {
    if k == 0 {
        (w & 0xff) as u8
    } else if k == 1 {
        ((w >> 8) & 0xff) as u8
    } else if k == 2 {
        ((w >> 16) & 0xff) as u8
    } else {
        ((w >> 24) & 0xff) as u8
    }
}

/// The word `w` with byte `k` (0 = least significant) replaced by `b`.
pub open spec fn set_word_byte(w: u32, k: u32, b: u8) -> u32 {
    if k == 0 {
        (w & 0xffffff00) | (b as u32)
    } else if k == 1 {
        (w & 0xffff00ff) | ((b as u32) << 8)
    } else if k == 2 {
        (w & 0xff00ffff) | ((b as u32) << 16)
    } else {
        (w & 0x00ffffff) | ((b as u32) << 24)
    }
}

/// The 32-bit word whose big-endian bytes are `b0 b1 b2 b3`.
pub open spec fn word_be(b0: u8, b1: u8, b2: u8, b3: u8) -> u32 {
    ((b0 as u32) << 24) | ((b1 as u32) << 16) | ((b2 as u32) << 8) | (b3 as u32)
}

/// Value of a byte string read as a little-endian unsigned integer.
pub open spec fn le_val(s: Seq<u8>) -> nat
    decreases s.len(),
{
    if s.len() == 0 {
        0
    } else {
        (s[0] + 256 * le_val(s.skip(1))) as nat
    }
}

/// Reassembling a word from its big-endian bytes yields the word, and
/// reading the bytes of a reassembled word yields the bytes.
pub proof fn lemma_word_be(w: u32, b0: u8, b1: u8, b2: u8, b3: u8)
    ensures
        word_be(word_byte(w, 3), word_byte(w, 2), word_byte(w, 1), word_byte(w, 0)) == w,
        word_byte(word_be(b0, b1, b2, b3), 3) == b0,
        word_byte(word_be(b0, b1, b2, b3), 2) == b1,
        word_byte(word_be(b0, b1, b2, b3), 1) == b2,
        word_byte(word_be(b0, b1, b2, b3), 0) == b3,
{
    assert(word_be(word_byte(w, 3), word_byte(w, 2), word_byte(w, 1), word_byte(w, 0)) == w)
        by (bit_vector);
    assert(word_byte(word_be(b0, b1, b2, b3), 3) == b0) by (bit_vector);
    assert(word_byte(word_be(b0, b1, b2, b3), 2) == b1) by (bit_vector);
    assert(word_byte(word_be(b0, b1, b2, b3), 1) == b2) by (bit_vector);
    assert(word_byte(word_be(b0, b1, b2, b3), 0) == b3) by (bit_vector);
}

/// A byte string of length `n` has a little-endian value below `2^(8n)`.
pub proof fn lemma_le_val_bound(s: Seq<u8>)
    ensures
        le_val(s) < pow2(8 * s.len()),
    decreases s.len(),
{
    vstd::arithmetic::power2::lemma_pow2_pos(8 * s.len());
    if s.len() > 0 {
        lemma_le_val_bound(s.skip(1));
        assert(8 * s.len() == 8 * (s.len() - 1) + 8);
        vstd::arithmetic::power2::lemma_pow2_adds(8 * (s.len() - 1) as nat, 8);
        vstd::arithmetic::power2::lemma2_to64();
        assert(s[0] + 256 * le_val(s.skip(1)) < 256 * pow2(8 * (s.len() - 1) as nat)) by {
            assert(le_val(s.skip(1)) + 1 <= pow2(8 * (s.len() - 1) as nat));
            assert(256 * (le_val(s.skip(1)) + 1) <= 256 * pow2(8 * (s.len() - 1) as nat))
                by (nonlinear_arith)
                requires
                    le_val(s.skip(1)) + 1 <= pow2(8 * (s.len() - 1) as nat),
            ;
        }
    }
}

/// Two byte strings of the same length with the same little-endian value
/// are equal.
pub proof fn lemma_le_val_inj(a: Seq<u8>, b: Seq<u8>)
    requires
        a.len() == b.len(),
        le_val(a) == le_val(b),
    ensures
        a == b,
    decreases a.len(),
{
    if a.len() > 0 {
        let x = le_val(a.skip(1));
        let y = le_val(b.skip(1));
        assert(a[0] == b[0] && x == y) by (nonlinear_arith)
            requires
                a[0] < 256,
                b[0] < 256,
                a[0] + 256 * x == b[0] + 256 * y,
        ;
        lemma_le_val_inj(a.skip(1), b.skip(1));
        assert(a =~= b) by {
            assert(forall|i: int|
                0 < i < a.len() ==> a[i] == a.skip(1)[i - 1] && b[i] == b.skip(1)[i - 1]);
        }
    } else {
        assert(a =~= b);
    }
}

/// Extract byte `k` of a word.
pub fn byte_of_word(w: u32, k: u32) -> (r: u8)
    requires
        k < 4,
    ensures
        r == word_byte(w, k),
{
    if k == 0 {
        (w & 0xff) as u8
    } else if k == 1 {
        ((w >> 8) & 0xff) as u8
    } else if k == 2 {
        ((w >> 16) & 0xff) as u8
    } else {
        ((w >> 24) & 0xff) as u8
    }
}

/// Replace byte `k` of a word.
pub fn set_byte_of_word(w: u32, k: u32, b: u8) -> (r: u32)
    requires
        k < 4,
    ensures
        r == set_word_byte(w, k, b),
{
    if k == 0 {
        (w & 0xffffff00) | (b as u32)
    } else if k == 1 {
        (w & 0xffff00ff) | ((b as u32) << 8u32)
    } else if k == 2 {
        (w & 0xff00ffff) | ((b as u32) << 16u32)
    } else {
        (w & 0x00ffffff) | ((b as u32) << 24u32)
    }
}

/// Assemble a word from its big-endian bytes.
pub fn word_from_be(b0: u8, b1: u8, b2: u8, b3: u8) -> (r: u32)
    ensures
        r == word_be(b0, b1, b2, b3),
{
    ((b0 as u32) << 24u32) | ((b1 as u32) << 16u32) | ((b2 as u32) << 8u32) | (b3 as u32)
}

} // verus!
