//! Bits of bytes and words, and of bitmaps made of bytes.

use vstd::prelude::*;



verus! {

/// Bit `j` of the byte `b` is set.
pub open spec fn bit8(b: u8, j: int) -> bool {
    0 <= j < 8 && (b >> (j as u8)) & 1 == 1
}

/// Bit `addr` of a bitmap stored in bytes, eight bits to the byte, lowest
/// bit first.
pub open spec fn bitmap_has(bytes: Seq<u8>, addr: int) -> bool {
    0 <= addr < 8 * bytes.len() && bit8(bytes[addr / 8], addr % 8)
}

/// The byte zero has no bit set.
pub proof fn lemma_bit8_zero(j: int)
    ensures
        !bit8(0, j),
{
    if 0 <= j < 8 {
        let k = j as u8;
        assert((0u8 >> k) & 1 == 0) by (bit_vector);
    }
}

/// The byte 0xFF has every bit set.
pub proof fn lemma_bit8_full(j: int)
    requires
        0 <= j < 8,
    ensures
        bit8(0xFF, j),
{
    let k = j as u8;
    assert((0xFFu8 >> k) & 1 == 1) by (bit_vector)
        requires
            k < 8,
    ;
}

/// Setting bit `j` changes that bit and no other.
pub proof fn lemma_bit8_set(b: u8, j: u8, k: int)
    requires
        j < 8,
    ensures
        bit8(b | (1u8 << j), k) == (k == j || bit8(b, k)),
{
    if 0 <= k < 8 {
        let k8 = k as u8;
        assert((((b | (1u8 << j)) >> k8) & 1 == 1) == (k8 == j || (b >> k8) & 1 == 1))
            by (bit_vector)
            requires
                j < 8,
                k8 < 8,
        ;
    }
}

/// Clearing bit `j` changes that bit and no other.
pub proof fn lemma_bit8_clear(b: u8, j: u8, k: int)
    requires
        j < 8,
    ensures
        bit8(b & !(1u8 << j), k) == (k != j && bit8(b, k)),
{
    if 0 <= k < 8 {
        let k8 = k as u8;
        assert((((b & !(1u8 << j)) >> k8) & 1 == 1) == (k8 != j && (b >> k8) & 1 == 1))
            by (bit_vector)
            requires
                j < 8,
                k8 < 8,
        ;
    }
}

/// A byte holds all the bits of another exactly when masking leaves the
/// other unchanged.
pub proof fn lemma_bit8_subset(a: u8, b: u8)
    ensures
        (a & b == a) <==> (forall|k: int| bit8(a, k) ==> bit8(b, k)),
{
    if a & b == a {
        assert forall|k: int| bit8(a, k) implies bit8(b, k) by {
            let k8 = k as u8;
            assert((a >> k8) & 1 == 1 ==> (b >> k8) & 1 == 1) by (bit_vector)
                requires
                    a & b == a,
                    k8 < 8,
            ;
        }
    } else {
        if forall|k: int| bit8(a, k) ==> bit8(b, k) {
            assert(bit8(a, 0) ==> bit8(b, 0));
            assert(bit8(a, 1) ==> bit8(b, 1));
            assert(bit8(a, 2) ==> bit8(b, 2));
            assert(bit8(a, 3) ==> bit8(b, 3));
            assert(bit8(a, 4) ==> bit8(b, 4));
            assert(bit8(a, 5) ==> bit8(b, 5));
            assert(bit8(a, 6) ==> bit8(b, 6));
            assert(bit8(a, 7) ==> bit8(b, 7));
            assert(a & b == a) by (bit_vector)
                requires
                    (a >> 0u8) & 1 == 1 ==> (b >> 0u8) & 1 == 1,
                    (a >> 1u8) & 1 == 1 ==> (b >> 1u8) & 1 == 1,
                    (a >> 2u8) & 1 == 1 ==> (b >> 2u8) & 1 == 1,
                    (a >> 3u8) & 1 == 1 ==> (b >> 3u8) & 1 == 1,
                    (a >> 4u8) & 1 == 1 ==> (b >> 4u8) & 1 == 1,
                    (a >> 5u8) & 1 == 1 ==> (b >> 5u8) & 1 == 1,
                    (a >> 6u8) & 1 == 1 ==> (b >> 6u8) & 1 == 1,
                    (a >> 7u8) & 1 == 1 ==> (b >> 7u8) & 1 == 1,
            ;
        }
    }
}

/// Two bytes with the same bits are equal.
pub proof fn lemma_bit8_ext(a: u8, b: u8)
    requires
        forall|k: int| 0 <= k < 8 ==> bit8(a, k) == bit8(b, k),
    ensures
        a == b,
{
    lemma_bit8_subset(a, b);
    lemma_bit8_subset(b, a);
    assert(a & b == a);
    assert(b & a == b);
    assert(a == b) by (bit_vector)
        requires
            a & b == a,
            b & a == b,
    ;
}

/// Setting a bit of a bitmap changes that bit and no other.
pub proof fn lemma_bitmap_set(bytes: Seq<u8>, addr: int, k: int)
    requires
        0 <= addr < 8 * bytes.len(),
    ensures
        bitmap_has(bytes.update(addr / 8, bytes[addr / 8] | (1u8 << ((addr % 8) as u8))), k) == (k
            == addr || bitmap_has(bytes, k)),
{
    if 0 <= k < 8 * bytes.len() && k / 8 == addr / 8 {
        lemma_bit8_set(bytes[addr / 8], (addr % 8) as u8, k % 8);
    }
}

/// Clearing a bit of a bitmap changes that bit and no other.
pub proof fn lemma_bitmap_clear(bytes: Seq<u8>, addr: int, k: int)
    requires
        0 <= addr < 8 * bytes.len(),
    ensures
        bitmap_has(bytes.update(addr / 8, bytes[addr / 8] & !(1u8 << ((addr % 8) as u8))), k) == (k
            != addr && bitmap_has(bytes, k)),
{
    if 0 <= k < 8 * bytes.len() && k / 8 == addr / 8 {
        lemma_bit8_clear(bytes[addr / 8], (addr % 8) as u8, k % 8);
    }
}

/// A bitmap of zero bytes holds no bit.
pub proof fn lemma_bitmap_zero(bytes: Seq<u8>, k: int)
    requires
        forall|i: int| 0 <= i < bytes.len() ==> bytes[i] == 0,
    ensures
        !bitmap_has(bytes, k),
{
    lemma_bit8_zero(k % 8);
}

/// A bitmap of bytes 0xFF holds every bit.
pub proof fn lemma_bitmap_full(bytes: Seq<u8>, k: int)
    requires
        forall|i: int| 0 <= i < bytes.len() ==> bytes[i] == 0xFF,
        0 <= k < 8 * bytes.len(),
    ensures
        bitmap_has(bytes, k),
{
    lemma_bit8_full(k % 8);
}

/// Bit `j` of the word `w` is set.
pub open spec fn bit32(w: u32, j: int) -> bool {
    0 <= j < 32 && (w >> (j as u32)) & 1 == 1
}

/// The word zero has no bit set.
pub proof fn lemma_bit32_zero(j: int)
    ensures
        !bit32(0, j),
{
    if 0 <= j < 32 {
        let k = j as u32;
        assert((0u32 >> k) & 1 == 0) by (bit_vector);
    }
}

/// Setting bit `j` changes that bit and no other.
pub proof fn lemma_bit32_set(w: u32, j: u32, k: int)
    requires
        j < 32,
    ensures
        bit32(w | (1u32 << j), k) == (k == j || bit32(w, k)),
{
    if 0 <= k < 32 {
        let k32 = k as u32;
        assert((((w | (1u32 << j)) >> k32) & 1 == 1) == (k32 == j || (w >> k32) & 1 == 1))
            by (bit_vector)
            requires
                j < 32,
                k32 < 32,
        ;
    }
}

/// Clearing bit `j` changes that bit and no other.
pub proof fn lemma_bit32_clear(w: u32, j: u32, k: int)
    requires
        j < 32,
    ensures
        bit32(w & !(1u32 << j), k) == (k != j && bit32(w, k)),
{
    if 0 <= k < 32 {
        let k32 = k as u32;
        assert((((w & !(1u32 << j)) >> k32) & 1 == 1) == (k32 != j && (w >> k32) & 1 == 1))
            by (bit_vector)
            requires
                j < 32,
                k32 < 32,
        ;
    }
}

/// A word below 2^24 that is not zero has one of its low 24 bits set.
pub proof fn lemma_bit24_nonzero(w: u32)
    requires
        w != 0,
        w >> 24u32 == 0,
    ensures
        exists|j: int| 0 <= j < 24 && bit32(w, j),
{
    assert((w >> 0u32) & 1 == 1
            || (w >> 1u32) & 1 == 1
            || (w >> 2u32) & 1 == 1
            || (w >> 3u32) & 1 == 1
            || (w >> 4u32) & 1 == 1
            || (w >> 5u32) & 1 == 1
            || (w >> 6u32) & 1 == 1
            || (w >> 7u32) & 1 == 1
            || (w >> 8u32) & 1 == 1
            || (w >> 9u32) & 1 == 1
            || (w >> 10u32) & 1 == 1
            || (w >> 11u32) & 1 == 1
            || (w >> 12u32) & 1 == 1
            || (w >> 13u32) & 1 == 1
            || (w >> 14u32) & 1 == 1
            || (w >> 15u32) & 1 == 1
            || (w >> 16u32) & 1 == 1
            || (w >> 17u32) & 1 == 1
            || (w >> 18u32) & 1 == 1
            || (w >> 19u32) & 1 == 1
            || (w >> 20u32) & 1 == 1
            || (w >> 21u32) & 1 == 1
            || (w >> 22u32) & 1 == 1
            || (w >> 23u32) & 1 == 1) by (bit_vector)
        requires
            w != 0,
            w >> 24u32 == 0,
    ;
    if (w >> 0u32) & 1 == 1 {
        assert(bit32(w, 0));
    }
    if (w >> 1u32) & 1 == 1 {
        assert(bit32(w, 1));
    }
    if (w >> 2u32) & 1 == 1 {
        assert(bit32(w, 2));
    }
    if (w >> 3u32) & 1 == 1 {
        assert(bit32(w, 3));
    }
    if (w >> 4u32) & 1 == 1 {
        assert(bit32(w, 4));
    }
    if (w >> 5u32) & 1 == 1 {
        assert(bit32(w, 5));
    }
    if (w >> 6u32) & 1 == 1 {
        assert(bit32(w, 6));
    }
    if (w >> 7u32) & 1 == 1 {
        assert(bit32(w, 7));
    }
    if (w >> 8u32) & 1 == 1 {
        assert(bit32(w, 8));
    }
    if (w >> 9u32) & 1 == 1 {
        assert(bit32(w, 9));
    }
    if (w >> 10u32) & 1 == 1 {
        assert(bit32(w, 10));
    }
    if (w >> 11u32) & 1 == 1 {
        assert(bit32(w, 11));
    }
    if (w >> 12u32) & 1 == 1 {
        assert(bit32(w, 12));
    }
    if (w >> 13u32) & 1 == 1 {
        assert(bit32(w, 13));
    }
    if (w >> 14u32) & 1 == 1 {
        assert(bit32(w, 14));
    }
    if (w >> 15u32) & 1 == 1 {
        assert(bit32(w, 15));
    }
    if (w >> 16u32) & 1 == 1 {
        assert(bit32(w, 16));
    }
    if (w >> 17u32) & 1 == 1 {
        assert(bit32(w, 17));
    }
    if (w >> 18u32) & 1 == 1 {
        assert(bit32(w, 18));
    }
    if (w >> 19u32) & 1 == 1 {
        assert(bit32(w, 19));
    }
    if (w >> 20u32) & 1 == 1 {
        assert(bit32(w, 20));
    }
    if (w >> 21u32) & 1 == 1 {
        assert(bit32(w, 21));
    }
    if (w >> 22u32) & 1 == 1 {
        assert(bit32(w, 22));
    }
    if (w >> 23u32) & 1 == 1 {
        assert(bit32(w, 23));
    }
}

} // verus!
