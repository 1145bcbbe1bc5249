//! CRC32-IEEE, the checksum that guards journal records against accidental
//! corruption. It is no authentication.

use vstd::prelude::*;

verus! {

/// One step of the reflected division by the IEEE polynomial.
pub open spec fn crc_bit(state: u32) -> u32 {
    if state & 1 == 1 {
        (state >> 1) ^ 0xedb8_8320
    } else {
        state >> 1
    }
}

/// `n` steps of the division.
pub open spec fn crc_bits(state: u32, n: nat) -> u32
    decreases n,
{
    if n == 0 {
        state
    } else {
        crc_bits(crc_bit(state), (n - 1) as nat)
    }
}

/// The division state after one more byte.
pub open spec fn crc_byte(state: u32, byte: u8) -> u32 {
    crc_bits(state ^ (byte as u32), 8)
}

/// The division state after the given bytes.
pub open spec fn crc_state(state: u32, bytes: Seq<u8>) -> u32
    decreases bytes.len(),
{
    if bytes.len() == 0 {
        state
    } else {
        crc_byte(crc_state(state, bytes.drop_last()), bytes.last())
    }
}

/// The CRC32-IEEE checksum of the given bytes.
pub open spec fn crc32_of(bytes: Seq<u8>) -> u32 {
    crc_state(0xffff_ffff, bytes) ^ 0xffff_ffff
}

/// Computes the CRC32-IEEE checksum.
pub fn crc32(bytes: &[u8]) -> (r: u32)
    ensures
        r == crc32_of(bytes@),
{
    let mut state: u32 = 0xffff_ffff;
    let mut i: usize = 0;
    assert(bytes@.take(0) =~= Seq::<u8>::empty());
    while i < bytes.len()
        invariant
            i <= bytes@.len(),
            state == crc_state(0xffff_ffff, bytes@.take(i as int)),
        decreases bytes@.len() - i,
    {
        let ghost before = state;
        state = state ^ (bytes[i] as u32);
        let mut bit: u32 = 0;
        while bit < 8
            invariant
                bit <= 8,
                crc_bits(state, (8 - bit) as nat) == crc_byte(before, bytes@[i as int]),
            decreases 8 - bit,
        {
            state = if state & 1 == 1 {
                (state >> 1) ^ 0xedb8_8320
            } else {
                state >> 1
            };
            bit += 1;
        }
        assert(bytes@.take(i + 1).drop_last() =~= bytes@.take(i as int));
        i += 1;
    }
    assert(bytes@.take(bytes@.len() as int) =~= bytes@);
    state ^ 0xffff_ffff
}

/// No two states meet after the same number of steps.
proof fn lemma_crc_bits_injective(a: u32, b: u32, n: nat)
    requires
        crc_bits(a, n) == crc_bits(b, n),
    ensures
        a == b,
    decreases n,
{
    if n > 0 {
        lemma_crc_bits_injective(crc_bit(a), crc_bit(b), (n - 1) as nat);
        assert(crc_bit(a) == crc_bit(b) ==> a == b) by (bit_vector);
    }
}

/// Steps compose.
proof fn lemma_crc_bits_add(a: u32, m: nat, n: nat)
    ensures
        crc_bits(crc_bits(a, m), n) == crc_bits(a, m + n),
    decreases m,
{
    if m > 0 {
        lemma_crc_bits_add(crc_bit(a), (m - 1) as nat, n);
    }
}

/// What lies above the lowest eight bits only moves down in eight steps.
proof fn lemma_crc_bits_shift(a: u32, v: u32)
    requires
        v < 0x100_0000,
    ensures
        crc_bits(a ^ (v << 8), 8) == crc_bits(a, 8) ^ v,
{
    let a1 = crc_bit(a);
    let a2 = crc_bit(a1);
    let a3 = crc_bit(a2);
    let a4 = crc_bit(a3);
    let a5 = crc_bit(a4);
    let a6 = crc_bit(a5);
    let a7 = crc_bit(a6);
    assert(crc_bit(a ^ (v << 8)) == crc_bit(a) ^ (v << 7)) by (bit_vector)
        requires
            v < 0x100_0000,
    ;
    assert(crc_bit(a1 ^ (v << 7)) == crc_bit(a1) ^ (v << 6)) by (bit_vector)
        requires
            v < 0x100_0000,
    ;
    assert(crc_bit(a2 ^ (v << 6)) == crc_bit(a2) ^ (v << 5)) by (bit_vector)
        requires
            v < 0x100_0000,
    ;
    assert(crc_bit(a3 ^ (v << 5)) == crc_bit(a3) ^ (v << 4)) by (bit_vector)
        requires
            v < 0x100_0000,
    ;
    assert(crc_bit(a4 ^ (v << 4)) == crc_bit(a4) ^ (v << 3)) by (bit_vector)
        requires
            v < 0x100_0000,
    ;
    assert(crc_bit(a5 ^ (v << 3)) == crc_bit(a5) ^ (v << 2)) by (bit_vector)
        requires
            v < 0x100_0000,
    ;
    assert(crc_bit(a6 ^ (v << 2)) == crc_bit(a6) ^ (v << 1)) by (bit_vector)
        requires
            v < 0x100_0000,
    ;
    assert(crc_bit(a7 ^ (v << 1)) == crc_bit(a7) ^ v) by (bit_vector)
        requires
            v < 0x100_0000,
    ;
    reveal_with_fuel(crc_bits, 9);
}

/// Up to four bytes as one word, the first byte lowest.
spec fn word_of(bytes: Seq<u8>) -> u32
    decreases bytes.len(),
{
    if bytes.len() == 0 {
        0
    } else {
        (bytes[0] as u32) ^ (word_of(bytes.skip(1)) << 8)
    }
}

/// A word of `k` bytes has no bit beyond them, and tells the bytes apart.
proof fn lemma_word_of(x: Seq<u8>, y: Seq<u8>)
    requires
        x.len() == y.len() <= 4,
    ensures
        x.len() <= 3 ==> word_of(x) < 0x100_0000,
        x.len() <= 2 ==> word_of(x) < 0x1_0000,
        x.len() <= 1 ==> word_of(x) < 0x100,
        x.len() == 0 ==> word_of(x) == 0,
        word_of(x) == word_of(y) ==> x == y,
    decreases x.len(),
{
    if x.len() > 0 {
        let xs = x.skip(1);
        let ys = y.skip(1);
        lemma_word_of(xs, ys);
        lemma_word_of(ys, xs);
        let (a, b) = (x[0], y[0]);
        let (v, w) = (word_of(xs), word_of(ys));
        assert(v < 0x100_0000 && w < 0x100_0000);
        assert((a as u32) ^ (v << 8) == (b as u32) ^ (w << 8) ==> a == b && v == w) by (bit_vector)
            requires
                v < 0x100_0000,
                w < 0x100_0000,
        ;
        assert(v < 0x1_0000 ==> (a as u32) ^ (v << 8) < 0x100_0000) by (bit_vector);
        assert(v < 0x100 ==> (a as u32) ^ (v << 8) < 0x1_0000) by (bit_vector);
        assert(v == 0 ==> (a as u32) ^ (v << 8) < 0x100) by (bit_vector);
        if word_of(x) == word_of(y) {
            assert(x =~= seq![a] + xs);
            assert(y =~= seq![b] + ys);
        }
    } else {
        assert(x =~= y);
    }
}

/// The state after two runs of bytes.
proof fn lemma_crc_state_add(state: u32, a: Seq<u8>, b: Seq<u8>)
    ensures
        crc_state(state, a + b) == crc_state(crc_state(state, a), b),
    decreases b.len(),
{
    if b.len() == 0 {
        assert(a + b =~= a);
    } else {
        lemma_crc_state_add(state, a, b.drop_last());
        assert((a + b).drop_last() =~= a + b.drop_last());
    }
}

/// Up to four bytes enter the division as one word.
proof fn lemma_crc_state_word(state: u32, bytes: Seq<u8>)
    requires
        bytes.len() <= 4,
    ensures
        crc_state(state, bytes) == crc_bits(state ^ word_of(bytes), 8 * bytes.len()),
    decreases bytes.len(),
{
    if bytes.len() == 0 {
        assert(state ^ 0 == state) by (bit_vector);
    } else {
        let first = bytes[0];
        let rest = bytes.skip(1);
        let v = word_of(rest);
        let next = crc_byte(state, first);
        assert(bytes =~= seq![first] + rest);
        lemma_crc_state_add(state, seq![first], rest);
        assert(seq![first].drop_last() =~= Seq::<u8>::empty());
        assert(crc_state(state, Seq::<u8>::empty()) == state);
        lemma_crc_state_word(next, rest);
        lemma_word_of(rest, rest);
        lemma_crc_bits_shift(state ^ (first as u32), v);
        assert(state ^ ((first as u32) ^ (v << 8)) == (state ^ (first as u32)) ^ (v << 8))
            by (bit_vector);
        lemma_crc_bits_add(state ^ word_of(bytes), 8, 8 * rest.len());
    }
}

/// Different states stay different under the same bytes.
proof fn lemma_crc_state_injective(a: u32, b: u32, bytes: Seq<u8>)
    requires
        crc_state(a, bytes) == crc_state(b, bytes),
    ensures
        a == b,
    decreases bytes.len(),
{
    if bytes.len() > 0 {
        let (x, y) = (crc_state(a, bytes.drop_last()), crc_state(b, bytes.drop_last()));
        let last = bytes.last() as u32;
        lemma_crc_bits_injective(x ^ last, y ^ last, 8);
        assert(x ^ last == y ^ last ==> x == y) by (bit_vector);
        lemma_crc_state_injective(a, b, bytes.drop_last());
    }
}

/// The checksum detects corruption: contents of the same length that differ only
/// within up to four neighbouring bytes have different checksums.
pub proof fn law_checksum_detects_bursts(
    head: Seq<u8>,
    written: Seq<u8>,
    corrupted: Seq<u8>,
    tail: Seq<u8>,
)
    requires
        written.len() == corrupted.len() <= 4,
        written != corrupted,
    ensures
        crc32_of(head + written + tail) != crc32_of(head + corrupted + tail),
{
    let start = crc_state(0xffff_ffff, head);
    let (a, b) = (head + written + tail, head + corrupted + tail);
    if crc32_of(a) == crc32_of(b) {
        let (p, q) = (crc_state(0xffff_ffff, a), crc_state(0xffff_ffff, b));
        assert(p ^ 0xffff_ffff == q ^ 0xffff_ffff ==> p == q) by (bit_vector);
        lemma_crc_state_add(0xffff_ffff, head + written, tail);
        lemma_crc_state_add(0xffff_ffff, head + corrupted, tail);
        lemma_crc_state_add(0xffff_ffff, head, written);
        lemma_crc_state_add(0xffff_ffff, head, corrupted);
        lemma_crc_state_injective(crc_state(start, written), crc_state(start, corrupted), tail);
        lemma_crc_state_word(start, written);
        lemma_crc_state_word(start, corrupted);
        let (v, w) = (word_of(written), word_of(corrupted));
        lemma_crc_bits_injective(start ^ v, start ^ w, 8 * written.len());
        assert(start ^ v == start ^ w ==> v == w) by (bit_vector);
        lemma_word_of(written, corrupted);
    }
}

} // verus!
