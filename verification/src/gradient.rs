//! The gradient hash: from the coordinates of a lattice corner to the
//! direction of the unit gradient attached to it.

use vstd::prelude::*;

verus! {

/// Key of the first mixing round.
pub const KEY_A: u32 = 0x730d_319b;

/// Key of the second and third mixing rounds.
pub const KEY_B: u32 = 0x6373_cd28;

/// The 32 bits of `v` moved `n` places towards the high end; the bits pushed
/// out at the top come back in at the bottom. Defined for `n < 32`.
pub open spec fn rotl32(v: u32, n: u32) -> u32 {
    if n == 0 {
        v
    } else {
        (v << n) | (v >> ((32 - n) as u32))
    }
}

/// The 32 bits of `v` moved `n` places towards the low end; the bits pushed
/// out at the bottom come back in at the top. Defined for `n < 32`.
pub open spec fn rotr32(v: u32, n: u32) -> u32 {
    if n == 0 {
        v
    } else {
        (v >> n) | (v << ((32 - n) as u32))
    }
}

/// `u32::rotate_left` of the standard library. Its documentation describes a
/// shift to the left whose truncated bits wrap to the low end; the contract
/// says so for every amount below the width of the integer.
pub assume_specification[ u32::rotate_left ](v: u32, n: u32) -> (r: u32)
    ensures
        n < 32 ==> r == rotl32(v, n),
;

/// `u32::rotate_right` of the standard library. Its documentation describes a
/// shift to the right whose truncated bits wrap to the high end; the contract
/// says so for every amount below the width of the integer.
pub assume_specification[ u32::rotate_right ](v: u32, n: u32) -> (r: u32)
    ensures
        n < 32 ==> r == rotr32(v, n),
;

/// One keyed mixing round: `v` xor-ed with two rotations of itself and a key.
pub open spec fn mix(v: u32, r1: u32, r2: u32, key: u32) -> u32 {
    v ^ (rotl32(v, r1) ^ rotl32(v, r2) ^ key)
}

/// The byte that [`hash`] assigns to `value`: three mixing rounds, a rotation
/// to the right by the low four bits of `value`, and the low eight bits of
/// what is left.
pub open spec fn hash_spec(value: u32) -> u8 {
    let round1 = mix(value, 3, 17, KEY_A);
    let round2 = mix(round1, 4, 27, KEY_B);
    let round3 = mix(round2, 6, 21, KEY_B);
    rotr32(round3, value & 0xf) as u8
}

/// Mixes a 32-bit value down to one byte.
pub fn hash(value: u32) -> (b: u8)
    ensures
        b == hash_spec(value),
{
    let mut keyed: u32 = value;
    keyed ^= keyed.rotate_left(3) ^ keyed.rotate_left(17) ^ KEY_A;
    keyed ^= keyed.rotate_left(4) ^ keyed.rotate_left(27) ^ KEY_B;
    keyed ^= keyed.rotate_left(6) ^ keyed.rotate_left(21) ^ KEY_B;
    let turn: u32 = value & 0xf;
    assert(value & 0xf < 32) by (bit_vector);
    #[verifier::truncate]
    (keyed.rotate_right(turn) as u8)
}

/// The 32-bit word that stands for the lattice corner `(x, y)`.
pub open spec fn corner_word(x: u32, y: u32) -> u32 {
    x | rotl32(y, 16)
}

/// The direction index of the gradient at corner `(x, y)`: the gradient is the
/// unit vector at the angle `index / 255` of a full turn.
pub open spec fn gradient_index_spec(x: u32, y: u32) -> u8 {
    hash_spec(corner_word(x, y))
}

/// Computes the direction index of the gradient at the lattice corner `(x, y)`.
pub fn gradient_index(x: u32, y: u32) -> (index: u8)
    ensures
        index == gradient_index_spec(x, y),
{
    hash(x | y.rotate_left(16))
}

/// The hash on a few chosen words, worked out from its definition.
pub proof fn lemma_hash_examples()
    ensures
        hash_spec(0) == 47,
        hash_spec(1) == 211,
        hash_spec(0x1_0000) == 160,
        hash_spec(0x1_0001) == 20,
        hash_spec(0xffff_ffff) == 139,
        gradient_index_spec(0, 0) == 47,
        gradient_index_spec(0, 1) == 160,
        gradient_index_spec(1, 0) == 211,
        gradient_index_spec(1, 1) == 20,
{
    assert(hash_spec(0) == 47) by (bit_vector);
    assert(hash_spec(1) == 211) by (bit_vector);
    assert(hash_spec(0x1_0000) == 160) by (bit_vector);
    assert(hash_spec(0x1_0001) == 20) by (bit_vector);
    assert(hash_spec(0xffff_ffff) == 139) by (bit_vector);
    assert(corner_word(0, 0) == 0) by (bit_vector);
    assert(corner_word(0, 1) == 0x1_0000) by (bit_vector);
    assert(corner_word(1, 0) == 1) by (bit_vector);
    assert(corner_word(1, 1) == 0x1_0001) by (bit_vector);
}

} // verus!
