//! Morton (Z-order) encoding and decoding for 8x8x8 brick-local coordinates.
//!
//! A Morton code interleaves the bits of `(x, y, z)` into one linear index
//! that keeps neighbouring cells close in memory. With 3 bits per axis the
//! code is 9 bits wide (`0..512`).
use vstd::prelude::*;

verus! {

/// Bit `k` of `v` (0 or 1).
pub open spec fn bit(v: u32, k: u32) -> u32 {
    (v >> k) & 1
}

/// The low 3 bits of `v` spread to bit positions 0, 3 and 6.
pub open spec fn spread3(v: u32) -> u32 {
    bit(v, 0) | (bit(v, 1) << 3) | (bit(v, 2) << 6)
}

/// Bits 0, 3 and 6 of `v` gathered into bits 0, 1 and 2.
pub open spec fn compact3(v: u32) -> u32 {
    bit(v, 0) | (bit(v, 3) << 1) | (bit(v, 6) << 2)
}

/// The 9-bit Morton code of the low 3 bits of `x`, `y` and `z`:
/// bit layout `z2 y2 x2 z1 y1 x1 z0 y0 x0`.
pub open spec fn spec_morton_encode(x: u32, y: u32, z: u32) -> u32 {
    spread3(x) | (spread3(y) << 1) | (spread3(z) << 2)
}

/// The coordinates held by the low 9 bits of a Morton code.
pub open spec fn spec_morton_decode(code: u32) -> (u32, u32, u32) {
    (compact3(code), compact3(code >> 1), compact3(code >> 2))
}

/// Spread the low 3 bits of `v` to bit positions 0, 3 and 6.
pub fn spread_bits_3(v: u32) -> (r: u32)
    ensures
        r == spread3(v),
{
    let a = v & 0x7;
    let b = (a | (a << 4)) & 0x43;
    let c = (b | (b << 2)) & 0x49;
    assert(c == spread3(v)) by (bit_vector)
        requires
            a == v & 0x7,
            b == (a | (a << 4)) & 0x43,
            c == (b | (b << 2)) & 0x49,
    ;
    c
}

/// Gather bits 0, 3 and 6 of `v` back into bits 0, 1 and 2.
pub fn compact_bits_3(v: u32) -> (r: u32)
    ensures
        r == compact3(v),
{
    let a = v & 0x49;
    let b = (a | (a >> 2)) & 0x43;
    let c = (b | (b >> 4)) & 0x7;
    assert(c == compact3(v)) by (bit_vector)
        requires
            a == v & 0x49,
            b == (a | (a >> 2)) & 0x43,
            c == (b | (b >> 4)) & 0x7,
    ;
    c
}

/// Every Morton code is below 512.
pub proof fn lemma_encode_bound(x: u32, y: u32, z: u32)
    ensures
        spec_morton_encode(x, y, z) < 512,
{
    let c = spec_morton_encode(x, y, z);
    assert(c < 512) by (bit_vector)
        requires
            c == spread3(x) | (spread3(y) << 1) | (spread3(z) << 2),
    ;
}

/// Encode `(x, y, z)` (each meant to be in `0..8`; higher bits are ignored)
/// into a 9-bit Morton code.
pub fn morton_encode(x: u32, y: u32, z: u32) -> (code: u32)
    ensures
        code == spec_morton_encode(x, y, z),
        code < 512,
{
    let sx = spread_bits_3(x);
    let sy = spread_bits_3(y);
    let sz = spread_bits_3(z);
    proof {
        lemma_encode_bound(x, y, z);
    }
    sx | (sy << 1) | (sz << 2)
}

/// Decode the low 9 bits of a Morton code back to `(x, y, z)`, each in `0..8`.
pub fn morton_decode(code: u32) -> (r: (u32, u32, u32))
    ensures
        r == spec_morton_decode(code),
        r.0 < 8,
        r.1 < 8,
        r.2 < 8,
{
    let x = compact_bits_3(code);
    let y = compact_bits_3(code >> 1);
    let z = compact_bits_3(code >> 2);
    assert(x < 8 && y < 8 && z < 8) by (bit_vector)
        requires
            x == compact3(code),
            y == compact3(code >> 1),
            z == compact3(code >> 2),
    ;
    (x, y, z)
}

/// Decoding an encoded coordinate gives the coordinate back.
pub proof fn lemma_decode_encode(x: u32, y: u32, z: u32)
    requires
        x < 8,
        y < 8,
        z < 8,
    ensures
        spec_morton_decode(spec_morton_encode(x, y, z)) == (x, y, z),
{
    let c = spec_morton_encode(x, y, z);
    assert(compact3(c) == x && compact3(c >> 1) == y && compact3(c >> 2) == z) by (bit_vector)
        requires
            x < 8,
            y < 8,
            z < 8,
            c == spread3(x) | (spread3(y) << 1) | (spread3(z) << 2),
    ;
}

/// Every 9-bit code is the encoding of the coordinate it decodes to.
pub proof fn lemma_encode_decode(code: u32)
    requires
        code < 512,
    ensures
        ({
            let (x, y, z) = spec_morton_decode(code);
            spec_morton_encode(x, y, z) == code
        }),
{
    let x = compact3(code);
    let y = compact3(code >> 1);
    let z = compact3(code >> 2);
    assert(spread3(x) | (spread3(y) << 1) | (spread3(z) << 2) == code) by (bit_vector)
        requires
            code < 512,
            x == compact3(code),
            y == compact3(code >> 1),
            z == compact3(code >> 2),
    ;
}

/// Distinct coordinates in `0..8` have distinct Morton codes.
pub proof fn lemma_encode_injective(x1: u32, y1: u32, z1: u32, x2: u32, y2: u32, z2: u32)
    requires
        x1 < 8,
        y1 < 8,
        z1 < 8,
        x2 < 8,
        y2 < 8,
        z2 < 8,
        spec_morton_encode(x1, y1, z1) == spec_morton_encode(x2, y2, z2),
    ensures
        x1 == x2 && y1 == y2 && z1 == z2,
{
    lemma_decode_encode(x1, y1, z1);
    lemma_decode_encode(x2, y2, z2);
}


/// Encode table for 8^3 bricks: entry `z * 64 + y * 8 + x` holds the Morton
/// code of `(x, y, z)`.
pub fn encode_lut() -> (lut: Vec<u16>)
    ensures
        lut@.len() == 512,
        forall|i: int|
            0 <= i < 512 ==> #[trigger] lut@[i] as u32 == spec_morton_encode(
                (i % 8) as u32,
                ((i / 8) % 8) as u32,
                (i / 64) as u32,
            ),
{
    let mut lut: Vec<u16> = Vec::new();
    let mut i: u32 = 0;
    while i < 512
        invariant
            i <= 512,
            lut@.len() == i,
            forall|k: int|
                0 <= k < i ==> #[trigger] lut@[k] as u32 == spec_morton_encode(
                    (k % 8) as u32,
                    ((k / 8) % 8) as u32,
                    (k / 64) as u32,
                ),
        decreases 512 - i,
    {
        let x = i % 8;
        let y = (i / 8) % 8;
        let z = i / 64;
        let code = morton_encode(x, y, z);
        lut.push(code as u16);
        i = i + 1;
    }
    lut
}

/// Decode table for 9-bit codes: entry `code` holds the decoded coordinate
/// packed as `x | y << 3 | z << 6`.
pub fn decode_lut() -> (lut: Vec<u16>)
    ensures
        lut@.len() == 512,
        forall|c: int|
            0 <= c < 512 ==> {
                let (x, y, z) = #[trigger] spec_morton_decode(c as u32);
                lut@[c] as u32 == x + 8 * y + 64 * z
            },
{
    let mut lut: Vec<u16> = Vec::new();
    let mut code: u32 = 0;
    while code < 512
        invariant
            code <= 512,
            lut@.len() == code,
            forall|c: int|
                0 <= c < code ==> {
                    let (x, y, z) = #[trigger] spec_morton_decode(c as u32);
                    lut@[c] as u32 == x + 8 * y + 64 * z
                },
        decreases 512 - code,
    {
        let (x, y, z) = morton_decode(code);
        lut.push((x + 8 * y + 64 * z) as u16);
        code = code + 1;
    }
    lut
}

} // verus!
