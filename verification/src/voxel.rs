//! Packed voxel type with a 9-bit material ID and simulation state, brick
//! headers, and world/brick/local coordinate conversions.
//!
//! Bit layout of a voxel (`u16`):
//! - bits 0-8: material ID (0-511)
//! - bits 9-10: variant (0-3)
//! - bits 11-13: level (0-7)
//! - bit 14: is_active flag
//! - bit 15: is_dirty flag
use vstd::prelude::*;

use crate::morton::{morton_encode, spec_morton_encode};

verus! {

/// Packed voxel data stored as a single `u16`.
#[derive(Clone, Copy, Debug, PartialEq, Eq, Structural)]
pub struct PackedVoxel {
    pub packed: u16,
}

impl PackedVoxel {
    /// Material ID held in bits 0-8.
    pub open spec fn spec_id(self) -> u16 {
        self.packed & 0x1FF
    }

    /// Variant held in bits 9-10.
    pub open spec fn spec_variant(self) -> u16 {
        (self.packed >> 9u16) & 0x3
    }

    /// Level held in bits 11-13.
    pub open spec fn spec_level(self) -> u16 {
        (self.packed >> 11u16) & 0x7
    }

    /// Active flag held in bit 14.
    pub open spec fn spec_active(self) -> bool {
        self.packed & 0x4000 != 0
    }

    /// Dirty flag held in bit 15.
    pub open spec fn spec_dirty(self) -> bool {
        self.packed & 0x8000 != 0
    }

    /// The empty voxel: every bit clear.
    pub fn air() -> (v: Self)
        ensures
            v.packed == 0,
    {
        PackedVoxel { packed: 0 }
    }

    /// A voxel with material `id` (truncated to 9 bits) and every other field clear.
    pub fn new(id: u16) -> (v: Self)
        ensures
            v.packed == id & 0x1FF,
            v.spec_id() == id & 0x1FF,
            v.spec_variant() == 0,
            v.spec_level() == 0,
            !v.spec_active(),
            !v.spec_dirty(),
    {
        let v = PackedVoxel { packed: id & 0x1FF };
        let p = v.packed;
        assert(p & 0x1FF == id & 0x1FF && (p >> 9u16) & 0x3 == 0 && (p >> 11u16) & 0x7 == 0 && p
            & 0x4000 == 0 && p & 0x8000 == 0) by (bit_vector)
            requires
                p == id & 0x1FF,
        ;
        v
    }

    /// Material ID (bits 0-8).
    pub fn id(self) -> (r: u16)
        ensures
            r == self.spec_id(),
            r < 512,
    {
        let p = self.packed;
        assert(p & 0x1FF < 512) by (bit_vector);
        p & 0x1FF
    }

    /// Replace the material ID (bits 0-8) with `id` truncated to 9 bits.
    pub fn set_id(&mut self, id: u16)
        ensures
            final(self).spec_id() == id & 0x1FF,
            final(self).spec_variant() == old(self).spec_variant(),
            final(self).spec_level() == old(self).spec_level(),
            final(self).spec_active() == old(self).spec_active(),
            final(self).spec_dirty() == old(self).spec_dirty(),
    {
        let p = self.packed;
        let q = (p & !0x1FFu16) | (id & 0x1FF);
        assert(q & 0x1FF == id & 0x1FF && (q >> 9u16) & 0x3 == (p >> 9u16) & 0x3 && (q >> 11u16)
            & 0x7 == (p >> 11u16) & 0x7 && (q & 0x4000 != 0) == (p & 0x4000 != 0) && (q & 0x8000
            != 0) == (p & 0x8000 != 0)) by (bit_vector)
            requires
                q == (p & !0x1FFu16) | (id & 0x1FF),
        ;
        self.packed = q;
    }

    /// Variant (bits 9-10).
    pub fn variant(self) -> (r: u8)
        ensures
            r == self.spec_variant(),
            r < 4,
    {
        let p = self.packed;
        assert((p >> 9u16) & 0x3 < 4) by (bit_vector);
        ((p >> 9u16) & 0x3) as u8
    }

    /// Replace the variant (bits 9-10) with the low 2 bits of `variant`.
    pub fn set_variant(&mut self, variant: u8)
        ensures
            final(self).spec_variant() == (variant & 0x3) as u16,
            final(self).spec_id() == old(self).spec_id(),
            final(self).spec_level() == old(self).spec_level(),
            final(self).spec_active() == old(self).spec_active(),
            final(self).spec_dirty() == old(self).spec_dirty(),
    {
        let p = self.packed;
        let w = variant as u16;
        let q = (p & !(0x3u16 << 9u16)) | ((w & 0x3) << 9u16);
        assert(w & 0x3 == (variant & 0x3) as u16 && (q >> 9u16) & 0x3 == w & 0x3 && q & 0x1FF == p & 0x1FF && (q >> 11u16) & 0x7 == (p
            >> 11u16) & 0x7 && (q & 0x4000 != 0) == (p & 0x4000 != 0) && (q & 0x8000 != 0) == (p
            & 0x8000 != 0)) by (bit_vector)
            requires
                q == (p & !(0x3u16 << 9u16)) | ((w & 0x3) << 9u16),
                w == variant as u16,
        ;
        self.packed = q;
    }

    /// Level (bits 11-13).
    pub fn level(self) -> (r: u8)
        ensures
            r == self.spec_level(),
            r < 8,
    {
        let p = self.packed;
        assert((p >> 11u16) & 0x7 < 8) by (bit_vector);
        ((p >> 11u16) & 0x7) as u8
    }

    /// Replace the level (bits 11-13) with the low 3 bits of `level`.
    pub fn set_level(&mut self, level: u8)
        ensures
            final(self).spec_level() == (level & 0x7) as u16,
            final(self).spec_id() == old(self).spec_id(),
            final(self).spec_variant() == old(self).spec_variant(),
            final(self).spec_active() == old(self).spec_active(),
            final(self).spec_dirty() == old(self).spec_dirty(),
    {
        let p = self.packed;
        let w = level as u16;
        let q = (p & !(0x7u16 << 11u16)) | ((w & 0x7) << 11u16);
        assert(w & 0x7 == (level & 0x7) as u16 && (q >> 11u16) & 0x7 == w & 0x7 && q & 0x1FF == p & 0x1FF && (q >> 9u16) & 0x3 == (p
            >> 9u16) & 0x3 && (q & 0x4000 != 0) == (p & 0x4000 != 0) && (q & 0x8000 != 0) == (p
            & 0x8000 != 0)) by (bit_vector)
            requires
                q == (p & !(0x7u16 << 11u16)) | ((w & 0x7) << 11u16),
                w == level as u16,
        ;
        self.packed = q;
    }

    /// Whether the active flag (bit 14) is set.
    pub fn is_active(self) -> (r: bool)
        ensures
            r == self.spec_active(),
    {
        (self.packed & 0x4000) != 0
    }

    /// Set or clear the active flag (bit 14).
    pub fn set_active(&mut self, active: bool)
        ensures
            final(self).spec_active() == active,
            final(self).spec_id() == old(self).spec_id(),
            final(self).spec_variant() == old(self).spec_variant(),
            final(self).spec_level() == old(self).spec_level(),
            final(self).spec_dirty() == old(self).spec_dirty(),
    {
        let p = self.packed;
        let q = if active {
            p | 0x4000
        } else {
            p & !0x4000u16
        };
        assert(active ==> q == p | 0x4000);
        assert(!active ==> q == p & !0x4000u16);
        assert((q == p | 0x4000 ==> q & 0x4000 != 0) && (q == p & !0x4000u16 ==> q & 0x4000 == 0)
            && ((q == p | 0x4000 || q == p & !0x4000u16) ==> (q & 0x1FF == p & 0x1FF && (q >> 9u16)
            & 0x3 == (p >> 9u16) & 0x3 && (q >> 11u16) & 0x7 == (p >> 11u16) & 0x7 && (q & 0x8000
            != 0) == (p & 0x8000 != 0)))) by (bit_vector);
        self.packed = q;
    }

    /// Whether the dirty flag (bit 15) is set.
    pub fn is_dirty(self) -> (r: bool)
        ensures
            r == self.spec_dirty(),
    {
        (self.packed & 0x8000) != 0
    }

    /// Set or clear the dirty flag (bit 15).
    pub fn set_dirty(&mut self, dirty: bool)
        ensures
            final(self).spec_dirty() == dirty,
            final(self).spec_id() == old(self).spec_id(),
            final(self).spec_variant() == old(self).spec_variant(),
            final(self).spec_level() == old(self).spec_level(),
            final(self).spec_active() == old(self).spec_active(),
    {
        let p = self.packed;
        let q = if dirty {
            p | 0x8000
        } else {
            p & !0x8000u16
        };
        assert(dirty ==> q == p | 0x8000);
        assert(!dirty ==> q == p & !0x8000u16);
        assert((q == p | 0x8000 ==> q & 0x8000 != 0) && (q == p & !0x8000u16 ==> q & 0x8000 == 0)
            && ((q == p | 0x8000 || q == p & !0x8000u16) ==> (q & 0x1FF == p & 0x1FF && (q >> 9u16)
            & 0x3 == (p >> 9u16) & 0x3 && (q >> 11u16) & 0x7 == (p >> 11u16) & 0x7 && (q & 0x4000
            != 0) == (p & 0x4000 != 0)))) by (bit_vector);
        self.packed = q;
    }

    /// Whether this voxel is air: its material ID is 0, whatever its other fields.
    pub fn is_air(self) -> (r: bool)
        ensures
            r == (self.spec_id() == 0),
    {
        self.id() == 0
    }
}

/// A voxel is fully described by its five fields: two voxels with the same
/// ID, variant, level and flags are the same voxel.
pub proof fn lemma_fields_determine_voxel(a: PackedVoxel, b: PackedVoxel)
    requires
        a.spec_id() == b.spec_id(),
        a.spec_variant() == b.spec_variant(),
        a.spec_level() == b.spec_level(),
        a.spec_active() == b.spec_active(),
        a.spec_dirty() == b.spec_dirty(),
    ensures
        a == b,
{
    let p = a.packed;
    let q = b.packed;
    assert(p == q) by (bit_vector)
        requires
            p & 0x1FF == q & 0x1FF,
            (p >> 9u16) & 0x3 == (q >> 9u16) & 0x3,
            (p >> 11u16) & 0x7 == (q >> 11u16) & 0x7,
            (p & 0x4000 != 0) == (q & 0x4000 != 0),
            (p & 0x8000 != 0) == (q & 0x8000 != 0),
    ;
}

/// Brick metadata stored in a parallel array alongside the brick pool.
#[derive(Clone, Copy, Debug)]
pub struct BrickHeader {
    /// Packed brick coordinate: 9 bits each of x, y and z, then the LOD in bits 27-29.
    pub world_coord_packed: u32,
    /// Frame number when this brick was last accessed.
    pub last_access_frame: u32,
    /// Number of non-air voxels in this brick.
    pub solid_count: u32,
    pub _pad: u32,
}

/// The packed form of a brick coordinate: the low 9 bits of `x`, `y` and `z`
/// in bits 0-8, 9-17 and 18-26, and the low 3 bits of `lod` in bits 27-29.
pub open spec fn spec_pack_coord(x: u32, y: u32, z: u32, lod: u32) -> u32 {
    (x & 0x1FF) | ((y & 0x1FF) << 9u32) | ((z & 0x1FF) << 18u32) | ((lod & 0x7) << 27u32)
}

impl BrickHeader {
    /// Pack a brick coordinate and LOD into 9+9+9+3 bits.
    pub fn pack_coord(x: u32, y: u32, z: u32, lod: u32) -> (r: u32)
        ensures
            r == spec_pack_coord(x, y, z, lod),
    {
        (x & 0x1FF) | ((y & 0x1FF) << 9u32) | ((z & 0x1FF) << 18u32) | ((lod & 0x7) << 27u32)
    }

    /// Unpack the brick coordinate of a packed value, ignoring the LOD bits.
    pub fn unpack_coord(packed: u32) -> (r: [u32; 3])
        ensures
            r[0] == packed & 0x1FF,
            r[1] == (packed >> 9u32) & 0x1FF,
            r[2] == (packed >> 18u32) & 0x1FF,
    {
        let p = packed & 0x7FFFFFF;
        assert(p & 0x1FF == packed & 0x1FF && (p >> 9u32) & 0x1FF == (packed >> 9u32) & 0x1FF && (p
            >> 18u32) & 0x1FF == (packed >> 18u32) & 0x1FF) by (bit_vector)
            requires
                p == packed & 0x7FFFFFF,
        ;
        [p & 0x1FF, (p >> 9u32) & 0x1FF, (p >> 18u32) & 0x1FF]
    }
}

/// Unpacking a packed coordinate gives back the low 9 bits of each axis,
/// whatever the LOD.
pub proof fn lemma_unpack_pack_coord(x: u32, y: u32, z: u32, lod: u32)
    ensures
        ({
            let p = spec_pack_coord(x, y, z, lod);
            &&& p & 0x1FF == x & 0x1FF
            &&& (p >> 9u32) & 0x1FF == y & 0x1FF
            &&& (p >> 18u32) & 0x1FF == z & 0x1FF
            &&& (p >> 27u32) & 0x7 == lod & 0x7
        }),
{
    let p = spec_pack_coord(x, y, z, lod);
    assert(p & 0x1FF == x & 0x1FF && (p >> 9u32) & 0x1FF == y & 0x1FF && (p >> 18u32) & 0x1FF == z
        & 0x1FF && (p >> 27u32) & 0x7 == lod & 0x7) by (bit_vector)
        requires
            p == (x & 0x1FF) | ((y & 0x1FF) << 9u32) | ((z & 0x1FF) << 18u32) | ((lod & 0x7)
                << 27u32),
    ;
}

/// Brick coordinate (floor of `v / 8`) of a world voxel coordinate.
pub open spec fn spec_brick_of(v: i32) -> int {
    v as int / 8
}

/// Offset (`v mod 8`, in `0..8`) of a world voxel coordinate within its brick.
pub open spec fn spec_local_of(v: i32) -> int {
    v as int % 8
}

/// Convert a world voxel coordinate to the coordinate of the brick holding it.
pub fn world_to_brick(x: i32, y: i32, z: i32) -> (r: [i32; 3])
    ensures
        r[0] == spec_brick_of(x),
        r[1] == spec_brick_of(y),
        r[2] == spec_brick_of(z),
{
    [shr3(x), shr3(y), shr3(z)]
}

/// Arithmetic right shift by 3: floor division by 8.
fn shr3(v: i32) -> (r: i32)
    ensures
        r == v as int / 8,
{
    let r = v >> 3u32;
    assert(r == v / 8) by (bit_vector)
        requires
            r == v >> 3u32,
    ;
    r
}

/// Low 3 bits of a world voxel coordinate: its offset within its brick.
fn low3(v: i32) -> (r: u32)
    ensures
        r == v as int % 8,
{
    let m = v & 7;
    assert(m == v % 8) by (bit_vector)
        requires
            m == v & 7,
    ;
    m as u32
}

/// Convert a world voxel coordinate to its offset within its brick.
pub fn world_to_local(x: i32, y: i32, z: i32) -> (r: [u32; 3])
    ensures
        r[0] == spec_local_of(x),
        r[1] == spec_local_of(y),
        r[2] == spec_local_of(z),
        r[0] < 8,
        r[1] < 8,
        r[2] < 8,
{
    [low3(x), low3(y), low3(z)]
}

/// Morton index of a voxel within its brick from its local coordinates
/// (each meant to be in `0..8`).
pub fn brick_local_index(lx: u32, ly: u32, lz: u32) -> (r: u32)
    ensures
        r == spec_morton_encode(lx, ly, lz),
        r < 512,
{
    morton_encode(lx, ly, lz)
}

/// A world coordinate is recovered from its brick and local coordinates:
/// `brick * 8 + local == world`, for every `i32`, negative ones included.
pub proof fn lemma_brick_local_roundtrip(v: i32)
    ensures
        spec_brick_of(v) * 8 + spec_local_of(v) == v,
        0 <= spec_local_of(v) < 8,
{
}

} // verus!
