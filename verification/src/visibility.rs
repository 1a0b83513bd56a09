//! 64-bit visibility buffer payload written by the compute ray marcher.
//!
//! Word 0 (`lo`): bits 0-15 material ID (0 = miss/sky), bits 16-18 normal
//! axis, bits 19-31 depth (13 bits, fixed point).
//! Word 1 (`hi`): bits 0-9, 10-19, 20-29 voxel x, y, z (0..1023), bits 30-31 LOD.
use vstd::prelude::*;

verus! {

/// 64-bit visibility buffer entry: two `u32` words per pixel.
#[derive(Clone, Copy, Debug, PartialEq, Eq, Structural)]
pub struct VisibilityPayload {
    /// Material ID (16 bits) | normal index (3 bits) | depth (13 bits).
    pub lo: u32,
    /// Voxel position (10+10+10 bits) | LOD (2 bits).
    pub hi: u32,
}

/// Face normal of a hit, as stored in the visibility buffer.
#[derive(Clone, Copy, Debug, PartialEq, Eq, Structural)]
pub enum NormalIndex {
    PosX,
    NegX,
    PosY,
    NegY,
    PosZ,
    NegZ,
}

/// Numeric code of a normal direction: `PosX` = 0 through `NegZ` = 5.
pub open spec fn spec_normal_code(n: NormalIndex) -> u32 {
    match n {
        NormalIndex::PosX => 0,
        NormalIndex::NegX => 1,
        NormalIndex::PosY => 2,
        NormalIndex::NegY => 3,
        NormalIndex::PosZ => 4,
        NormalIndex::NegZ => 5,
    }
}

impl NormalIndex {
    /// Numeric code of this normal (`PosX` = 0 through `NegZ` = 5).
    pub fn code(self) -> (r: u32)
        ensures
            r == spec_normal_code(self),
    {
        match self {
            NormalIndex::PosX => 0,
            NormalIndex::NegX => 1,
            NormalIndex::PosY => 2,
            NormalIndex::NegY => 3,
            NormalIndex::PosZ => 4,
            NormalIndex::NegZ => 5,
        }
    }
}

/// The 16-bit and 13-bit fields of the low word fit their exec types.
proof fn lemma_lo_field_bounds(lo: u32)
    by (bit_vector)
    ensures
        lo & 0xFFFF < 0x10000,
        (lo >> 19u32) & 0x1FFF < 0x2000,
{
}

impl VisibilityPayload {
    pub open spec fn spec_material_id(self) -> u32 {
        self.lo & 0xFFFF
    }

    pub open spec fn spec_normal_index(self) -> u32 {
        (self.lo >> 16u32) & 0x7
    }

    pub open spec fn spec_depth_fixed(self) -> u32 {
        (self.lo >> 19u32) & 0x1FFF
    }

    pub open spec fn spec_voxel_x(self) -> u32 {
        self.hi & 0x3FF
    }

    pub open spec fn spec_voxel_y(self) -> u32 {
        (self.hi >> 10u32) & 0x3FF
    }

    pub open spec fn spec_voxel_z(self) -> u32 {
        (self.hi >> 20u32) & 0x3FF
    }

    pub open spec fn spec_lod(self) -> u32 {
        (self.hi >> 30u32) & 0x3
    }

    /// The miss sentinel: both words zero.
    pub fn miss() -> (p: Self)
        ensures
            p.lo == 0,
            p.hi == 0,
    {
        VisibilityPayload { lo: 0, hi: 0 }
    }

    /// Pack a visibility entry. The depth keeps its low 13 bits, each voxel
    /// coordinate its low 10 bits, and the LOD its low 2 bits.
    pub fn pack(
        material_id: u16,
        normal: NormalIndex,
        depth_fixed: u16,
        voxel_x: u32,
        voxel_y: u32,
        voxel_z: u32,
        lod: u32,
    ) -> (p: Self)
        ensures
            p.spec_material_id() == material_id as u32,
            p.spec_normal_index() == spec_normal_code(normal),
            p.spec_depth_fixed() == (depth_fixed as u32) & 0x1FFF,
            p.spec_voxel_x() == voxel_x & 0x3FF,
            p.spec_voxel_y() == voxel_y & 0x3FF,
            p.spec_voxel_z() == voxel_z & 0x3FF,
            p.spec_lod() == lod & 0x3,
    {
        let m = material_id as u32;
        let n = normal.code();
        let d = depth_fixed as u32;
        let lo = m | ((n & 0x7) << 16u32) | ((d & 0x1FFF) << 19u32);
        let hi = (voxel_x & 0x3FF) | ((voxel_y & 0x3FF) << 10u32) | ((voxel_z & 0x3FF) << 20u32)
            | ((lod & 0x3) << 30u32);
        assert(lo & 0xFFFF == m && (lo >> 16u32) & 0x7 == n && (lo >> 19u32) & 0x1FFF == d & 0x1FFF
            && hi & 0x3FF == voxel_x & 0x3FF && (hi >> 10u32) & 0x3FF == voxel_y & 0x3FF && (hi
            >> 20u32) & 0x3FF == voxel_z & 0x3FF && (hi >> 30u32) & 0x3 == lod & 0x3) by (bit_vector)
            requires
                m < 0x10000,
                n < 8,
                lo == m | ((n & 0x7) << 16u32) | ((d & 0x1FFF) << 19u32),
                hi == (voxel_x & 0x3FF) | ((voxel_y & 0x3FF) << 10u32) | ((voxel_z & 0x3FF)
                    << 20u32) | ((lod & 0x3) << 30u32),
        ;
        VisibilityPayload { lo, hi }
    }

    /// Material ID (bits 0-15 of `lo`).
    pub fn material_id(self) -> (r: u16)
        ensures
            r == self.spec_material_id(),
    {
        proof {
            lemma_lo_field_bounds(self.lo);
        }
        (self.lo & 0xFFFF) as u16
    }

    /// Normal index (bits 16-18 of `lo`).
    pub fn normal_index(self) -> (r: u32)
        ensures
            r == self.spec_normal_index(),
    {
        (self.lo >> 16u32) & 0x7
    }

    /// Fixed-point depth (bits 19-31 of `lo`).
    pub fn depth_fixed(self) -> (r: u16)
        ensures
            r == self.spec_depth_fixed(),
    {
        proof {
            lemma_lo_field_bounds(self.lo);
        }
        ((self.lo >> 19u32) & 0x1FFF) as u16
    }

    /// Voxel world X (bits 0-9 of `hi`).
    pub fn voxel_x(self) -> (r: u32)
        ensures
            r == self.spec_voxel_x(),
    {
        self.hi & 0x3FF
    }

    /// Voxel world Y (bits 10-19 of `hi`).
    pub fn voxel_y(self) -> (r: u32)
        ensures
            r == self.spec_voxel_y(),
    {
        (self.hi >> 10u32) & 0x3FF
    }

    /// Voxel world Z (bits 20-29 of `hi`).
    pub fn voxel_z(self) -> (r: u32)
        ensures
            r == self.spec_voxel_z(),
    {
        (self.hi >> 20u32) & 0x3FF
    }

    /// LOD level (bits 30-31 of `hi`).
    pub fn lod(self) -> (r: u32)
        ensures
            r == self.spec_lod(),
    {
        (self.hi >> 30u32) & 0x3
    }

    /// Whether this is the miss sentinel (both words zero).
    pub fn is_miss(self) -> (r: bool)
        ensures
            r == (self.lo == 0 && self.hi == 0),
    {
        self.lo == 0 && self.hi == 0
    }
}

/// Unpacking a packed entry gives back every field, within its bit width.
pub proof fn lemma_pack_unpack(
    material_id: u16,
    normal: NormalIndex,
    depth_fixed: u16,
    voxel_x: u32,
    voxel_y: u32,
    voxel_z: u32,
    lod: u32,
    p: VisibilityPayload,
)
    requires
        depth_fixed < 0x2000,
        voxel_x < 1024,
        voxel_y < 1024,
        voxel_z < 1024,
        lod < 4,
        p.spec_material_id() == material_id as u32,
        p.spec_normal_index() == spec_normal_code(normal),
        p.spec_depth_fixed() == (depth_fixed as u32) & 0x1FFF,
        p.spec_voxel_x() == voxel_x & 0x3FF,
        p.spec_voxel_y() == voxel_y & 0x3FF,
        p.spec_voxel_z() == voxel_z & 0x3FF,
        p.spec_lod() == lod & 0x3,
    ensures
        p.spec_material_id() == material_id,
        p.spec_depth_fixed() == depth_fixed,
        p.spec_voxel_x() == voxel_x,
        p.spec_voxel_y() == voxel_y,
        p.spec_voxel_z() == voxel_z,
        p.spec_lod() == lod,
{
    let d = depth_fixed as u32;
    assert(d & 0x1FFF == d && voxel_x & 0x3FF == voxel_x && voxel_y & 0x3FF == voxel_y && voxel_z
        & 0x3FF == voxel_z && lod & 0x3 == lod) by (bit_vector)
        requires
            d < 0x2000,
            voxel_x < 1024,
            voxel_y < 1024,
            voxel_z < 1024,
            lod < 4,
    ;
}

} // verus!
