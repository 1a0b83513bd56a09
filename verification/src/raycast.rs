//! Addressing of the flat, toroidal voxel grid that the CPU ray cast walks.
use vstd::prelude::*;

verus! {

/// Side length of the flat voxel grid.
pub const GRID_SIZE: i32 = 512;

/// Linear index `z * 512^2 + y * 512 + x` of grid coordinates.
pub open spec fn spec_voxel_index(x: int, y: int, z: int) -> int {
    z * GRID_SIZE * GRID_SIZE + y * GRID_SIZE + x
}

/// Linear index of grid coordinates in the flat voxel array, computed in
/// `i32` and converted to `usize` as a cast does.
pub fn voxel_index(x: i32, y: i32, z: i32) -> (r: usize)
    requires
        i32::MIN <= z * GRID_SIZE * GRID_SIZE <= i32::MAX,
        i32::MIN <= z * GRID_SIZE * GRID_SIZE + y * GRID_SIZE <= i32::MAX,
        i32::MIN <= y * GRID_SIZE <= i32::MAX,
        i32::MIN <= spec_voxel_index(x as int, y as int, z as int) <= i32::MAX,
    ensures
        r == spec_voxel_index(x as int, y as int, z as int) as usize,
{
    let s = GRID_SIZE;
    (z * s * s + y * s + x) as usize
}

/// `c` wrapped into `0..512` (mathematical modulus, so negative values wrap too).
pub fn wrap_coord(c: i32) -> (r: i32)
    ensures
        r == c as int % (GRID_SIZE as int),
        0 <= r < GRID_SIZE,
{
    let gs = GRID_SIZE;
    ((c % gs) + gs) % gs
}

/// Index of the voxel at unbounded grid coordinates `c`, each axis wrapped
/// into the toroidal grid.
pub fn wrapped_voxel_index(c: [i32; 3]) -> (r: usize)
    ensures
        r == spec_voxel_index(
            c[0] as int % (GRID_SIZE as int),
            c[1] as int % (GRID_SIZE as int),
            c[2] as int % (GRID_SIZE as int),
        ),
        r < GRID_SIZE * GRID_SIZE * GRID_SIZE,
{
    let x = wrap_coord(c[0]);
    let y = wrap_coord(c[1]);
    let z = wrap_coord(c[2]);
    assert(0 <= z * GRID_SIZE * GRID_SIZE <= 511 * 262144) by (nonlinear_arith)
        requires
            0 <= z < 512,
    ;
    assert(0 <= y * GRID_SIZE <= 511 * 512) by (nonlinear_arith)
        requires
            0 <= y < 512,
    ;
    voxel_index(x, y, z)
}

} // verus!
