//! Ring updates of the toroidal clipmap cascades: when a cascade's center
//! cell moves, only the faces of cells that scrolled into view are rebuilt,
//! unless it moved half the grid or more, which takes a full rebuild.
use vstd::prelude::*;

verus! {

/// Number of clipmap cascades.
pub const CASCADE_COUNT: usize = 6;

/// Half the 512-cell cascade grid.
pub const CLIP_HALF_GRID: i32 = 256;

/// Cell size (in voxels) of cascade `i`: 2, 4, 8, 16, 32, 64.
pub open spec fn spec_cell_size(i: int) -> i32 {
    if i == 0 {
        2
    } else if i == 1 {
        4
    } else if i == 2 {
        8
    } else if i == 3 {
        16
    } else if i == 4 {
        32
    } else {
        64
    }
}

/// Cell size (in voxels) of cascade `i`.
pub fn cell_size(i: usize) -> (r: i32)
    requires
        i < CASCADE_COUNT,
    ensures
        r == spec_cell_size(i as int),
{
    match i {
        0 => 2,
        1 => 4,
        2 => 8,
        3 => 16,
        4 => 32,
        _ => 64,
    }
}

/// How a cascade is brought up to date after its center moved.
pub enum ClipmapUpdate {
    /// The center did not move.
    Unchanged,
    /// Some axis moved half the grid or more: rebuild every cell.
    Full,
    /// Rebuild these (axis, face coordinate) planes of cells, in order.
    Faces(Vec<(u32, i32)>),
}

/// Magnitude of `v`.
pub open spec fn abs_int(v: int) -> int {
    if v >= 0 {
        v
    } else {
        -v
    }
}

/// The `k`-th face entering view along `axis` when the center moves from
/// `o` to `n`: counted inward from the leading edge of the new grid.
pub open spec fn spec_face(o: [i32; 3], n: [i32; 3], axis: int, k: int) -> (u32, i32) {
    let delta = n[axis] - o[axis];
    (axis as u32, if delta > 0 {
        (n[axis] + CLIP_HALF_GRID - 1 - k) as i32
    } else {
        (n[axis] - CLIP_HALF_GRID + k) as i32
    })
}

/// Faces entering view along `axis`, in order.
pub open spec fn spec_axis_faces(o: [i32; 3], n: [i32; 3], axis: int) -> Seq<(u32, i32)> {
    Seq::new(abs_int(n[axis] - o[axis]) as nat, |k: int| spec_face(o, n, axis, k))
}

/// All faces entering view: x faces, then y, then z.
pub open spec fn spec_all_faces(o: [i32; 3], n: [i32; 3]) -> Seq<(u32, i32)> {
    spec_axis_faces(o, n, 0) + spec_axis_faces(o, n, 1) + spec_axis_faces(o, n, 2)
}

/// Whether the move from `o` to `n` can be computed in `i32`.
pub open spec fn move_fits(o: [i32; 3], n: [i32; 3]) -> bool {
    forall|a: int|
        0 <= a < 3 ==> {
            &&& i32::MIN < #[trigger] n[a] - o[a] <= i32::MAX
            &&& i32::MIN + CLIP_HALF_GRID <= n[a] <= i32::MAX - CLIP_HALF_GRID
        }
}

/// Whether plane `f` along `axis` lies inside the cascade grid centered on
/// cell `c`.
pub open spec fn plane_in_grid(c: [i32; 3], axis: int, f: int) -> bool {
    c[axis] - CLIP_HALF_GRID <= f < c[axis] + CLIP_HALF_GRID
}

/// Whether plane `f` along `axis` scrolled into view when the center moved
/// from `o` to `n`: inside the new grid and outside the old one.
pub open spec fn plane_entering(o: [i32; 3], n: [i32; 3], axis: int, f: int) -> bool {
    &&& 0 <= axis < 3
    &&& plane_in_grid(n, axis, f)
    &&& !plane_in_grid(o, axis, f)
}

/// Every face of one axis lies in the new grid and outside the old one, the
/// faces are pairwise distinct, and every entering plane of that axis is
/// among them.
proof fn lemma_axis_faces_exact(o: [i32; 3], n: [i32; 3], axis: int)
    requires
        0 <= axis < 3,
        move_fits(o, n),
        abs_int(n[axis] - o[axis]) < CLIP_HALF_GRID,
    ensures
        forall|k: int|
            0 <= k < spec_axis_faces(o, n, axis).len() ==> {
                let face = #[trigger] spec_axis_faces(o, n, axis)[k];
                face.0 == axis && plane_entering(o, n, axis, face.1 as int)
            },
        forall|k: int, l: int|
            0 <= k < l < spec_axis_faces(o, n, axis).len() ==> #[trigger] spec_axis_faces(o, n, axis)[k].1
                != #[trigger] spec_axis_faces(o, n, axis)[l].1,
        forall|f: i32|
            #[trigger] plane_entering(o, n, axis, f as int) ==> spec_axis_faces(o, n, axis).contains(
                (axis as u32, f),
            ),
{
    let s = spec_axis_faces(o, n, axis);
    assert(i32::MIN + CLIP_HALF_GRID <= n[axis] <= i32::MAX - CLIP_HALF_GRID);
    assert forall|f: i32| #[trigger] plane_entering(o, n, axis, f as int) implies s.contains((axis as u32, f)) by {
        let k = if n[axis] - o[axis] > 0 {
            n[axis] + CLIP_HALF_GRID - 1 - f
        } else {
            f - (n[axis] - CLIP_HALF_GRID)
        };
        assert(s[k] == (axis as u32, f));
    }
}

/// A ring update rebuilds exactly the planes that scrolled into view: each
/// face lies in the new grid and outside the old one along its axis, no
/// face repeats, and every entering plane is among the faces.
pub proof fn lemma_ring_faces_exact(o: [i32; 3], n: [i32; 3])
    requires
        move_fits(o, n),
        forall|a: int| 0 <= a < 3 ==> #[trigger] abs_int(n[a] - o[a]) < CLIP_HALF_GRID,
    ensures
        forall|i: int|
            0 <= i < spec_all_faces(o, n).len() ==> plane_entering(
                o,
                n,
                (#[trigger] spec_all_faces(o, n)[i]).0 as int,
                spec_all_faces(o, n)[i].1 as int,
            ),
        forall|i: int, j: int|
            0 <= i < j < spec_all_faces(o, n).len() ==> #[trigger] spec_all_faces(o, n)[i]
                != #[trigger] spec_all_faces(o, n)[j],
        forall|a: u32, f: i32| plane_entering(o, n, a as int, f as int) ==> #[trigger] spec_all_faces(o, n).contains((a, f)),
{
    let s0 = spec_axis_faces(o, n, 0);
    let s1 = spec_axis_faces(o, n, 1);
    let s2 = spec_axis_faces(o, n, 2);
    let s = spec_all_faces(o, n);
    assert(abs_int(n[0] - o[0]) < CLIP_HALF_GRID);
    assert(abs_int(n[1] - o[1]) < CLIP_HALF_GRID);
    assert(abs_int(n[2] - o[2]) < CLIP_HALF_GRID);
    lemma_axis_faces_exact(o, n, 0);
    lemma_axis_faces_exact(o, n, 1);
    lemma_axis_faces_exact(o, n, 2);
    let l0 = s0.len() as int;
    let l1 = s1.len() as int;
    assert forall|i: int| 0 <= i < s.len() implies #[trigger] s[i] == if i < l0 {
        s0[i]
    } else if i < l0 + l1 {
        s1[i - l0]
    } else {
        s2[i - l0 - l1]
    } by {}
    assert forall|i: int| 0 <= i < s.len() implies plane_entering(o, n, (#[trigger] s[i]).0 as int, s[i].1 as int) by {
        if i < l0 {
            assert(s0[i] == s[i]);
        } else if i < l0 + l1 {
            assert(s1[i - l0] == s[i]);
        } else {
            assert(s2[i - l0 - l1] == s[i]);
        }
    }
    assert forall|i: int, j: int| 0 <= i < j < s.len() implies #[trigger] s[i] != #[trigger] s[j] by {
        if i < l0 && j < l0 {
            assert(s0[i].1 != s0[j].1);
        } else if l0 <= i && j < l0 + l1 {
            assert(s1[i - l0].1 != s1[j - l0].1);
        } else if l0 + l1 <= i {
            assert(s2[i - l0 - l1].1 != s2[j - l0 - l1].1);
        } else if i < l0 && j < l0 + l1 {
            assert(s0[i].0 != s1[j - l0].0);
        } else if i < l0 {
            assert(s0[i].0 != s2[j - l0 - l1].0);
        } else {
            assert(s1[i - l0].0 != s2[j - l0 - l1].0);
        }
    }
    assert forall|a: u32, f: i32| plane_entering(o, n, a as int, f as int) implies #[trigger] s.contains((a, f)) by {
        if a == 0 {
            assert(plane_entering(o, n, 0, f as int));
            assert(s0.contains((0u32, f)));
            let k = choose|k: int| 0 <= k < s0.len() && s0[k] == (0u32, f);
            assert(s[k] == (a, f));
        } else if a == 1 {
            assert(plane_entering(o, n, 1, f as int));
            assert(s1.contains((1u32, f)));
            let k = choose|k: int| 0 <= k < s1.len() && s1[k] == (1u32, f);
            assert(s[l0 + k] == (a, f));
        } else {
            assert(plane_entering(o, n, 2, f as int));
            assert(s2.contains((2u32, f)));
            let k = choose|k: int| 0 <= k < s2.len() && s2[k] == (2u32, f);
            assert(s[l0 + l1 + k] == (a, f));
        }
    }
}

/// Decide how to update a cascade whose center cell moved from
/// `old_center` to `new_center`.
pub fn plan_cascade_update(old_center: [i32; 3], new_center: [i32; 3]) -> (r: ClipmapUpdate)
    requires
        move_fits(old_center, new_center),
    ensures
        r is Unchanged <==> old_center@ == new_center@,
        r is Full <==> (old_center@ != new_center@ && exists|a: int|
            0 <= a < 3 && abs_int(new_center[a] - old_center[a]) >= CLIP_HALF_GRID),
        r matches ClipmapUpdate::Faces(f) ==> f@ == spec_all_faces(old_center, new_center),
        r matches ClipmapUpdate::Faces(f) ==> {
            &&& forall|i: int|
                0 <= i < f@.len() ==> plane_entering(
                    old_center,
                    new_center,
                    (#[trigger] f@[i]).0 as int,
                    f@[i].1 as int,
                )
            &&& forall|i: int, j: int| 0 <= i < j < f@.len() ==> #[trigger] f@[i] != #[trigger] f@[j]
            &&& forall|a: u32, p: i32|
                plane_entering(old_center, new_center, a as int, p as int) ==> #[trigger] f@.contains((a, p))
        },
{
    if old_center[0] == new_center[0] && old_center[1] == new_center[1] && old_center[2]
        == new_center[2] {
        assert(old_center@ =~= new_center@);
        return ClipmapUpdate::Unchanged;
    }
    let mut a: usize = 0;
    while a < 3
        invariant
            a <= 3,
            move_fits(old_center, new_center),
            forall|b: int| 0 <= b < a ==> abs_int(new_center[b] - old_center[b]) < CLIP_HALF_GRID,
        decreases 3 - a,
    {
        let d = new_center[a] - old_center[a];
        let m = if d >= 0 {
            d
        } else {
            -d
        };
        if m >= CLIP_HALF_GRID {
            assert(abs_int(new_center[a as int] - old_center[a as int]) >= CLIP_HALF_GRID);
            return ClipmapUpdate::Full;
        }
        a = a + 1;
    }
    let mut faces: Vec<(u32, i32)> = Vec::new();
    let mut axis: usize = 0;
    while axis < 3
        invariant
            axis <= 3,
            move_fits(old_center, new_center),
            forall|b: int| 0 <= b < 3 ==> abs_int(new_center[b] - old_center[b]) < CLIP_HALF_GRID,
            faces@ == faces_upto(old_center, new_center, axis as int),
        decreases 3 - axis,
    {
        let delta = new_center[axis] - old_center[axis];
        let count = if delta >= 0 {
            delta
        } else {
            -delta
        };
        let mut k: i32 = 0;
        while k < count
            invariant
                0 <= k <= count,
                axis < 3,
                count == abs_int(new_center[axis as int] - old_center[axis as int]),
                count < CLIP_HALF_GRID,
                delta == new_center[axis as int] - old_center[axis as int],
                move_fits(old_center, new_center),
                faces@ == faces_upto(old_center, new_center, axis as int) + spec_axis_faces(
                    old_center,
                    new_center,
                    axis as int,
                ).take(k as int),
            decreases count - k,
        {
            let face_val = if delta > 0 {
                new_center[axis] + CLIP_HALF_GRID - 1 - k
            } else {
                new_center[axis] - CLIP_HALF_GRID + k
            };
            faces.push((axis as u32, face_val));
            k = k + 1;
            assert(faces@ =~= faces_upto(old_center, new_center, axis as int) + spec_axis_faces(
                old_center,
                new_center,
                axis as int,
            ).take(k as int));
        }
        assert(spec_axis_faces(old_center, new_center, axis as int).take(count as int) =~= spec_axis_faces(
            old_center,
            new_center,
            axis as int,
        ));
        axis = axis + 1;
    }
    proof {
        reveal_with_fuel(faces_upto, 4);
        assert(faces_upto(old_center, new_center, 1) =~= spec_axis_faces(old_center, new_center, 0));
        assert(faces_upto(old_center, new_center, 3) =~= spec_all_faces(old_center, new_center));
        lemma_ring_faces_exact(old_center, new_center);
    }
    ClipmapUpdate::Faces(faces)
}

/// Faces of the axes before `axis`.
pub open spec fn faces_upto(o: [i32; 3], n: [i32; 3], axis: int) -> Seq<(u32, i32)>
    decreases axis,
{
    if axis <= 0 {
        Seq::empty()
    } else {
        faces_upto(o, n, axis - 1) + spec_axis_faces(o, n, axis - 1)
    }
}

/// Whether `plan` is the update [`plan_cascade_update`] gives for a move
/// from `o` to `n`.
pub open spec fn plan_of(o: [i32; 3], n: [i32; 3], plan: ClipmapUpdate) -> bool {
    &&& (plan is Unchanged <==> o@ == n@)
    &&& (plan is Full <==> (o@ != n@ && exists|a: int| 0 <= a < 3 && abs_int(n[a] - o[a]) >= CLIP_HALF_GRID))
    &&& (plan matches ClipmapUpdate::Faces(f) ==> f@ == spec_all_faces(o, n))
}

/// Center cells of the cascades.
pub struct VoxelClipmaps {
    centers: [[i32; 3]; CASCADE_COUNT],
}

impl VoxelClipmaps {
    pub closed spec fn center(&self, i: int) -> [i32; 3] {
        self.centers[i]
    }

    /// All cascades centered on cell `(0, 0, 0)`.
    pub fn new() -> (c: Self)
        ensures
            forall|i: int| 0 <= i < CASCADE_COUNT ==> #[trigger] c.center(i) == [0i32, 0, 0],
    {
        VoxelClipmaps { centers: [[0, 0, 0]; CASCADE_COUNT] }
    }

    /// Center cell of cascade `i`.
    pub fn center_of(&self, i: usize) -> (r: [i32; 3])
        requires
            i < CASCADE_COUNT,
        ensures
            r == self.center(i as int),
    {
        self.centers[i]
    }

    /// Recenter every cascade for a full rebuild.
    pub fn build_full(&mut self, centers: [[i32; 3]; CASCADE_COUNT])
        ensures
            forall|i: int| 0 <= i < CASCADE_COUNT ==> #[trigger] final(self).center(i) == centers[i],
    {
        self.centers = centers;
    }

    /// Move each cascade to its new center cell and return, for each cascade
    /// whose center changed (in cascade order), how to bring it up to date;
    /// an empty result means nothing moved and the origins need no upload.
    pub fn update(&mut self, new_centers: [[i32; 3]; CASCADE_COUNT]) -> (r: Vec<(usize, ClipmapUpdate)>)
        requires
            forall|i: int| 0 <= i < CASCADE_COUNT ==> move_fits(#[trigger] old(self).center(i), new_centers[i]),
        ensures
            forall|i: int| 0 <= i < CASCADE_COUNT ==> #[trigger] final(self).center(i) == new_centers[i],
            forall|k: int| 0 <= k < r@.len() ==> {
                let i = (#[trigger] r@[k]).0 as int;
                &&& i < CASCADE_COUNT
                &&& old(self).center(i)@ != new_centers[i]@
                &&& plan_of(old(self).center(i), new_centers[i], r@[k].1)
            },
            forall|k: int, l: int| 0 <= k < l < r@.len() ==> (#[trigger] r@[k]).0 < (#[trigger] r@[l]).0,
            forall|i: int|
                0 <= i < CASCADE_COUNT && old(self).center(i)@ != new_centers[i]@ ==> exists|k: int|
                    0 <= k < r@.len() && (#[trigger] r@[k]).0 == i,
    {
        let mut out: Vec<(usize, ClipmapUpdate)> = Vec::new();
        let ghost old_centers = self.centers;
        assert forall|j: int| 0 <= j < CASCADE_COUNT implies move_fits(#[trigger] old_centers[j], new_centers[j]) by {
            assert(old_centers[j] == old(self).center(j));
        }
        let mut i: usize = 0;
        while i < CASCADE_COUNT
            invariant
                i <= CASCADE_COUNT,
                forall|j: int| 0 <= j < CASCADE_COUNT ==> move_fits(#[trigger] old_centers[j], new_centers[j]),
                forall|j: int| 0 <= j < i ==> #[trigger] self.centers[j] == new_centers[j],
                forall|j: int| i <= j < CASCADE_COUNT ==> #[trigger] self.centers[j] == old_centers[j],
                forall|k: int| 0 <= k < out@.len() ==> {
                    let j = (#[trigger] out@[k]).0 as int;
                    &&& j < i
                    &&& old_centers[j]@ != new_centers[j]@
                    &&& plan_of(old_centers[j], new_centers[j], out@[k].1)
                },
                forall|k: int, l: int| 0 <= k < l < out@.len() ==> (#[trigger] out@[k]).0 < (#[trigger] out@[l]).0,
                forall|j: int|
                    0 <= j < i && old_centers[j]@ != new_centers[j]@ ==> exists|k: int|
                        0 <= k < out@.len() && (#[trigger] out@[k]).0 == j,
            decreases CASCADE_COUNT - i,
        {
            let o = self.centers[i];
            let n = new_centers[i];
            assert(o == old_centers[i as int]);
            assert(move_fits(old_centers[i as int], new_centers[i as int]));
            if o[0] != n[0] || o[1] != n[1] || o[2] != n[2] {
                let plan = plan_cascade_update(o, n);
                let ghost before = out@;
                out.push((i, plan));
                assert(out@[before.len() as int].0 == i);
                assert forall|j: int|
                    0 <= j <= i && old_centers[j]@ != new_centers[j]@ implies exists|k: int|
                        0 <= k < out@.len() && (#[trigger] out@[k]).0 == j by {
                    if j < i {
                        let k = choose|k: int| 0 <= k < before.len() && (#[trigger] before[k]).0 == j;
                        assert(out@[k] == before[k]);
                    } else {
                        assert(out@[before.len() as int].0 == j);
                    }
                }
                assert forall|k: int| 0 <= k < out@.len() implies {
                    let j = (#[trigger] out@[k]).0 as int;
                    &&& j < i + 1
                    &&& old_centers[j]@ != new_centers[j]@
                    &&& plan_of(old_centers[j], new_centers[j], out@[k].1)
                } by {
                    if k < before.len() {
                        assert(out@[k] == before[k]);
                    } else {
                        assert(o@ != n@) by {
                            if o@ == n@ {
                                assert(o[0] == n[0]);
                            }
                        }
                    }
                }
            } else {
                assert(o@ =~= n@);
            }
            self.centers[i] = n;
            i = i + 1;
        }
        out
    }
}

/// A ring update rebuilds one face per cell the center moved along each
/// axis.
pub proof fn lemma_faces_count(o: [i32; 3], n: [i32; 3])
    ensures
        spec_all_faces(o, n).len() == abs_int(n[0] - o[0]) + abs_int(n[1] - o[1]) + abs_int(n[2] - o[2]),
{
}

} // verus!
