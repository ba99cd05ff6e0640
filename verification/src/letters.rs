//! Indexed triangle meshes, and the operators that glyphs are assembled with.
//!
//! A [`Model`] owns a list of vertices and a list of triangles, each triangle
//! being three indices into the vertex list. Its mathematical counterpart is
//! [`Mesh`], over which every contract in this module is stated. Triangles
//! that list their corners counter-clockwise face the viewer.

use crate::error::Error;
use crate::fixed::{fx_mul, lemma_fx_mul_unit, sat_add, sat_sub, HALF, MINUS_UNIT, UNIT};
use crate::geometry::{lemma_append_keeps_wf, lemma_flip_keeps_wf};
use vstd::prelude::*;

verus! {

/// A corner of a mesh: where it lies, and which point of the texture it shows.
#[derive(Clone, Copy, Debug, PartialEq, Eq)]
pub struct Vert {
    pub position: [i32; 3],
    pub tex_coords: [i32; 2],
}

impl Vert {
    /// The vertex at `position` whose texture coordinates are its own `x` and `y`.
    pub open spec fn at(position: [i32; 3]) -> Vert {
        Vert { position, tex_coords: [position[0], position[1]] }
    }

    /// The vertex at the point `p` of the plane `z = 0`.
    pub open spec fn flat(p: (i32, i32)) -> Vert {
        Vert::at([p.0, p.1, 0])
    }

    /// This vertex moved to `position`, with its texture coordinates kept.
    pub open spec fn moved_to(self, position: [i32; 3]) -> Vert {
        Vert { position, tex_coords: self.tex_coords }
    }

    /// This vertex with texture coordinates that follow its position: the
    /// glyph box `x` in `[-HALF, HALF]`, `y` in `[0, UNIT]` maps onto the
    /// whole texture.
    pub open spec fn retextured(self) -> Vert {
        Vert {
            position: self.position,
            tex_coords: [sat_add(self.position[0], HALF), self.position[1]],
        }
    }

    /// The vertex at `position` that shows the point of the texture with its
    /// own `x` and `y`.
    pub fn new_white(position: [i32; 3]) -> (v: Vert)
        ensures
            v == Vert::at(position),
    {
        Vert { position, tex_coords: [position[0], position[1]] }
    }
}

/// The triangle `t` with every index raised by `by`.
pub open spec fn shifted(t: [u16; 3], by: int) -> [u16; 3] {
    [(t[0] + by) as u16, (t[1] + by) as u16, (t[2] + by) as u16]
}

/// The triangle `t` facing the other way.
pub open spec fn reversed(t: [u16; 3]) -> [u16; 3] {
    [t[0], t[2], t[1]]
}

/// The `i`-th triangle of a strip: even ones run `i, i+1, i+2`, odd ones swap
/// the last two so that all of them face the same way.
pub open spec fn strip_triangle(i: int) -> [u16; 3] {
    if i % 2 == 0 {
        [i as u16, (i + 1) as u16, (i + 2) as u16]
    } else {
        [i as u16, (i + 2) as u16, (i + 1) as u16]
    }
}

/// The position `p` scaled by one factor for each axis.
pub open spec fn scaled(p: [i32; 3], x: i32, y: i32, z: i32) -> [i32; 3] {
    [fx_mul(p[0], x), fx_mul(p[1], y), fx_mul(p[2], z)]
}

/// The position `p` reflected across the vertical axis `x = 0`.
pub open spec fn across_upright(p: [i32; 3]) -> [i32; 3] {
    [sat_sub(0, p[0]), p[1], p[2]]
}

/// The position `p` reflected across the horizontal mid-line `y = HALF`.
pub open spec fn across_level(p: [i32; 3]) -> [i32; 3] {
    [p[0], sat_sub(UNIT, p[1]), p[2]]
}

/// The position `p` reflected across the rising diagonal through `(0, HALF)`.
pub open spec fn across_rising(p: [i32; 3]) -> [i32; 3] {
    [sat_sub(p[1], HALF), sat_add(p[0], HALF), p[2]]
}

/// The position `p` reflected across the falling diagonal through `(0, HALF)`.
pub open spec fn across_falling(p: [i32; 3]) -> [i32; 3] {
    [sat_sub(HALF, p[1]), sat_sub(HALF, p[0]), p[2]]
}

/// Whether the reflection of `p` across the vertical axis is exact: the
/// negative of its `x` is an `i32`.
pub open spec fn upright_is_exact(p: [i32; 3]) -> bool {
    p[0] > i32::MIN
}

/// Whether the reflection of `p` across the horizontal mid-line is exact.
pub open spec fn level_is_exact(p: [i32; 3]) -> bool {
    UNIT - p[1] <= i32::MAX
}

/// Whether the reflection of `p` across the rising diagonal is exact.
pub open spec fn rising_is_exact(p: [i32; 3]) -> bool {
    p[1] - HALF >= i32::MIN && p[0] + HALF <= i32::MAX
}

/// Whether the reflection of `p` across the falling diagonal is exact.
pub open spec fn falling_is_exact(p: [i32; 3]) -> bool {
    HALF - p[1] <= i32::MAX && HALF - p[0] <= i32::MAX
}

/// Whether `p` lies in the plane `z = 0`, with `x` in `x0..=x1` and `y` in
/// `y0..=y1`.
pub open spec fn in_box(p: [i32; 3], x0: int, x1: int, y0: int, y1: int) -> bool {
    x0 <= p[0] <= x1 && y0 <= p[1] <= y1 && p[2] == 0
}

/// Twice the area of the triangle with corners `a`, `b` and `c`, as seen
/// from in front of the plane `z = 0`: positive where the corners run
/// counter-clockwise, negative where they run clockwise.
pub open spec fn cross(a: [i32; 3], b: [i32; 3], c: [i32; 3]) -> int {
    (b[0] - a[0]) * (c[1] - a[1]) - (c[0] - a[0]) * (b[1] - a[1])
}

/// Twice the area of the triangle over three points of the plane, positive
/// where the points run counter-clockwise.
pub open spec fn turn(a: (i32, i32), b: (i32, i32), c: (i32, i32)) -> int {
    (b.0 - a.0) * (c.1 - a.1) - (c.0 - a.0) * (b.1 - a.1)
}

/// Whether the points from the `i`-th on zig-zag: seen from the two points
/// before it, each further point lies to the left after an even number of
/// points and to the right after an odd number, or the other way round where
/// `left_first` is false.
pub open spec fn zigzags_from(points: Seq<(i32, i32)>, i: int, left_first: bool) -> bool
    decreases points.len() - i,
{
    if i < 0 || i + 2 >= points.len() {
        true
    } else {
        &&& if (i % 2 == 0) == left_first {
            turn(points[i], points[i + 1], points[i + 2]) > 0
        } else {
            turn(points[i], points[i + 1], points[i + 2]) < 0
        }
        &&& zigzags_from(points, i + 1, left_first)
    }
}

/// What a [`Model`] stands for: its vertices and its triangles, in order.
pub struct Mesh {
    pub verts: Seq<Vert>,
    pub tris: Seq<[u16; 3]>,
}

impl Mesh {
    /// Every index of every triangle names a vertex of this mesh.
    pub open spec fn wf(self) -> bool {
        forall|t: int, k: int|
            0 <= t < self.tris.len() && 0 <= k < 3 ==> (#[trigger] self.tris[t][k])
                < self.verts.len()
    }

    /// Every index stays a `u16` when it is raised by `by`.
    pub open spec fn shiftable(self, by: int) -> bool {
        forall|t: int, k: int|
            0 <= t < self.tris.len() && 0 <= k < 3 ==> (#[trigger] self.tris[t][k]) + by
                <= u16::MAX
    }

    /// Every vertex lies in the plane `z = 0`, with `x` in `x0..=x1` and `y`
    /// in `y0..=y1`.
    pub open spec fn within(self, x0: int, x1: int, y0: int, y1: int) -> bool {
        forall|i: int|
            0 <= i < self.verts.len() ==> in_box((#[trigger] self.verts[i]).position, x0, x1, y0, y1)
    }

    /// No vertex is so far out that its mirror image across the vertical
    /// axis would have to be cut off at the end of `i32`.
    pub open spec fn mirrors_x_exactly(self) -> bool {
        forall|i: int|
            0 <= i < self.verts.len() ==> upright_is_exact((#[trigger] self.verts[i]).position)
    }

    /// The same for the mirror image across the horizontal mid-line.
    pub open spec fn mirrors_y_exactly(self) -> bool {
        forall|i: int|
            0 <= i < self.verts.len() ==> level_is_exact((#[trigger] self.verts[i]).position)
    }

    /// The same for the mirror image across the rising diagonal.
    pub open spec fn mirrors_forward_slash_exactly(self) -> bool {
        forall|i: int|
            0 <= i < self.verts.len() ==> rising_is_exact((#[trigger] self.verts[i]).position)
    }

    /// The same for the mirror image across the falling diagonal.
    pub open spec fn mirrors_back_slash_exactly(self) -> bool {
        forall|i: int|
            0 <= i < self.verts.len() ==> falling_is_exact((#[trigger] self.verts[i]).position)
    }

    /// Every vertex has a position of which `ok` holds.
    pub open spec fn every_position(self, ok: spec_fn([i32; 3]) -> bool) -> bool {
        forall|i: int| 0 <= i < self.verts.len() ==> ok((#[trigger] self.verts[i]).position)
    }

    /// Twice the area of triangle `t`, positive where the triangle faces the
    /// viewer and negative where it faces away.
    pub open spec fn signed_area(self, t: int) -> int {
        cross(
            self.verts[self.tris[t][0] as int].position,
            self.verts[self.tris[t][1] as int].position,
            self.verts[self.tris[t][2] as int].position,
        )
    }

    /// Every triangle faces the viewer.
    pub open spec fn front_facing(self) -> bool {
        forall|t: int| 0 <= t < self.tris.len() ==> #[trigger] self.signed_area(t) > 0
    }

    /// Every triangle faces away from the viewer.
    pub open spec fn back_facing(self) -> bool {
        forall|t: int| 0 <= t < self.tris.len() ==> #[trigger] self.signed_area(t) < 0
    }

    /// The mesh without vertices or triangles.
    pub open spec fn empty() -> Mesh {
        Mesh { verts: Seq::empty(), tris: Seq::empty() }
    }

    /// The mesh over the plane `z = 0` with the given points and triangles.
    pub open spec fn flat(points: Seq<(i32, i32)>, tris: Seq<[u16; 3]>) -> Mesh {
        Mesh { verts: Seq::new(points.len(), |i: int| Vert::flat(points[i])), tris }
    }

    /// One triangle over three points.
    pub open spec fn tri(points: Seq<(i32, i32)>) -> Mesh {
        Mesh::flat(points, seq![[0u16, 1u16, 2u16]])
    }

    /// A quad over four points, split along the diagonal from the second
    /// point to the fourth.
    pub open spec fn rect(points: Seq<(i32, i32)>) -> Mesh {
        Mesh::flat(points, seq![[0u16, 1u16, 3u16], [1u16, 2u16, 3u16]])
    }

    /// The strip that zig-zags through `points`.
    pub open spec fn strip(points: Seq<(i32, i32)>) -> Mesh {
        Mesh::flat(points, Seq::new((points.len() - 2) as nat, |i: int| strip_triangle(i)))
    }

    /// This mesh followed by `other`, whose triangles are renumbered to go on
    /// naming their own vertices.
    pub open spec fn append(self, other: Mesh) -> Mesh {
        Mesh {
            verts: self.verts + other.verts,
            tris: self.tris + Seq::new(
                other.tris.len(),
                |t: int| shifted(other.tris[t], self.verts.len() as int),
            ),
        }
    }

    /// This mesh with every triangle facing the other way.
    pub open spec fn flip(self) -> Mesh {
        Mesh {
            verts: self.verts,
            tris: Seq::new(self.tris.len(), |t: int| reversed(self.tris[t])),
        }
    }

    /// This mesh with every vertex moved by `f`.
    pub open spec fn map_positions(self, f: spec_fn([i32; 3]) -> [i32; 3]) -> Mesh {
        Mesh {
            verts: Seq::new(
                self.verts.len(),
                |i: int| self.verts[i].moved_to(f(self.verts[i].position)),
            ),
            tris: self.tris,
        }
    }

    /// This mesh with every vertex's texture coordinates taken from its position.
    pub open spec fn reset_tex_coords(self) -> Mesh {
        Mesh {
            verts: Seq::new(self.verts.len(), |i: int| self.verts[i].retextured()),
            tris: self.tris,
        }
    }

    /// This mesh scaled by one factor for each axis.
    pub open spec fn mult(self, x: i32, y: i32, z: i32) -> Mesh {
        self.map_positions(|p: [i32; 3]| scaled(p, x, y, z))
    }

    /// The mirror image of this mesh across the vertical axis, facing as before.
    pub open spec fn mirror_x(self) -> Mesh {
        self.flip().map_positions(|p: [i32; 3]| across_upright(p))
    }

    /// The mirror image of this mesh across the horizontal mid-line, facing as before.
    pub open spec fn mirror_y(self) -> Mesh {
        self.flip().map_positions(|p: [i32; 3]| across_level(p))
    }

    /// The mirror image of this mesh across the rising diagonal, facing as before.
    pub open spec fn mirror_forward_slash(self) -> Mesh {
        self.flip().map_positions(|p: [i32; 3]| across_rising(p))
    }

    /// The mirror image of this mesh across the falling diagonal, facing as before.
    pub open spec fn mirror_back_slash(self) -> Mesh {
        self.flip().map_positions(|p: [i32; 3]| across_falling(p))
    }
}

/// An indexed triangle mesh.
#[derive(Clone, Debug)]
pub struct Model {
    pub verts: Vec<Vert>,
    pub tri_idxs: Vec<[u16; 3]>,
}

impl View for Model {
    type V = Mesh;

    open spec fn view(&self) -> Mesh {
        Mesh { verts: self.verts@, tris: self.tri_idxs@ }
    }
}

impl Model {
    /// Builds a mesh over the plane `z = 0` from points and index triples,
    /// and turns down a triple that names a point that is not there.
    pub fn new_2d(vs: &[(i32, i32)], ts: &[[u16; 3]]) -> (r: Result<Model, Error>)
        ensures
            r is Ok <==> Mesh::flat(vs@, ts@).wf(),
            r matches Ok(m) ==> m@ == Mesh::flat(vs@, ts@) && m@.wf(),
            r matches Err(e) ==> e == Error::InvalidGeometry,
    {
        let ghost whole = Mesh::flat(vs@, ts@);
        let mut verts: Vec<Vert> = Vec::new();
        let mut i: usize = 0;
        while i < vs.len()
            invariant
                i <= vs.len(),
                verts.len() == i,
                forall|j: int| 0 <= j < i ==> verts[j] == Vert::flat(vs[j]),
            decreases vs.len() - i,
        {
            let (x, y) = vs[i];
            verts.push(Vert::new_white([x, y, 0]));
            i += 1;
        }
        assert(verts@ == whole.verts);
        let mut tri_idxs: Vec<[u16; 3]> = Vec::new();
        let mut t: usize = 0;
        while t < ts.len()
            invariant
                t <= ts.len(),
                whole == Mesh::flat(vs@, ts@),
                tri_idxs@ == ts@.subrange(0, t as int),
                forall|j: int, k: int|
                    0 <= j < t && 0 <= k < 3 ==> (#[trigger] whole.tris[j][k]) < vs.len(),
            decreases ts.len() - t,
        {
            let tri = ts[t];
            if tri[0] as usize >= vs.len() || tri[1] as usize >= vs.len() || tri[2] as usize
                >= vs.len() {
                proof {
                    let k: int = if tri[0] >= vs.len() {
                        0
                    } else if tri[1] >= vs.len() {
                        1
                    } else {
                        2
                    };
                    assert(whole.tris[t as int][k] >= whole.verts.len());
                }
                return Err(Error::InvalidGeometry);
            }
            tri_idxs.push(tri);
            t += 1;
        }
        assert(tri_idxs@ == ts@);
        Ok(Model { verts, tri_idxs })
    }

    /// One triangle over three points, which are to be given counter-clockwise.
    pub fn tri_2d(vs: [(i32, i32); 3]) -> (m: Model)
        ensures
            m@ == Mesh::tri(vs@),
            m@.wf(),
            m.verts.len() == 3,
            m.tri_idxs.len() == 1,
    {
        let ts: [[u16; 3]; 1] = [[0, 1, 2]];
        assert(ts@ == seq![[0u16, 1u16, 2u16]]);
        Self::new_2d(&vs, &ts).unwrap()
    }

    /// A quad over four points, which are to be given counter-clockwise.
    pub fn rect_2d(vs: [(i32, i32); 4]) -> (m: Model)
        ensures
            m@ == Mesh::rect(vs@),
            m@.wf(),
            m.verts.len() == 4,
            m.tri_idxs.len() == 2,
    {
        let ts: [[u16; 3]; 2] = [[0, 1, 3], [1, 2, 3]];
        assert(ts@ == seq![[0u16, 1u16, 3u16], [1u16, 2u16, 3u16]]);
        Self::new_2d(&vs, &ts).unwrap()
    }

    /// The strip of triangles that zig-zags through `vs`, whose first three
    /// points are to be given counter-clockwise. Fewer than three points make
    /// no strip, and more than 65536 cannot be indexed.
    pub fn tristrip_2d(vs: &[(i32, i32)]) -> (r: Result<Model, Error>)
        ensures
            r is Ok <==> 3 <= vs.len() <= 65536,
            r matches Ok(m) ==> {
                &&& m@ == Mesh::strip(vs@)
                &&& m@.wf()
                &&& m.verts.len() == vs.len()
                &&& m.tri_idxs.len() == vs.len() - 2
                &&& forall|i: int|
                    0 <= i < vs.len() - 2 ==> #[trigger] m.tri_idxs[i] == strip_triangle(i)
            },
            r matches Err(e) ==> e == Error::InvalidGeometry,
    {
        if vs.len() < 3 || vs.len() > 65536 {
            return Err(Error::InvalidGeometry);
        }
        let count: usize = vs.len() - 2;
        let mut indices: Vec<[u16; 3]> = Vec::new();
        let mut flip = false;
        let mut i: u16 = 0;
        while (i as usize) < count
            invariant
                i <= count <= 65534,
                indices.len() == i,
                flip <==> i % 2 == 1,
                forall|j: int| 0 <= j < i ==> #[trigger] indices[j] == strip_triangle(j),
            decreases count - i,
        {
            if flip {
                indices.push([i, i + 2, i + 1]);
            } else {
                indices.push([i, i + 1, i + 2]);
            }
            flip = !flip;
            i += 1;
        }
        assert(indices@ == Mesh::strip(vs@).tris);
        assert(Mesh::strip(vs@).wf()) by {
            assert forall|t: int, k: int| 0 <= t < count && 0 <= k < 3 implies
                (#[trigger] strip_triangle(t)[k]) < vs.len() by {}
        }
        Self::new_2d(vs, indices.as_slice())
    }

    /// The number of indices that the triangles hold together.
    pub fn number_indices(&self) -> (n: u32)
        requires
            3 * self.tri_idxs.len() <= u32::MAX,
        ensures
            n == 3 * self@.tris.len(),
    {
        self.tri_idxs.len() as u32 * 3
    }

    /// This mesh with every triangle facing the other way. The vertices stay
    /// as they are.
    pub fn flip(self) -> (r: Model)
        ensures
            r@ == self@.flip(),
            self@.wf() ==> r@.wf(),
    {
        let ghost before = self@;
        let mut m = self;
        let mut t: usize = 0;
        while t < m.tri_idxs.len()
            invariant
                t <= m.tri_idxs.len(),
                m.verts@ == before.verts,
                m.tri_idxs.len() == before.tris.len(),
                forall|j: int| 0 <= j < t ==> #[trigger] m.tri_idxs[j] == reversed(before.tris[j]),
                forall|j: int|
                    t <= j < before.tris.len() ==> #[trigger] m.tri_idxs[j] == before.tris[j],
            decreases m.tri_idxs.len() - t,
        {
            let tri = m.tri_idxs[t];
            m.tri_idxs[t] = [tri[0], tri[2], tri[1]];
            t += 1;
        }
        assert(m@.tris == before.flip().tris);
        proof {
            if before.wf() {
                lemma_flip_keeps_wf(before);
            }
        }
        m
    }
}

impl Model {
    /// This mesh followed by `m`. The indices of `m` are raised by the number
    /// of vertices that this mesh has; where one of them would leave `u16`,
    /// the meshes are not joined. Equal vertices are not merged.
    pub fn append(self, m: Model) -> (r: Result<Model, Error>)
        ensures
            r is Ok <==> m@.shiftable(self.verts.len() as int),
            r matches Ok(out) ==> {
                &&& out@ == self@.append(m@)
                &&& self@.wf() && m@.wf() ==> out@.wf()
                &&& out.verts.len() == self.verts.len() + m.verts.len()
                &&& out.tri_idxs.len() == self.tri_idxs.len() + m.tri_idxs.len()
                &&& forall|t: int|
                    0 <= t < self.tri_idxs.len() ==> #[trigger] out.tri_idxs[t] == self.tri_idxs[t]
                &&& forall|t: int, k: int|
                    0 <= t < m.tri_idxs.len() && 0 <= k < 3 ==> (
                    #[trigger] out.tri_idxs[self.tri_idxs.len() + t][k]) == m.tri_idxs[t][k]
                        + self.verts.len()
            },
            r matches Err(e) ==> e == Error::InvalidGeometry,
    {
        let ghost first = self@;
        let ghost second = m@;
        let mut out = self;
        let mut other = m;
        let base: usize = out.verts.len();
        let mut c: usize = 0;
        while c < other.tri_idxs.len()
            invariant
                c <= other.tri_idxs.len(),
                other@ == second,
                second == m@,
                base == self.verts.len(),
                forall|j: int, k: int|
                    0 <= j < c && 0 <= k < 3 ==> (#[trigger] second.tris[j][k]) + base <= u16::MAX,
            decreases other.tri_idxs.len() - c,
        {
            let tri = other.tri_idxs[c];
            if base > 65535 || tri[0] as usize > 65535 - base || tri[1] as usize > 65535 - base
                || tri[2] as usize > 65535 - base {
                proof {
                    let k: int = if tri[0] + base > u16::MAX {
                        0
                    } else if tri[1] + base > u16::MAX {
                        1
                    } else {
                        2
                    };
                    assert(second.tris[c as int][k] + base > u16::MAX);
                }
                return Err(Error::InvalidGeometry);
            }
            c += 1;
        }
        assert(second.shiftable(base as int));
        let mut t: usize = 0;
        while t < other.tri_idxs.len()
            invariant
                t <= other.tri_idxs.len(),
                base == first.verts.len(),
                second.shiftable(base as int),
                out@ == first,
                other.verts@ == second.verts,
                other.tri_idxs.len() == second.tris.len(),
                forall|j: int|
                    0 <= j < t ==> #[trigger] other.tri_idxs[j] == shifted(
                        second.tris[j],
                        base as int,
                    ),
                forall|j: int|
                    t <= j < second.tris.len() ==> #[trigger] other.tri_idxs[j] == second.tris[j],
            decreases other.tri_idxs.len() - t,
        {
            let tri = other.tri_idxs[t];
            assert(second.tris[t as int][0] + base <= u16::MAX);
            assert(second.tris[t as int][1] + base <= u16::MAX);
            assert(second.tris[t as int][2] + base <= u16::MAX);
            let by: u16 = base as u16;
            other.tri_idxs[t] = [tri[0] + by, tri[1] + by, tri[2] + by];
            t += 1;
        }
        out.tri_idxs.append(&mut other.tri_idxs);
        out.verts.append(&mut other.verts);
        assert(out@.tris == first.append(second).tris);
        proof {
            if first.wf() && second.wf() {
                lemma_append_keeps_wf(first, second);
            }
            assert forall|t: int, k: int| 0 <= t < second.tris.len() && 0 <= k < 3 implies
                (#[trigger] out.tri_idxs[first.tris.len() + t][k]) == second.tris[t][k]
                    + first.verts.len() by {
                assert(second.tris[t][k] + base <= u16::MAX);
                assert(out.tri_idxs[first.tris.len() + t] == shifted(second.tris[t], base as int));
            }
        }
        Ok(out)
    }

    /// This mesh followed by one more triangle, unless the triangle's
    /// vertices cannot be indexed any more.
    pub fn append_tri_2d(self, vs: [(i32, i32); 3]) -> (r: Result<Model, Error>)
        ensures
            r is Ok <==> self.verts.len() + 3 <= 65536,
            r matches Ok(out) ==> {
                &&& out@ == self@.append(Mesh::tri(vs@))
                &&& self@.wf() ==> out@.wf()
                &&& out.verts.len() == self.verts.len() + 3
            },
            r matches Err(e) ==> e == Error::InvalidGeometry,
    {
        let tri = Self::tri_2d(vs);
        proof {
            let n = self.verts.len() as int;
            if tri@.shiftable(n) {
                assert(tri@.tris[0][2] + n <= u16::MAX);
            }
        }
        self.append(tri)
    }

    /// This mesh followed by one more quad, unless the quad's vertices
    /// cannot be indexed any more.
    pub fn append_rect_2d(self, vs: [(i32, i32); 4]) -> (r: Result<Model, Error>)
        ensures
            r is Ok <==> self.verts.len() + 4 <= 65536,
            r matches Ok(out) ==> {
                &&& out@ == self@.append(Mesh::rect(vs@))
                &&& self@.wf() ==> out@.wf()
                &&& out.verts.len() == self.verts.len() + 4
            },
            r matches Err(e) ==> e == Error::InvalidGeometry,
    {
        let rect = Self::rect_2d(vs);
        proof {
            let n = self.verts.len() as int;
            if rect@.shiftable(n) {
                assert(rect@.tris[0][2] + n <= u16::MAX);
            }
        }
        self.append(rect)
    }
}

impl Model {
    /// This mesh with every vertex moved by `f`. Texture coordinates and
    /// triangles stay as they are.
    pub fn vert_mod<F>(self, f: F) -> (r: Model) where F: Fn([i32; 3]) -> [i32; 3]
        requires
            forall|i: int| 0 <= i < self.verts.len() ==> f.requires((#[trigger] self.verts[i].position,)),
        ensures
            r.tri_idxs@ == self.tri_idxs@,
            r.verts.len() == self.verts.len(),
            forall|i: int|
                0 <= i < self.verts.len() ==> {
                    &&& f.ensures((self.verts[i].position,), (#[trigger] r.verts[i]).position)
                    &&& r.verts[i].tex_coords == self.verts[i].tex_coords
                },
            forall|g: spec_fn([i32; 3]) -> [i32; 3]|
                (forall|p: [i32; 3], q: [i32; 3]| #[trigger] f.ensures((p,), q) ==> q == g(p)) ==> r@
                    == #[trigger] self@.map_positions(g),
            self@.wf() ==> r@.wf(),
    {
        let ghost before = self@;
        let mut m = self;
        let mut i: usize = 0;
        while i < m.verts.len()
            invariant
                i <= m.verts.len(),
                m.tri_idxs@ == before.tris,
                m.verts.len() == before.verts.len(),
                forall|j: int|
                    0 <= j < before.verts.len() ==> f.requires((#[trigger] before.verts[j].position,)),
                forall|j: int|
                    0 <= j < i ==> {
                        &&& f.ensures((before.verts[j].position,), (#[trigger] m.verts[j]).position)
                        &&& m.verts[j].tex_coords == before.verts[j].tex_coords
                    },
                forall|j: int| i <= j < before.verts.len() ==> #[trigger] m.verts[j] == before.verts[j],
            decreases m.verts.len() - i,
        {
            let vert = m.verts[i];
            m.verts[i] = Vert { position: f(vert.position), tex_coords: vert.tex_coords };
            i += 1;
        }
        assert forall|g: spec_fn([i32; 3]) -> [i32; 3]|
            (forall|p: [i32; 3], q: [i32; 3]| #[trigger] f.ensures((p,), q) ==> q == g(p)) implies m@
                == #[trigger] before.map_positions(g) by {
            assert forall|j: int| 0 <= j < before.verts.len() implies m.verts[j]
                == #[trigger] before.map_positions(g).verts[j] by {
                assert(f.ensures((before.verts[j].position,), m.verts[j].position));
            }
            assert(m@.verts == before.map_positions(g).verts);
        }
        m
    }

    /// This mesh scaled by one fixed-point factor for each axis.
    pub fn mult(self, x: i32, y: i32, z: i32) -> (r: Model)
        ensures
            r@ == self@.mult(x, y, z),
            self@.wf() ==> r@.wf(),
    {
        let ghost g = |p: [i32; 3]| scaled(p, x, y, z);
        let f = |p: [i32; 3]| -> (q: [i32; 3])
            ensures
                q == scaled(p, x, y, z),
            { [fx_mul(p[0], x), fx_mul(p[1], y), fx_mul(p[2], z)] };
        let r = self.vert_mod(f);
        assert(r@ == self@.map_positions(g));
        r
    }

    /// This mesh with every vertex's texture coordinates taken anew from its
    /// position. Positions changed afterwards leave the coordinates behind.
    pub fn reset_tex_coords(self) -> (r: Model)
        ensures
            r@ == self@.reset_tex_coords(),
            self@.wf() ==> r@.wf(),
    {
        let ghost before = self@;
        let mut m = self;
        let mut i: usize = 0;
        while i < m.verts.len()
            invariant
                i <= m.verts.len(),
                m.tri_idxs@ == before.tris,
                m.verts.len() == before.verts.len(),
                forall|j: int| 0 <= j < i ==> #[trigger] m.verts[j] == before.verts[j].retextured(),
                forall|j: int| i <= j < before.verts.len() ==> #[trigger] m.verts[j] == before.verts[j],
            decreases m.verts.len() - i,
        {
            let vert = m.verts[i];
            m.verts[i] = Vert {
                position: vert.position,
                tex_coords: [sat_add(vert.position[0], HALF), vert.position[1]],
            };
            i += 1;
        }
        assert(m@.verts == before.reset_tex_coords().verts);
        m
    }

    /// A second mesh with the same vertices and triangles.
    pub fn duplicate(&self) -> (r: Model)
        ensures
            r@ == self@,
    {
        let r = Model { verts: self.verts.clone(), tri_idxs: self.tri_idxs.clone() };
        assert(r.verts@ == self.verts@);
        assert forall|t: int| 0 <= t < self.tri_idxs.len() implies r.tri_idxs[t]
            == self.tri_idxs[t] by {
            let a = self.tri_idxs[t];
            let b = r.tri_idxs[t];
            assert(cloned::<[u16; 3]>(a, b));
            assert(a@ =~= b@);
        }
        assert(r.tri_idxs@ == self.tri_idxs@);
        r
    }

    /// This mesh followed by what `f` makes of a copy of it, unless the
    /// indices of what `f` made cannot be raised within `u16`.
    pub fn append_apply<F>(self, f: F) -> (r: Result<Model, Error>) where F: FnOnce(Model) -> Model
        requires
            forall|c: Model| c@ == self@ ==> f.requires((c,)),
        ensures
            exists|c: Model, m: Model|
                {
                    &&& c@ == self@
                    &&& #[trigger] f.ensures((c,), m)
                    &&& r is Ok <==> m@.shiftable(self.verts.len() as int)
                    &&& r matches Ok(out) ==> out@ == self@.append(m@)
                },
            forall|g: spec_fn(Mesh) -> Mesh|
                (forall|c: Model, m: Model| #[trigger] f.ensures((c,), m) ==> m@ == g(c@)) ==> {
                    &&& r is Ok <==> (#[trigger] g(self@)).shiftable(self.verts.len() as int)
                    &&& r matches Ok(out) ==> out@ == self@.append(g(self@))
                },
            r matches Err(e) ==> e == Error::InvalidGeometry,
    {
        let copy = self.duplicate();
        let made = f(copy);
        let r = self.append(made);
        assert(copy@ == self@ && f.ensures((copy,), made));
        r
    }
}

/// The mirror image of `m` across the vertical axis `x = 0`. The triangles
/// are turned over first, so that the image faces the way `m` does.
pub fn mirror_x(m: Model) -> (r: Model)
    ensures
        r@ == m@.mirror_x(),
        m@.wf() ==> r@.wf(),
{
    let ghost g = |p: [i32; 3]| across_upright(p);
    let r = m.flip().mult(MINUS_UNIT, UNIT, UNIT);
    proof {
        assert forall|p: [i32; 3]| scaled(p, MINUS_UNIT, UNIT, UNIT) == across_upright(p) by {
            lemma_fx_mul_unit(p[0]);
            lemma_fx_mul_unit(p[1]);
            lemma_fx_mul_unit(p[2]);
        }
        assert(r@.verts == m@.flip().map_positions(g).verts);
    }
    r
}

/// The mirror image of `m` across the horizontal mid-line `y = HALF`, which
/// keeps a glyph within its box.
pub fn mirror_y(m: Model) -> (r: Model)
    ensures
        r@ == m@.mirror_y(),
        m@.wf() ==> r@.wf(),
{
    let ghost g = |p: [i32; 3]| across_level(p);
    let f = |p: [i32; 3]| -> (q: [i32; 3])
        ensures
            q == across_level(p),
        { [p[0], sat_sub(UNIT, p[1]), p[2]] };
    let r = m.flip().vert_mod(f);
    assert(r@ == m@.flip().map_positions(g));
    r
}

/// The mirror image of `m` across the rising diagonal through `(0, HALF)`.
pub fn mirror_forward_slash(m: Model) -> (r: Model)
    ensures
        r@ == m@.mirror_forward_slash(),
        m@.wf() ==> r@.wf(),
{
    let ghost g = |p: [i32; 3]| across_rising(p);
    let f = |p: [i32; 3]| -> (q: [i32; 3])
        ensures
            q == across_rising(p),
        { [sat_sub(p[1], HALF), sat_add(p[0], HALF), p[2]] };
    let r = m.flip().vert_mod(f);
    assert(r@ == m@.flip().map_positions(g));
    r
}

/// The mirror image of `m` across the falling diagonal through `(0, HALF)`.
pub fn mirror_back_slash(m: Model) -> (r: Model)
    ensures
        r@ == m@.mirror_back_slash(),
        m@.wf() ==> r@.wf(),
{
    let ghost g = |p: [i32; 3]| across_falling(p);
    let f = |p: [i32; 3]| -> (q: [i32; 3])
        ensures
            q == across_falling(p),
        { [sat_sub(HALF, p[1]), sat_sub(HALF, p[0]), p[2]] };
    let r = m.flip().vert_mod(f);
    assert(r@ == m@.flip().map_positions(g));
    r
}

} // verus!
