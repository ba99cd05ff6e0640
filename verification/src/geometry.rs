//! What holds of meshes and of the operators on them: when indices stay in
//! range, where a mesh lies, and which way its triangles face.

use crate::fixed::{HALF, UNIT};
use crate::letters::{
    across_falling, across_level, across_rising, across_upright, cross, falling_is_exact, in_box,
    level_is_exact, reversed, rising_is_exact, shifted, strip_triangle, turn, upright_is_exact,
    zigzags_from, Mesh, Vert,
};
use vstd::prelude::*;

verus! {

/// Appending two meshes whose indices are in range gives one whose indices are.
pub proof fn lemma_append_keeps_wf(a: Mesh, b: Mesh)
    requires
        a.wf(),
        b.wf(),
        b.shiftable(a.verts.len() as int),
    ensures
        a.append(b).wf(),
{
    let r = a.append(b);
    assert forall|t: int, k: int| 0 <= t < r.tris.len() && 0 <= k < 3 implies
        (#[trigger] r.tris[t][k]) < r.verts.len() by {
        if t < a.tris.len() {
            assert(a.tris[t][k] < a.verts.len());
        } else {
            let u = t - a.tris.len();
            assert(b.tris[u][k] < b.verts.len());
            assert(b.tris[u][k] + a.verts.len() <= u16::MAX);
            assert(r.tris[t] == shifted(b.tris[u], a.verts.len() as int));
        }
    }
}

/// A mesh whose indices are in range can follow any mesh that leaves it
/// enough of the sixteen-bit index space.
pub proof fn lemma_wf_is_shiftable(m: Mesh, by: int)
    requires
        m.wf(),
        m.verts.len() + by <= 65536,
    ensures
        m.shiftable(by),
{
    assert forall|t: int, k: int| 0 <= t < m.tris.len() && 0 <= k < 3 implies
        (#[trigger] m.tris[t][k]) + by <= u16::MAX by {
        assert(m.tris[t][k] < m.verts.len());
    }
}

/// Turning the triangles over leaves every index in range.
pub proof fn lemma_flip_keeps_wf(m: Mesh)
    requires
        m.wf(),
    ensures
        m.flip().wf(),
{
    assert forall|t: int, k: int| 0 <= t < m.flip().tris.len() && 0 <= k < 3 implies
        (#[trigger] m.flip().tris[t][k]) < m.flip().verts.len() by {
        assert(m.tris[t][0] < m.verts.len());
        assert(m.tris[t][1] < m.verts.len());
        assert(m.tris[t][2] < m.verts.len());
    }
}

/// A flat mesh lies where its points lie.
pub proof fn lemma_flat_within(
    points: Seq<(i32, i32)>,
    tris: Seq<[u16; 3]>,
    x0: int,
    x1: int,
    y0: int,
    y1: int,
)
    requires
        forall|i: int|
            0 <= i < points.len() ==> x0 <= (#[trigger] points[i]).0 <= x1 && y0 <= points[i].1 <= y1,
    ensures
        Mesh::flat(points, tris).within(x0, x1, y0, y1),
        Mesh::tri(points).within(x0, x1, y0, y1),
        Mesh::rect(points).within(x0, x1, y0, y1),
        Mesh::strip(points).within(x0, x1, y0, y1),
{
    assert forall|t: Seq<[u16; 3]>, i: int| 0 <= i < points.len() implies in_box(
        (#[trigger] Mesh::flat(points, t).verts[i]).position,
        x0,
        x1,
        y0,
        y1,
    ) by {
        assert(Mesh::flat(points, t).verts[i] == Vert::flat(points[i]));
    }
}

/// Two meshes that lie in a box lie in it when one follows the other.
pub proof fn lemma_append_within(a: Mesh, b: Mesh, x0: int, x1: int, y0: int, y1: int)
    requires
        a.within(x0, x1, y0, y1),
        b.within(x0, x1, y0, y1),
    ensures
        a.append(b).within(x0, x1, y0, y1),
{
    let r = a.append(b);
    assert forall|i: int| 0 <= i < r.verts.len() implies in_box(
        (#[trigger] r.verts[i]).position,
        x0,
        x1,
        y0,
        y1,
    ) by {
        if i < a.verts.len() {
            assert(r.verts[i] == a.verts[i]);
        } else {
            assert(r.verts[i] == b.verts[i - a.verts.len()]);
        }
    }
}

/// A mesh that lies in one box lies, moved by `f`, in whatever box `f`
/// takes the first one into.
pub proof fn lemma_map_within(
    m: Mesh,
    f: spec_fn([i32; 3]) -> [i32; 3],
    from: (int, int, int, int),
    to: (int, int, int, int),
)
    requires
        m.within(from.0, from.1, from.2, from.3),
        forall|p: [i32; 3]|
            in_box(p, from.0, from.1, from.2, from.3) ==> in_box(
                #[trigger] f(p),
                to.0,
                to.1,
                to.2,
                to.3,
            ),
    ensures
        m.map_positions(f).within(to.0, to.1, to.2, to.3),
        m.flip().map_positions(f).within(to.0, to.1, to.2, to.3),
{
    let r = m.map_positions(f);
    assert forall|i: int| 0 <= i < r.verts.len() implies in_box(
        (#[trigger] r.verts[i]).position,
        to.0,
        to.1,
        to.2,
        to.3,
    ) by {
        assert(in_box(m.verts[i].position, from.0, from.1, from.2, from.3));
        assert(r.verts[i].position == f(m.verts[i].position));
    }
    let r2 = m.flip().map_positions(f);
    assert forall|i: int| 0 <= i < r2.verts.len() implies in_box(
        (#[trigger] r2.verts[i]).position,
        to.0,
        to.1,
        to.2,
        to.3,
    ) by {
        assert(in_box(m.verts[i].position, from.0, from.1, from.2, from.3));
        assert(r2.verts[i].position == f(m.verts[i].position));
    }
}

/// The mirror images of a mesh lie in the mirror images of the box that the
/// mesh lies in, as long as the box keeps clear of the ends of `i32`.
pub proof fn lemma_mirrors_within(m: Mesh, x0: int, x1: int, y0: int, y1: int)
    requires
        m.within(x0, x1, y0, y1),
        -0x4000_0000 <= x0,
        x1 <= 0x4000_0000,
        -0x4000_0000 <= y0,
        y1 <= 0x4000_0000,
    ensures
        m.flip().within(x0, x1, y0, y1),
        m.mirror_x().within(-x1, -x0, y0, y1),
        m.mirror_y().within(x0, x1, UNIT - y1, UNIT - y0),
        m.mirror_forward_slash().within(y0 - HALF, y1 - HALF, x0 + HALF, x1 + HALF),
        m.mirror_back_slash().within(HALF - y1, HALF - y0, HALF - x1, HALF - x0),
        m.mirrors_x_exactly(),
        m.mirrors_y_exactly(),
        m.mirrors_forward_slash_exactly(),
        m.mirrors_back_slash_exactly(),
{
    assert forall|i: int| 0 <= i < m.verts.len() implies {
        let p = (#[trigger] m.verts[i]).position;
        upright_is_exact(p) && level_is_exact(p) && rising_is_exact(p) && falling_is_exact(p)
    } by {
        assert(in_box(m.verts[i].position, x0, x1, y0, y1));
    }
    assert(m.flip().verts == m.verts);
    lemma_map_within(m, |p: [i32; 3]| across_upright(p), (x0, x1, y0, y1), (-x1, -x0, y0, y1));
    lemma_map_within(
        m,
        |p: [i32; 3]| across_level(p),
        (x0, x1, y0, y1),
        (x0, x1, UNIT - y1, UNIT - y0),
    );
    lemma_map_within(
        m,
        |p: [i32; 3]| across_rising(p),
        (x0, x1, y0, y1),
        (y0 - HALF, y1 - HALF, x0 + HALF, x1 + HALF),
    );
    lemma_map_within(
        m,
        |p: [i32; 3]| across_falling(p),
        (x0, x1, y0, y1),
        (HALF - y1, HALF - y0, HALF - x1, HALF - x0),
    );
}

/// A mesh that lies in a box lies in every box around it.
pub proof fn lemma_within_wider(
    m: Mesh,
    inner: (int, int, int, int),
    outer: (int, int, int, int),
)
    requires
        m.within(inner.0, inner.1, inner.2, inner.3),
        outer.0 <= inner.0,
        inner.1 <= outer.1,
        outer.2 <= inner.2,
        inner.3 <= outer.3,
    ensures
        m.within(outer.0, outer.1, outer.2, outer.3),
{
    assert forall|i: int| 0 <= i < m.verts.len() implies in_box(
        (#[trigger] m.verts[i]).position,
        outer.0,
        outer.1,
        outer.2,
        outer.3,
    ) by {
        assert(in_box(m.verts[i].position, inner.0, inner.1, inner.2, inner.3));
    }
}

/// Swapping two corners of a triangle turns it over.
pub proof fn lemma_cross_reversed(a: [i32; 3], b: [i32; 3], c: [i32; 3])
    ensures
        cross(a, c, b) == -cross(a, b, c),
{
    assert((c[0] - a[0]) * (b[1] - a[1]) - (b[0] - a[0]) * (c[1] - a[1]) == -((b[0] - a[0]) * (c[1]
        - a[1]) - (c[0] - a[0]) * (b[1] - a[1]))) by (nonlinear_arith);
}

/// Each of the four reflections turns a triangle over, where it is exact
/// at all three corners.
pub proof fn lemma_cross_reflected(a: [i32; 3], b: [i32; 3], c: [i32; 3])
    ensures
        upright_is_exact(a) && upright_is_exact(b) && upright_is_exact(c) ==> cross(
            across_upright(a),
            across_upright(b),
            across_upright(c),
        ) == -cross(a, b, c),
        level_is_exact(a) && level_is_exact(b) && level_is_exact(c) ==> cross(
            across_level(a),
            across_level(b),
            across_level(c),
        ) == -cross(a, b, c),
        rising_is_exact(a) && rising_is_exact(b) && rising_is_exact(c) ==> cross(
            across_rising(a),
            across_rising(b),
            across_rising(c),
        ) == -cross(a, b, c),
        falling_is_exact(a) && falling_is_exact(b) && falling_is_exact(c) ==> cross(
            across_falling(a),
            across_falling(b),
            across_falling(c),
        ) == -cross(a, b, c),
{
    let (ax, ay) = (a[0] as int, a[1] as int);
    let (bx, by) = (b[0] as int, b[1] as int);
    let (cx, cy) = (c[0] as int, c[1] as int);
    let h = HALF as int;
    let u = UNIT as int;
    assert((-bx - -ax) * (cy - ay) - (-cx - -ax) * (by - ay) == -((bx - ax) * (cy - ay) - (cx - ax)
        * (by - ay))) by (nonlinear_arith);
    assert((bx - ax) * ((u - cy) - (u - ay)) - (cx - ax) * ((u - by) - (u - ay)) == -((bx - ax)
        * (cy - ay) - (cx - ax) * (by - ay))) by (nonlinear_arith);
    assert(((by - h) - (ay - h)) * ((cx + h) - (ax + h)) - ((cy - h) - (ay - h)) * ((bx + h) - (ax
        + h)) == -((bx - ax) * (cy - ay) - (cx - ax) * (by - ay))) by (nonlinear_arith);
    assert(((h - by) - (h - ay)) * ((h - cx) - (h - ax)) - ((h - cy) - (h - ay)) * ((h - bx) - (h
        - ax)) == -((bx - ax) * (cy - ay) - (cx - ax) * (by - ay))) by (nonlinear_arith);
}

/// Flipping a mesh turns every triangle over.
pub proof fn lemma_flip_turns_over(m: Mesh)
    ensures
        forall|t: int|
            0 <= t < m.tris.len() ==> #[trigger] m.flip().signed_area(t) == -m.signed_area(t),
        m.front_facing() ==> m.flip().back_facing(),
        m.back_facing() ==> m.flip().front_facing(),
{
    assert forall|t: int| 0 <= t < m.tris.len() implies #[trigger] m.flip().signed_area(t)
        == -m.signed_area(t) by {
        lemma_cross_reversed(
            m.verts[m.tris[t][0] as int].position,
            m.verts[m.tris[t][1] as int].position,
            m.verts[m.tris[t][2] as int].position,
        );
    }
    assert forall|t: int| 0 <= t < m.tris.len() implies (m.front_facing() ==> #[trigger] m.flip().signed_area(t) < 0)
        && (m.back_facing() ==> m.flip().signed_area(t) > 0) by {
        assert(m.flip().signed_area(t) == -m.signed_area(t));
    }
}

/// A mirror image faces the way the mesh does: the reflection turns every
/// triangle over, and the flip before it turns every triangle back. This
/// holds of each mirror image that is exact.
pub proof fn lemma_mirrors_keep_facing(m: Mesh)
    requires
        m.wf(),
    ensures
        m.mirrors_x_exactly() ==> forall|t: int|
            0 <= t < m.tris.len() ==> #[trigger] m.mirror_x().signed_area(t) == m.signed_area(t),
        m.mirrors_y_exactly() ==> forall|t: int|
            0 <= t < m.tris.len() ==> #[trigger] m.mirror_y().signed_area(t) == m.signed_area(t),
        m.mirrors_forward_slash_exactly() ==> forall|t: int|
            0 <= t < m.tris.len() ==> #[trigger] m.mirror_forward_slash().signed_area(t)
                == m.signed_area(t),
        m.mirrors_back_slash_exactly() ==> forall|t: int|
            0 <= t < m.tris.len() ==> #[trigger] m.mirror_back_slash().signed_area(t)
                == m.signed_area(t),
        m.front_facing() && m.mirrors_x_exactly() ==> m.mirror_x().front_facing(),
        m.front_facing() && m.mirrors_y_exactly() ==> m.mirror_y().front_facing(),
        m.front_facing() && m.mirrors_forward_slash_exactly()
            ==> m.mirror_forward_slash().front_facing(),
        m.front_facing() && m.mirrors_back_slash_exactly() ==> m.mirror_back_slash().front_facing(),
{
    assert forall|t: int| 0 <= t < m.tris.len() implies {
        &&& m.mirrors_x_exactly() ==> m.mirror_x().signed_area(t) == #[trigger] m.signed_area(t)
        &&& m.mirrors_y_exactly() ==> m.mirror_y().signed_area(t) == m.signed_area(t)
        &&& m.mirrors_forward_slash_exactly() ==> m.mirror_forward_slash().signed_area(t)
            == m.signed_area(t)
        &&& m.mirrors_back_slash_exactly() ==> m.mirror_back_slash().signed_area(t)
            == m.signed_area(t)
    } by {
        let i = m.tris[t][0] as int;
        let j = m.tris[t][1] as int;
        let k = m.tris[t][2] as int;
        assert(m.tris[t][0] < m.verts.len());
        assert(m.tris[t][1] < m.verts.len());
        assert(m.tris[t][2] < m.verts.len());
        let a = m.verts[i].position;
        let b = m.verts[j].position;
        let c = m.verts[k].position;
        lemma_cross_reflected(a, c, b);
        lemma_cross_reversed(a, b, c);
        assert(m.flip().tris[t] == reversed(m.tris[t]));
    }
    if m.front_facing() {
        if m.mirrors_x_exactly() {
            assert forall|t: int|
                0 <= t < m.tris.len() implies #[trigger] m.mirror_x().signed_area(t) > 0 by {
                assert(m.mirror_x().signed_area(t) == m.signed_area(t));
            }
        }
        if m.mirrors_y_exactly() {
            assert forall|t: int|
                0 <= t < m.tris.len() implies #[trigger] m.mirror_y().signed_area(t) > 0 by {
                assert(m.mirror_y().signed_area(t) == m.signed_area(t));
            }
        }
        if m.mirrors_forward_slash_exactly() {
            assert forall|t: int|
                0 <= t < m.tris.len() implies #[trigger] m.mirror_forward_slash().signed_area(t)
                > 0 by {
                assert(m.mirror_forward_slash().signed_area(t) == m.signed_area(t));
            }
        }
        if m.mirrors_back_slash_exactly() {
            assert forall|t: int|
                0 <= t < m.tris.len() implies #[trigger] m.mirror_back_slash().signed_area(t)
                > 0 by {
                assert(m.mirror_back_slash().signed_area(t) == m.signed_area(t));
            }
        }
    }
}

/// Appending keeps every triangle as it was: those of the first mesh, and,
/// behind them, those of the second.
pub proof fn lemma_append_keeps_facing(a: Mesh, b: Mesh)
    requires
        a.wf(),
        b.wf(),
        b.shiftable(a.verts.len() as int),
    ensures
        forall|t: int|
            0 <= t < a.tris.len() ==> #[trigger] a.append(b).signed_area(t) == a.signed_area(t),
        forall|t: int|
            0 <= t < b.tris.len() ==> #[trigger] a.append(b).signed_area(a.tris.len() + t)
                == b.signed_area(t),
        a.front_facing() && b.front_facing() ==> a.append(b).front_facing(),
        a.back_facing() && b.back_facing() ==> a.append(b).back_facing(),
{
    let r = a.append(b);
    let n = a.verts.len() as int;
    assert forall|t: int| 0 <= t < a.tris.len() implies #[trigger] r.signed_area(t)
        == a.signed_area(t) by {
        assert(a.tris[t][0] < n);
        assert(a.tris[t][1] < n);
        assert(a.tris[t][2] < n);
        assert(r.tris[t] == a.tris[t]);
    }
    assert forall|t: int| 0 <= t < b.tris.len() implies #[trigger] r.signed_area(a.tris.len() + t)
        == b.signed_area(t) by {
        assert(b.tris[t][0] < b.verts.len() && b.tris[t][0] + n <= u16::MAX);
        assert(b.tris[t][1] < b.verts.len() && b.tris[t][1] + n <= u16::MAX);
        assert(b.tris[t][2] < b.verts.len() && b.tris[t][2] + n <= u16::MAX);
        assert(r.tris[a.tris.len() + t] == shifted(b.tris[t], n));
    }
    assert forall|t: int| 0 <= t < r.tris.len() implies (a.front_facing() && b.front_facing()
        ==> #[trigger] r.signed_area(t) > 0) && (a.back_facing() && b.back_facing()
        ==> r.signed_area(t) < 0) by {
        if t < a.tris.len() {
            assert(r.signed_area(t) == a.signed_area(t));
        } else {
            let u = t - a.tris.len();
            assert(r.signed_area(a.tris.len() + u) == b.signed_area(u));
        }
    }
}

/// From the `i`-th point on, a zig-zag turns the right way at every point.
proof fn lemma_zigzag_at(points: Seq<(i32, i32)>, i: int, j: int, left_first: bool)
    requires
        0 <= i <= j,
        j + 2 < points.len(),
        zigzags_from(points, i, left_first),
    ensures
        if (j % 2 == 0) == left_first {
            turn(points[j], points[j + 1], points[j + 2]) > 0
        } else {
            turn(points[j], points[j + 1], points[j + 2]) < 0
        },
    decreases j - i,
{
    if i < j {
        lemma_zigzag_at(points, i + 1, j, left_first);
    }
}

/// A strip through points that zig-zag, the third to the left of the first
/// two, faces the viewer. Where the third lies to the right, it faces away.
pub proof fn lemma_strip_faces(points: Seq<(i32, i32)>, left_first: bool)
    requires
        3 <= points.len() <= 65536,
        zigzags_from(points, 0, left_first),
    ensures
        left_first ==> Mesh::strip(points).front_facing(),
        !left_first ==> Mesh::strip(points).back_facing(),
{
    let m = Mesh::strip(points);
    assert forall|t: int| 0 <= t < m.tris.len() implies if left_first {
        #[trigger] m.signed_area(t) > 0
    } else {
        m.signed_area(t) < 0
    } by {
        lemma_zigzag_at(points, 0, t, left_first);
        let a = Vert::flat(points[t]).position;
        let b = Vert::flat(points[t + 1]).position;
        let c = Vert::flat(points[t + 2]).position;
        assert(m.tris[t] == strip_triangle(t));
        assert(m.verts[t] == Vert::flat(points[t]));
        assert(m.verts[t + 1] == Vert::flat(points[t + 1]));
        assert(m.verts[t + 2] == Vert::flat(points[t + 2]));
        assert(cross(a, b, c) == turn(points[t], points[t + 1], points[t + 2]));
        lemma_cross_reversed(a, b, c);
    }
}

/// A triangle over three points that run counter-clockwise faces the
/// viewer, and so does a quad over four such points that bulges nowhere
/// inward along its diagonal.
pub proof fn lemma_tri_rect_face(points: Seq<(i32, i32)>)
    ensures
        points.len() == 3 && turn(points[0], points[1], points[2]) > 0 ==> Mesh::tri(
            points,
        ).front_facing(),
        points.len() == 4 && turn(points[0], points[1], points[3]) > 0 && turn(
            points[1],
            points[2],
            points[3],
        ) > 0 ==> Mesh::rect(points).front_facing(),
{
    if points.len() == 3 {
        let m = Mesh::tri(points);
        assert(m.verts[0] == Vert::flat(points[0]));
        assert(m.verts[1] == Vert::flat(points[1]));
        assert(m.verts[2] == Vert::flat(points[2]));
        assert(m.signed_area(0) == turn(points[0], points[1], points[2]));
    }
    if points.len() == 4 {
        let m = Mesh::rect(points);
        assert(m.verts[0] == Vert::flat(points[0]));
        assert(m.verts[1] == Vert::flat(points[1]));
        assert(m.verts[2] == Vert::flat(points[2]));
        assert(m.verts[3] == Vert::flat(points[3]));
        assert(m.signed_area(0) == turn(points[0], points[1], points[3]));
        assert(m.signed_area(1) == turn(points[1], points[2], points[3]));
    }
}

/// A strip has one vertex for each point, and all its indices in range.
pub proof fn lemma_strip_wf(points: Seq<(i32, i32)>)
    requires
        3 <= points.len() <= 65536,
    ensures
        Mesh::strip(points).wf(),
        Mesh::strip(points).verts.len() == points.len(),
        Mesh::strip(points).tris.len() == points.len() - 2,
{
    let m = Mesh::strip(points);
    assert forall|t: int, k: int| 0 <= t < m.tris.len() && 0 <= k < 3 implies
        (#[trigger] m.tris[t][k]) < m.verts.len() by {
        assert(m.tris[t] == strip_triangle(t));
    }
}

/// What holds of the position of every point of a flat mesh holds of every
/// vertex of it.
pub proof fn lemma_flat_every_position(
    points: Seq<(i32, i32)>,
    tris: Seq<[u16; 3]>,
    ok: spec_fn([i32; 3]) -> bool,
)
    requires
        forall|i: int| 0 <= i < points.len() ==> ok(#[trigger] Vert::flat(points[i]).position),
    ensures
        Mesh::flat(points, tris).every_position(ok),
        Mesh::strip(points).every_position(ok),
        Mesh::rect(points).every_position(ok),
        Mesh::tri(points).every_position(ok),
{
    assert forall|t: Seq<[u16; 3]>, i: int| 0 <= i < points.len() implies ok(
        (#[trigger] Mesh::flat(points, t).verts[i]).position,
    ) by {
        assert(Mesh::flat(points, t).verts[i] == Vert::flat(points[i]));
        assert(ok(Vert::flat(points[i]).position));
    }
}

/// A mesh moved by `f` faces the viewer if the mesh does and `f` keeps
/// every triangle that faces the viewer facing it, among positions of which
/// `ok` holds.
pub proof fn lemma_map_keeps_facing(
    m: Mesh,
    f: spec_fn([i32; 3]) -> [i32; 3],
    ok: spec_fn([i32; 3]) -> bool,
)
    requires
        m.wf(),
        m.front_facing(),
        m.every_position(ok),
        forall|a: [i32; 3], b: [i32; 3], c: [i32; 3]|
            ok(a) && ok(b) && ok(c) && #[trigger] cross(a, b, c) > 0 ==> cross(f(a), f(b), f(c)) > 0,
    ensures
        m.map_positions(f).front_facing(),
{
    let r = m.map_positions(f);
    assert forall|t: int| 0 <= t < r.tris.len() implies #[trigger] r.signed_area(t) > 0 by {
        assert(m.tris[t][0] < m.verts.len());
        assert(m.tris[t][1] < m.verts.len());
        assert(m.tris[t][2] < m.verts.len());
        let a = m.verts[m.tris[t][0] as int];
        let b = m.verts[m.tris[t][1] as int];
        let c = m.verts[m.tris[t][2] as int];
        assert(ok(a.position) && ok(b.position) && ok(c.position));
        assert(m.signed_area(t) > 0);
        assert(cross(a.position, b.position, c.position) > 0);
    }
}

/// What holds of the position of every vertex of two meshes holds of those
/// of one followed by the other, and what holds of those of a flat mesh's
/// points holds of the mesh.
pub proof fn lemma_every_position(a: Mesh, b: Mesh, ok: spec_fn([i32; 3]) -> bool)
    requires
        a.every_position(ok),
        b.every_position(ok),
    ensures
        a.append(b).every_position(ok),
        a.flip().every_position(ok),
{
    let r = a.append(b);
    assert forall|i: int| 0 <= i < r.verts.len() implies ok((#[trigger] r.verts[i]).position) by {
        if i < a.verts.len() {
            assert(r.verts[i] == a.verts[i]);
        } else {
            assert(r.verts[i] == b.verts[i - a.verts.len()]);
        }
    }
    assert(a.flip().verts == a.verts);
}

/// What holds of the position of every vertex, and implies something
/// else, leaves that holding of every vertex too.
pub proof fn lemma_every_position_implies(
    m: Mesh,
    from: spec_fn([i32; 3]) -> bool,
    to: spec_fn([i32; 3]) -> bool,
)
    requires
        m.every_position(from),
        forall|p: [i32; 3]| #[trigger] from(p) ==> to(p),
    ensures
        m.every_position(to),
{
    assert forall|i: int| 0 <= i < m.verts.len() implies to((#[trigger] m.verts[i]).position) by {
        assert(from(m.verts[i].position));
    }
}

/// The mirror images of a mesh have as many vertices as the mesh, and their
/// indices in range where the mesh has.
pub proof fn lemma_mirrors_keep_wf(m: Mesh)
    requires
        m.wf(),
    ensures
        m.mirror_x().wf(),
        m.mirror_y().wf(),
        m.mirror_forward_slash().wf(),
        m.mirror_back_slash().wf(),
        m.mirror_x().verts.len() == m.verts.len(),
        m.mirror_y().verts.len() == m.verts.len(),
        m.mirror_forward_slash().verts.len() == m.verts.len(),
        m.mirror_back_slash().verts.len() == m.verts.len(),
{
    lemma_flip_keeps_wf(m);
    let f = m.flip();
    assert forall|t: int, k: int| 0 <= t < f.tris.len() && 0 <= k < 3 implies
        (#[trigger] f.tris[t][k]) < f.verts.len() by {}
}

/// If `f` takes positions of which `from` holds to positions of which `to`
/// holds, it takes a mesh of the first kind to one of the second, flipped
/// before or not.
pub proof fn lemma_map_every_position(
    m: Mesh,
    f: spec_fn([i32; 3]) -> [i32; 3],
    from: spec_fn([i32; 3]) -> bool,
    to: spec_fn([i32; 3]) -> bool,
)
    requires
        m.every_position(from),
        forall|p: [i32; 3]| from(p) ==> to(#[trigger] f(p)),
    ensures
        m.map_positions(f).every_position(to),
        m.flip().map_positions(f).every_position(to),
{
    let r = m.map_positions(f);
    assert forall|i: int| 0 <= i < r.verts.len() implies to((#[trigger] r.verts[i]).position) by {
        assert(from(m.verts[i].position));
        assert(r.verts[i].position == f(m.verts[i].position));
    }
    let r2 = m.flip().map_positions(f);
    assert forall|i: int| 0 <= i < r2.verts.len() implies to((#[trigger] r2.verts[i]).position) by {
        assert(from(m.verts[i].position));
        assert(r2.verts[i].position == f(m.verts[i].position));
    }
}

/// Turning the triangles of a mesh over twice gives the mesh back.
pub proof fn lemma_flip_twice(m: Mesh)
    ensures
        m.flip().flip() == m,
{
    assert forall|t: int| 0 <= t < m.tris.len() implies #[trigger] m.flip().flip().tris[t]
        == m.tris[t] by {
        assert(reversed(reversed(m.tris[t])) =~= m.tris[t]);
    }
    assert(m.flip().flip().tris =~= m.tris);
}

/// Mirroring a mesh across the vertical axis twice gives the mesh back,
/// vertex for vertex and triangle for triangle. The one coordinate that has
/// no negative within `i32` is left out.
pub proof fn lemma_mirror_x_twice(m: Mesh)
    requires
        m.mirrors_x_exactly(),
    ensures
        m.mirror_x().mirror_x() == m,
{
    let twice = m.mirror_x().mirror_x();
    lemma_flip_twice(m);
    assert forall|t: int| 0 <= t < m.tris.len() implies #[trigger] twice.tris[t] == m.tris[t] by {
        assert(reversed(reversed(m.tris[t])) =~= m.tris[t]);
    }
    assert(twice.tris =~= m.tris);
    assert forall|i: int| 0 <= i < m.verts.len() implies #[trigger] twice.verts[i]
        == m.verts[i] by {
        let p = m.verts[i].position;
        assert(across_upright(across_upright(p)) =~= p);
    }
    assert(twice.verts =~= m.verts);
}

/// Whether one side of the triangle `t` runs from vertex `a` to vertex `b`.
pub open spec fn has_side(t: [u16; 3], a: int, b: int) -> bool {
    ||| t[0] == a && t[1] == b
    ||| t[1] == a && t[2] == b
    ||| t[2] == a && t[0] == b
}

/// How many of `tris` have a side that runs from vertex `a` to vertex `b`.
pub open spec fn sides_along(tris: Seq<[u16; 3]>, a: int, b: int) -> nat
    decreases tris.len(),
{
    if tris.len() == 0 {
        0
    } else {
        sides_along(tris.drop_last(), a, b) + if has_side(tris.last(), a, b) {
            1nat
        } else {
            0nat
        }
    }
}

/// The two triangles of a quad tile it: going round the quad in the order
/// of its points, each of its four edges is a side of exactly one triangle,
/// in that direction and not in the other. The diagonal between the second
/// and the fourth point is shared, once in each direction, and the other
/// diagonal is no side at all.
pub proof fn lemma_rect_tiles_quad(points: Seq<(i32, i32)>)
    requires
        points.len() == 4,
    ensures
        Mesh::rect(points).wf(),
        Mesh::rect(points).verts.len() == 4,
        Mesh::rect(points).tris.len() == 2,
        forall|a: int|
            0 <= a < 4 ==> {
                &&& #[trigger] sides_along(Mesh::rect(points).tris, a, (a + 1) % 4) == 1
                &&& sides_along(Mesh::rect(points).tris, (a + 1) % 4, a) == 0
            },
        sides_along(Mesh::rect(points).tris, 1, 3) == 1,
        sides_along(Mesh::rect(points).tris, 3, 1) == 1,
        sides_along(Mesh::rect(points).tris, 0, 2) == 0,
        sides_along(Mesh::rect(points).tris, 2, 0) == 0,
{
    let tris = Mesh::rect(points).tris;
    assert(tris.drop_last() =~= seq![[0u16, 1u16, 3u16]]);
    assert(tris.drop_last().drop_last() =~= Seq::<[u16; 3]>::empty());
    assert forall|a: int, b: int|
        sides_along(tris, a, b) == (if has_side(tris[0], a, b) {
            1nat
        } else {
            0nat
        }) + (if has_side(tris[1], a, b) {
            1nat
        } else {
            0nat
        }) by {
        reveal_with_fuel(sides_along, 3);
    }
}

} // verus!
