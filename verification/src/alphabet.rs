//! The block-letter alphabet.
//!
//! Every glyph is drawn by hand inside the box `x` in `[-HALF, HALF]`, `y` in
//! `[0, UNIT]`, out of strips, quads and triangles and their mirror images.
//! Letters that are not drawn yet are empty meshes, which a renderer skips.

use crate::fixed::{fx_div, fx_mul, sat_add, sat_sub, HALF, UNIT};
use crate::geometry::{
    lemma_append_keeps_facing, lemma_append_keeps_wf, lemma_append_within, lemma_every_position,
    lemma_every_position_implies, lemma_flat_every_position, lemma_flat_within,
    lemma_flip_keeps_wf, lemma_flip_turns_over, lemma_map_every_position, lemma_map_keeps_facing,
    lemma_map_within, lemma_mirrors_keep_facing, lemma_mirrors_keep_wf, lemma_mirrors_within,
    lemma_rect_tiles_quad, lemma_strip_faces, lemma_strip_wf, lemma_tri_rect_face,
    lemma_wf_is_shiftable, lemma_within_wider,
};
use crate::letters::{
    across_falling, across_level, cross, in_box, mirror_back_slash, mirror_forward_slash,
    mirror_x, mirror_y, zigzags_from, Mesh, Model,
};
use vstd::prelude::*;

verus! {

/// The number of letters.
pub const LETTERS: usize = 26;

/// A narrow upright bar along the left edge of the box.
pub const VERTICAL_LINE: [(i32, i32); 12] = [
    (-500_000, 0),
    (-300_000, 0),
    (-500_000, 200_000),
    (-300_000, 200_000),
    (-500_000, 400_000),
    (-300_000, 400_000),
    (-500_000, 600_000),
    (-300_000, 600_000),
    (-500_000, 800_000),
    (-300_000, 800_000),
    (-500_000, 1_000_000),
    (-300_000, 1_000_000),
];

/// One half of a quarter-circle arc that spans `x` in `[150_000, HALF]` and
/// `y` in `[0, 350_000]`.
pub const ARC: [(i32, i32); 5] = [
    (150_000, 0),
    (150_000, 200_000),
    (250_000, 20_000),
    (250_000, 250_000),
    (400_000, 100_000),
];

/// The right-hand stroke of V.
pub const V_STROKE: [(i32, i32); 4] = [
    (300_000, 900_000),
    (0, 150_000),
    (100_000, 0),
    (500_000, 900_000),
];

/// The triangle that joins the two strokes of V at its foot.
pub const V_FOOT: [(i32, i32); 3] = [(0, 150_000), (-100_000, 0), (100_000, 0)];

/// The bar across A.
pub const A_BAR: [(i32, i32); 4] = [
    (250_000, 450_000),
    (200_000, 600_000),
    (-200_000, 600_000),
    (-250_000, 450_000),
];

/// The piece of D between its lower arc and its mid-line.
pub const D_FLANK: [(i32, i32); 4] = [
    (57_142, 350_000),
    (400_000, 350_000),
    (100_000, 500_000),
    (430_000, 500_000),
];

/// The lowest arm of E.
pub const E_ARM: [(i32, i32); 10] = [
    (500_000, 0),
    (500_000, 200_000),
    (250_000, 0),
    (250_000, 200_000),
    (0, 0),
    (0, 200_000),
    (-250_000, 0),
    (-250_000, 200_000),
    (-300_000, 0),
    (-300_000, 200_000),
];

/// The middle arm of E.
pub const E_MIDDLE: [(i32, i32); 8] = [
    (500_000, 400_000),
    (500_000, 600_000),
    (250_000, 400_000),
    (250_000, 600_000),
    (0, 400_000),
    (0, 600_000),
    (-300_000, 400_000),
    (-300_000, 600_000),
];

/// The bar across H.
pub const H_BAR: [(i32, i32); 6] = [
    (-200_000, 600_000),
    (-200_000, 400_000),
    (0, 600_000),
    (0, 400_000),
    (200_000, 600_000),
    (200_000, 400_000),
];

/// The foot of L.
pub const L_FOOT: [(i32, i32); 11] = [
    (500_000, 0),
    (500_000, 200_000),
    (250_000, 0),
    (250_000, 200_000),
    (0, 0),
    (0, 200_000),
    (-250_000, 0),
    (-250_000, 200_000),
    (-300_000, 0),
    (-300_000, 200_000),
    (-500_000, 0),
];

/// The upright piece on the right of O, below its mid-line.
pub const O_FLANK: [(i32, i32); 6] = [
    (300_000, 350_000),
    (500_000, 350_000),
    (300_000, 500_000),
    (500_000, 500_000),
    (300_000, 650_000),
    (500_000, 650_000),
];

/// The bottom of O.
pub const O_BASE: [(i32, i32); 6] = [
    (-150_000, 200_000),
    (-150_000, 0),
    (0, 200_000),
    (0, 0),
    (150_000, 200_000),
    (150_000, 0),
];

/// The stem of P, cut where the bowl meets it.
pub const P_STEM: [(i32, i32); 14] = [
    (-500_000, 0),
    (-200_000, 0),
    (-500_000, 200_000),
    (-200_000, 200_000),
    (-500_000, 300_000),
    (-200_000, 300_000),
    (-500_000, 500_000),
    (-200_000, 500_000),
    (-500_000, 600_000),
    (-200_000, 600_000),
    (-500_000, 800_000),
    (-200_000, 800_000),
    (-500_000, 1_000_000),
    (-200_000, 1_000_000),
];

/// The leg of R.
pub const R_LEG: [(i32, i32); 8] = [
    (-28_570, 320_000),
    (-200_000, 300_000),
    (100_000, 250_000),
    (-100_000, 250_000),
    (250_000, 150_000),
    (0, 150_000),
    (400_000, 0),
    (100_000, 0),
];

/// The inner stroke of the right half of W.
pub const W_INNER: [(i32, i32); 8] = [
    (0, 1_000_000),
    (100_000, 1_000_000),
    (0, 650_000),
    (150_000, 700_000),
    (50_000, 300_000),
    (200_000, 400_000),
    (100_000, 0),
    (200_000, 0),
];

/// The outer stroke of the right half of W.
pub const W_OUTER: [(i32, i32); 7] = [
    (200_000, 0),
    (200_000, 400_000),
    (300_000, 0),
    (250_000, 700_000),
    (400_000, 500_000),
    (300_000, 1_000_000),
    (500_000, 1_000_000),
];

/// Widens a bar that stands on the left edge by half, away from the edge.
pub open spec fn thickened(p: [i32; 3]) -> [i32; 3] {
    [sat_sub(fx_mul(sat_add(p[0], HALF), 1_500_000), HALF), p[1], p[2]]
}

/// Where the arc's `x` goes to make a bowl that starts at a stem: the
/// arc's span `[150_000, HALF]` is stretched onto `[-200_000, 400_000]`.
pub open spec fn bowl_x(x: i32) -> i32 {
    sat_sub(fx_mul(fx_div(sat_sub(x, 150_000), 350_000), 600_000), 200_000)
}

/// Stretches the arc into the bowl of D.
pub open spec fn bowl(p: [i32; 3]) -> [i32; 3] {
    [bowl_x(p[0]), p[1], p[2]]
}

/// Stretches the arc into the bowl of P and lifts it.
pub open spec fn raised_bowl(p: [i32; 3]) -> [i32; 3] {
    [bowl_x(p[0]), sat_add(p[1], 150_000), p[2]]
}

/// Lifts a position by 150_000.
pub open spec fn raised(p: [i32; 3]) -> [i32; 3] {
    [p[0], sat_add(p[1], 150_000), p[2]]
}

/// Squeezes the box into its upper half.
pub open spec fn upper_half(p: [i32; 3]) -> [i32; 3] {
    [p[0], sat_add(fx_mul(p[1], HALF), HALF), p[2]]
}

/// Squeezes the box into its lower half.
pub open spec fn lower_half(p: [i32; 3]) -> [i32; 3] {
    [p[0], fx_mul(p[1], HALF), p[2]]
}

/// A narrow upright bar along the left edge.
pub open spec fn vertical_line() -> Mesh {
    Mesh::strip(VERTICAL_LINE@)
}

/// A wider upright bar along the left edge.
pub open spec fn vertical_line_thick() -> Mesh {
    vertical_line().map_positions(|p: [i32; 3]| thickened(p))
}

/// A quarter-circle arc in the lower right corner of the box.
pub open spec fn arc() -> Mesh {
    let half = Mesh::strip(ARC@).flip();
    half.append(half.mirror_back_slash())
}

/// V: a stroke, its mirror image, and the foot between them.
pub open spec fn outline_v() -> Mesh {
    let stroke = Mesh::rect(V_STROKE@);
    stroke.append(stroke.mirror_x()).append(Mesh::tri(V_FOOT@))
}

/// A: V upside down, with a bar across.
pub open spec fn outline_a() -> Mesh {
    outline_v().mirror_y().append(Mesh::rect(A_BAR@))
}

/// D: a thick stem, and a bowl made of the arc, a flank and their mirror
/// image across the mid-line.
pub open spec fn outline_d() -> Mesh {
    let lower = arc().map_positions(|p: [i32; 3]| bowl(p)).append(Mesh::strip(D_FLANK@));
    vertical_line_thick().append(lower.append(lower.mirror_y()))
}

/// B: one D squeezed into the upper half, and one into the lower half.
pub open spec fn outline_b() -> Mesh {
    outline_d().map_positions(|p: [i32; 3]| upper_half(p)).append(
        outline_d().map_positions(|p: [i32; 3]| lower_half(p)),
    )
}

/// E: the lowest arm, its mirror image at the top, the middle arm, and a stem.
pub open spec fn outline_e() -> Mesh {
    let arm = Mesh::strip(E_ARM@);
    arm.append(arm.mirror_y()).append(Mesh::strip(E_MIDDLE@)).append(vertical_line())
}

/// H: a thick stem, its mirror image, and a bar across.
pub open spec fn outline_h() -> Mesh {
    let stem = vertical_line_thick();
    stem.append(stem.mirror_x()).append(Mesh::strip(H_BAR@))
}

/// L: a foot, and the foot stood on end as the stem.
pub open spec fn outline_l() -> Mesh {
    let foot = Mesh::strip(L_FOOT@);
    foot.append(foot.mirror_forward_slash())
}

/// O: a quarter of the ring mirrored twice, and the base with its mirror
/// image at the top.
pub open spec fn outline_o() -> Mesh {
    let quarter = arc();
    let right = quarter.append(quarter.mirror_y()).append(Mesh::strip(O_FLANK@));
    let base = Mesh::strip(O_BASE@);
    right.append(right.mirror_x()).append(base.append(base.mirror_y()))
}

/// P: a bowl in the upper part of the box, and a stem.
pub open spec fn outline_p() -> Mesh {
    let lower = arc().map_positions(|p: [i32; 3]| raised_bowl(p));
    lower.append(lower.mirror_y()).map_positions(|p: [i32; 3]| raised(p)).append(
        Mesh::strip(P_STEM@),
    )
}

/// R: P with a leg.
pub open spec fn outline_r() -> Mesh {
    outline_p().append(Mesh::strip(R_LEG@))
}

/// W: two strokes, turned to face the viewer, and their mirror image.
pub open spec fn outline_w() -> Mesh {
    let right = Mesh::strip(W_INNER@).append(Mesh::strip(W_OUTER@)).flip();
    right.append(right.mirror_x())
}

/// M: W upside down.
pub open spec fn outline_m() -> Mesh {
    outline_w().mirror_y()
}

/// Whether the letter with the given index has an outline yet: so far A, B,
/// D, E, H, L, M, O, P, R, V and W have.
pub open spec fn is_drawn(letter: int) -> bool {
    letter == 0 || letter == 1 || letter == 3 || letter == 4 || letter == 7 || letter == 11
        || letter == 12 || letter == 14 || letter == 15 || letter == 17 || letter == 21 || letter
        == 22
}

/// The outline of the letter with the given index, `0` for A up to `25` for
/// Z. A letter that is not drawn yet has the empty mesh.
pub open spec fn outline(letter: int) -> Mesh {
    if letter == 0 {
        outline_a()
    } else if letter == 1 {
        outline_b()
    } else if letter == 3 {
        outline_d()
    } else if letter == 4 {
        outline_e()
    } else if letter == 7 {
        outline_h()
    } else if letter == 11 {
        outline_l()
    } else if letter == 12 {
        outline_m()
    } else if letter == 14 {
        outline_o()
    } else if letter == 15 {
        outline_p()
    } else if letter == 17 {
        outline_r()
    } else if letter == 21 {
        outline_v()
    } else if letter == 22 {
        outline_w()
    } else {
        Mesh::empty()
    }
}

/// The finished glyph of a letter: its outline, textured by position.
pub open spec fn glyph(letter: int) -> Mesh {
    outline(letter).reset_tex_coords()
}

/// Whether every point has its `x` in `x0..=x1` and its `y` in `y0..=y1`.
pub open spec fn points_in(points: Seq<(i32, i32)>, x0: int, x1: int, y0: int, y1: int) -> bool {
    forall|i: int|
        0 <= i < points.len() ==> x0 <= (#[trigger] points[i]).0 <= x1 && y0 <= points[i].1 <= y1
}

/// The glyph box: `x` in `[-HALF, HALF]`, `y` in `[0, UNIT]`.
pub open spec fn in_glyph_box(m: Mesh) -> bool {
    m.within(-HALF as int, HALF as int, 0, UNIT as int)
}

/// Whether every vertex shows the point of the texture that its position
/// names: its `x` moved right by `HALF`, and its `y`, both within the
/// texture.
pub open spec fn textured_by_position(m: Mesh) -> bool {
    forall|i: int|
        0 <= i < m.verts.len() ==> {
            let v = #[trigger] m.verts[i];
            &&& v.tex_coords[0] == v.position[0] + HALF
            &&& v.tex_coords[1] == v.position[1]
            &&& 0 <= v.tex_coords[0] <= UNIT
            &&& 0 <= v.tex_coords[1] <= UNIT
        }
}

/// A part of a glyph is sound if its indices are in range, it has no more
/// than `most` vertices, it lies in the glyph box and every triangle of it
/// faces the viewer.
pub open spec fn sound(m: Mesh, most: int) -> bool {
    &&& m.wf()
    &&& m.verts.len() <= most
    &&& in_glyph_box(m)
    &&& m.front_facing()
}

proof fn lemma_sound_strip(points: Seq<(i32, i32)>)
    requires
        3 <= points.len() <= 65536,
        points_in(points, -HALF as int, HALF as int, 0, UNIT as int),
        zigzags_from(points, 0, true),
    ensures
        sound(Mesh::strip(points), points.len() as int),
{
    lemma_strip_wf(points);
    lemma_strip_faces(points, true);
    lemma_flat_within(points, Seq::empty(), -HALF as int, HALF as int, 0, UNIT as int);
}

proof fn lemma_sound_flipped_strip(points: Seq<(i32, i32)>)
    requires
        3 <= points.len() <= 65536,
        points_in(points, -HALF as int, HALF as int, 0, UNIT as int),
        zigzags_from(points, 0, false),
    ensures
        sound(Mesh::strip(points).flip(), points.len() as int),
{
    let m = Mesh::strip(points);
    lemma_strip_wf(points);
    lemma_strip_faces(points, false);
    lemma_flat_within(points, Seq::empty(), -HALF as int, HALF as int, 0, UNIT as int);
    lemma_flip_keeps_wf(m);
    lemma_flip_turns_over(m);
    assert(m.flip().verts == m.verts);
}

proof fn lemma_sound_append(a: Mesh, b: Mesh, first: int, second: int)
    requires
        sound(a, first),
        sound(b, second),
        first + second <= 65536,
    ensures
        sound(a.append(b), first + second),
{
    lemma_wf_is_shiftable(b, a.verts.len() as int);
    lemma_append_keeps_wf(a, b);
    lemma_append_keeps_facing(a, b);
    lemma_append_within(a, b, -HALF as int, HALF as int, 0, UNIT as int);
}

proof fn lemma_sound_mirrors(m: Mesh, most: int)
    requires
        sound(m, most),
    ensures
        sound(m.mirror_x(), most),
        sound(m.mirror_y(), most),
        sound(m.mirror_forward_slash(), most),
        sound(m.mirror_back_slash(), most),
{
    lemma_mirrors_keep_wf(m);
    lemma_mirrors_within(m, -HALF as int, HALF as int, 0, UNIT as int);
    lemma_mirrors_keep_facing(m);
}

/// The positions in the glyph box with an even `y`: halving such a `y`
/// loses nothing.
spec fn even_y() -> spec_fn([i32; 3]) -> bool {
    |p: [i32; 3]| in_box(p, -HALF as int, HALF as int, 0, UNIT as int) && p[1] % 2 == 0
}

/// The positions with an even `x` and an even `y` on the left of the glyph
/// box, where the narrow bar stands.
spec fn even_on_the_left() -> spec_fn([i32; 3]) -> bool {
    |p: [i32; 3]| in_box(p, -500_000, -300_000, 0, 1_000_000) && p[0] % 2 == 0 && p[1] % 2 == 0
}

/// The positions with an even `x` and an even `y` where the first half of
/// the arc lies.
spec fn even_in_the_half() -> spec_fn([i32; 3]) -> bool {
    |p: [i32; 3]| in_box(p, 150_000, 400_000, 0, 250_000) && p[0] % 2 == 0 && p[1] % 2 == 0
}

/// The positions with an even `y` in the corner that the arc lies in.
spec fn even_in_the_corner() -> spec_fn([i32; 3]) -> bool {
    |p: [i32; 3]| in_box(p, 150_000, 500_000, 0, 350_000) && p[1] % 2 == 0
}

/// The positions low enough in the glyph box to be raised within it.
spec fn raisable() -> spec_fn([i32; 3]) -> bool {
    |p: [i32; 3]| in_box(p, -HALF as int, HALF as int, 0, 850_000)
}

proof fn lemma_vertical_lines()
    ensures
        sound(vertical_line(), 12),
        sound(vertical_line_thick(), 12),
        vertical_line().every_position(even_y()),
        vertical_line_thick().every_position(even_y()),
{
    assert(points_in(VERTICAL_LINE@, -500_000, -300_000, 0, 1_000_000));
    assert(zigzags_from(VERTICAL_LINE@, 0, true)) by {
        reveal_with_fuel(zigzags_from, 12);
    }
    lemma_sound_strip(VERTICAL_LINE@);
    lemma_flat_within(VERTICAL_LINE@, Seq::empty(), -500_000, -300_000, 0, 1_000_000);
    lemma_flat_every_position(VERTICAL_LINE@, Seq::empty(), even_on_the_left());
    let line = vertical_line();
    let f = |p: [i32; 3]| thickened(p);
    lemma_map_within(
        line,
        f,
        (-500_000, -300_000, 0, 1_000_000),
        (-500_000, 500_000, 0, 1_000_000),
    );
    assert forall|a: [i32; 3], b: [i32; 3], c: [i32; 3]|
        even_on_the_left()(a) && even_on_the_left()(b) && even_on_the_left()(c)
            && #[trigger] cross(a, b, c) > 0 implies cross(f(a), f(b), f(c)) > 0 by {
        let (ax, bx, cx) = (a[0] / 2, b[0] / 2, c[0] / 2);
        assert(f(a)[0] == 3 * ax + 250_000 && f(a)[1] == a[1]);
        assert(f(b)[0] == 3 * bx + 250_000 && f(b)[1] == b[1]);
        assert(f(c)[0] == 3 * cx + 250_000 && f(c)[1] == c[1]);
        let (ay, by, cy) = (a[1] as int, b[1] as int, c[1] as int);
        assert(2 * ((3 * bx - 3 * ax) * (cy - ay) - (3 * cx - 3 * ax) * (by - ay)) == 3 * ((2 * bx
            - 2 * ax) * (cy - ay) - (2 * cx - 2 * ax) * (by - ay))) by (nonlinear_arith);
    }
    lemma_map_keeps_facing(line, f, even_on_the_left());
    lemma_map_every_position(line, f, even_on_the_left(), even_y());
    lemma_every_position_implies(line, even_on_the_left(), even_y());
}

proof fn lemma_arc()
    ensures
        sound(arc(), 10),
        arc().within(150_000, 500_000, 0, 350_000),
        arc().every_position(even_in_the_corner()),
{
    let strip = Mesh::strip(ARC@);
    let half = strip.flip();
    assert(points_in(ARC@, 150_000, 400_000, 0, 250_000));
    assert(zigzags_from(ARC@, 0, false)) by {
        reveal_with_fuel(zigzags_from, 5);
    }
    lemma_sound_flipped_strip(ARC@);
    lemma_sound_mirrors(half, 5);
    lemma_sound_append(half, half.mirror_back_slash(), 5, 5);
    lemma_flat_within(ARC@, Seq::empty(), 150_000, 400_000, 0, 250_000);
    lemma_mirrors_within(strip, 150_000, 400_000, 0, 250_000);
    lemma_mirrors_within(half, 150_000, 400_000, 0, 250_000);
    lemma_within_wider(half, (150_000, 400_000, 0, 250_000), (150_000, 500_000, 0, 350_000));
    lemma_within_wider(
        half.mirror_back_slash(),
        (250_000, 500_000, 100_000, 350_000),
        (150_000, 500_000, 0, 350_000),
    );
    lemma_append_within(half, half.mirror_back_slash(), 150_000, 500_000, 0, 350_000);
    lemma_flat_every_position(ARC@, Seq::empty(), even_in_the_half());
    lemma_every_position(strip, strip, even_in_the_half());
    lemma_every_position_implies(half, even_in_the_half(), even_in_the_corner());
    lemma_map_every_position(
        half,
        |p: [i32; 3]| across_falling(p),
        even_in_the_half(),
        even_in_the_corner(),
    );
    lemma_every_position(half, half.mirror_back_slash(), even_in_the_corner());
}

/// The triangle `t` of `m` faces the viewer if its corners, which lie at
/// `a`, `b` and `c`, run counter-clockwise.
proof fn lemma_faces_at(m: Mesh, t: int, a: (int, int), b: (int, int), c: (int, int))
    requires
        0 <= t < m.tris.len(),
        m.verts[m.tris[t][0] as int].position[0] == a.0,
        m.verts[m.tris[t][0] as int].position[1] == a.1,
        m.verts[m.tris[t][1] as int].position[0] == b.0,
        m.verts[m.tris[t][1] as int].position[1] == b.1,
        m.verts[m.tris[t][2] as int].position[0] == c.0,
        m.verts[m.tris[t][2] as int].position[1] == c.1,
        (b.0 - a.0) * (c.1 - a.1) - (c.0 - a.0) * (b.1 - a.1) > 0,
    ensures
        m.signed_area(t) > 0,
{
}

/// The arc with its `x` moved by `bowl_x`, and raised by `lift`, faces the
/// viewer: the triangles are worked out one by one.
proof fn lemma_stretched_arc_faces(m: Mesh, lift: int)
    requires
        m.tris == arc().tris,
        m.verts.len() == 10,
        forall|i: int|
            0 <= i < 10 ==> {
                &&& (#[trigger] m.verts[i]).position[0] == bowl_x(arc().verts[i].position[0])
                &&& m.verts[i].position[1] == arc().verts[i].position[1] + lift
            },
    ensures
        m.front_facing(),
        m.tris.len() == 6,
{
    let source = arc();
    assert(source.tris.len() == 6);
    assert(source.verts[0].position =~= [150_000i32, 0i32, 0i32]);
    assert(source.verts[1].position =~= [150_000i32, 200_000i32, 0i32]);
    assert(source.verts[2].position =~= [250_000i32, 20_000i32, 0i32]);
    assert(source.verts[3].position =~= [250_000i32, 250_000i32, 0i32]);
    assert(source.verts[4].position =~= [400_000i32, 100_000i32, 0i32]);
    assert(source.verts[5].position =~= [500_000i32, 350_000i32, 0i32]);
    assert(source.verts[6].position =~= [300_000i32, 350_000i32, 0i32]);
    assert(source.verts[7].position =~= [480_000i32, 250_000i32, 0i32]);
    assert(source.verts[8].position =~= [250_000i32, 250_000i32, 0i32]);
    assert(source.verts[9].position =~= [400_000i32, 100_000i32, 0i32]);
    assert(source.tris[0] =~= [0u16, 2u16, 1u16]);
    assert(source.tris[1] =~= [1u16, 2u16, 3u16]);
    assert(source.tris[2] =~= [2u16, 4u16, 3u16]);
    assert(source.tris[3] =~= [5u16, 6u16, 7u16]);
    assert(source.tris[4] =~= [6u16, 8u16, 7u16]);
    assert(source.tris[5] =~= [7u16, 8u16, 9u16]);
    assert(bowl_x(150_000) == -200_000);
    assert(bowl_x(250_000) == -28_572);
    assert(bowl_x(300_000) == 57_142);
    assert(bowl_x(400_000) == 228_571);
    assert(bowl_x(480_000) == 365_714);
    assert(bowl_x(500_000) == 400_000);
    let v0 = (-200_000int, 0 + lift);
    let v1 = (-200_000int, 200_000 + lift);
    let v2 = (-28_572int, 20_000 + lift);
    let v3 = (-28_572int, 250_000 + lift);
    let v4 = (228_571int, 100_000 + lift);
    let v5 = (400_000int, 350_000 + lift);
    let v6 = (57_142int, 350_000 + lift);
    let v7 = (365_714int, 250_000 + lift);
    let v8 = (-28_572int, 250_000 + lift);
    let v9 = (228_571int, 100_000 + lift);
    assert(m.verts[0].position[0] == v0.0 && m.verts[0].position[1] == v0.1);
    assert(m.verts[1].position[0] == v1.0 && m.verts[1].position[1] == v1.1);
    assert(m.verts[2].position[0] == v2.0 && m.verts[2].position[1] == v2.1);
    assert(m.verts[3].position[0] == v3.0 && m.verts[3].position[1] == v3.1);
    assert(m.verts[4].position[0] == v4.0 && m.verts[4].position[1] == v4.1);
    assert(m.verts[5].position[0] == v5.0 && m.verts[5].position[1] == v5.1);
    assert(m.verts[6].position[0] == v6.0 && m.verts[6].position[1] == v6.1);
    assert(m.verts[7].position[0] == v7.0 && m.verts[7].position[1] == v7.1);
    assert(m.verts[8].position[0] == v8.0 && m.verts[8].position[1] == v8.1);
    assert(m.verts[9].position[0] == v9.0 && m.verts[9].position[1] == v9.1);
    lemma_faces_at(m, 0, v0, v2, v1);
    lemma_faces_at(m, 1, v1, v2, v3);
    lemma_faces_at(m, 2, v2, v4, v3);
    lemma_faces_at(m, 3, v5, v6, v7);
    lemma_faces_at(m, 4, v6, v8, v7);
    lemma_faces_at(m, 5, v7, v8, v9);
    assert forall|t: int| 0 <= t < m.tris.len() implies #[trigger] m.signed_area(t) > 0 by {
        assert(t == 0 || t == 1 || t == 2 || t == 3 || t == 4 || t == 5);
    }
}

proof fn lemma_bowl()
    ensures
        sound(arc().map_positions(|p: [i32; 3]| bowl(p)), 10),
        arc().map_positions(|p: [i32; 3]| bowl(p)).every_position(even_y()),
{
    lemma_arc();
    let curve = arc().map_positions(|p: [i32; 3]| bowl(p));
    lemma_map_within(
        arc(),
        |p: [i32; 3]| bowl(p),
        (150_000, 500_000, 0, 350_000),
        (-500_000, 500_000, 0, 1_000_000),
    );
    lemma_map_every_position(arc(), |p: [i32; 3]| bowl(p), even_in_the_corner(), even_y());
    assert(curve.wf());
    lemma_stretched_arc_faces(curve, 0);
}

proof fn lemma_raised_bowl()
    ensures
        sound(arc().map_positions(|p: [i32; 3]| raised_bowl(p)), 10),
        arc().map_positions(|p: [i32; 3]| raised_bowl(p)).within(
            -200_000,
            400_000,
            150_000,
            500_000,
        ),
{
    lemma_arc();
    let lifted = arc().map_positions(|p: [i32; 3]| raised_bowl(p));
    lemma_map_within(
        arc(),
        |p: [i32; 3]| raised_bowl(p),
        (150_000, 500_000, 0, 350_000),
        (-200_000, 400_000, 150_000, 500_000),
    );
    lemma_within_wider(
        lifted,
        (-200_000, 400_000, 150_000, 500_000),
        (-500_000, 500_000, 0, 1_000_000),
    );
    assert(lifted.wf());
    assert forall|i: int| 0 <= i < 10 implies {
        &&& (#[trigger] lifted.verts[i]).position[0] == bowl_x(arc().verts[i].position[0])
        &&& lifted.verts[i].position[1] == arc().verts[i].position[1] + 150_000
    } by {
        assert(in_box(arc().verts[i].position, 150_000, 500_000, 0, 350_000));
    }
    lemma_stretched_arc_faces(lifted, 150_000);
}

proof fn lemma_d_b()
    ensures
        sound(outline_d(), 40),
        sound(outline_b(), 80),
{
    lemma_vertical_lines();
    lemma_bowl();
    let curve = arc().map_positions(|p: [i32; 3]| bowl(p));
    let flank = Mesh::strip(D_FLANK@);
    assert(points_in(D_FLANK@, -500_000, 500_000, 0, 1_000_000));
    assert(zigzags_from(D_FLANK@, 0, true)) by {
        reveal_with_fuel(zigzags_from, 4);
    }
    lemma_sound_strip(D_FLANK@);
    lemma_flat_every_position(D_FLANK@, Seq::empty(), even_y());
    let lower = curve.append(flank);
    lemma_sound_append(curve, flank, 10, 4);
    lemma_every_position(curve, flank, even_y());
    lemma_sound_mirrors(lower, 14);
    lemma_map_every_position(
        lower,
        |p: [i32; 3]| across_level(p),
        even_y(),
        even_y(),
    );
    let bowl = lower.append(lower.mirror_y());
    lemma_sound_append(lower, lower.mirror_y(), 14, 14);
    lemma_every_position(lower, lower.mirror_y(), even_y());
    let d = outline_d();
    lemma_sound_append(vertical_line_thick(), bowl, 12, 28);
    lemma_every_position(vertical_line_thick(), bowl, even_y());
    let up = |p: [i32; 3]| upper_half(p);
    let down = |p: [i32; 3]| lower_half(p);
    lemma_map_within(d, up, (-500_000, 500_000, 0, 1_000_000), (-500_000, 500_000, 0, 1_000_000));
    lemma_map_within(d, down, (-500_000, 500_000, 0, 1_000_000), (-500_000, 500_000, 0, 1_000_000));
    assert forall|a: [i32; 3], b: [i32; 3], c: [i32; 3]|
        even_y()(a) && even_y()(b) && even_y()(c) && #[trigger] cross(a, b, c) > 0 implies cross(
        up(a),
        up(b),
        up(c),
    ) > 0 && cross(down(a), down(b), down(c)) > 0 by {
        let (ay, by, cy) = (a[1] / 2, b[1] / 2, c[1] / 2);
        let (ax, bx, cx) = (a[0] as int, b[0] as int, c[0] as int);
        assert(up(a)[1] == ay + 500_000 && down(a)[1] == ay && up(a)[0] == ax && down(a)[0] == ax);
        assert(up(b)[1] == by + 500_000 && down(b)[1] == by && up(b)[0] == bx && down(b)[0] == bx);
        assert(up(c)[1] == cy + 500_000 && down(c)[1] == cy && up(c)[0] == cx && down(c)[0] == cx);
        assert(2 * ((bx - ax) * (cy - ay) - (cx - ax) * (by - ay)) == (bx - ax) * (2 * cy - 2 * ay)
            - (cx - ax) * (2 * by - 2 * ay)) by (nonlinear_arith);
    }
    lemma_map_keeps_facing(d, up, even_y());
    lemma_map_keeps_facing(d, down, even_y());
    assert(d.map_positions(up).wf());
    assert(d.map_positions(down).wf());
    lemma_sound_append(d.map_positions(up), d.map_positions(down), 40, 40);
}

proof fn lemma_p_r()
    ensures
        sound(outline_p(), 34),
        sound(outline_r(), 42),
{
    lemma_raised_bowl();
    let lower = arc().map_positions(|p: [i32; 3]| raised_bowl(p));
    lemma_sound_mirrors(lower, 10);
    lemma_mirrors_within(lower, -200_000, 400_000, 150_000, 500_000);
    lemma_within_wider(
        lower,
        (-200_000, 400_000, 150_000, 500_000),
        (-500_000, 500_000, 0, 850_000),
    );
    lemma_within_wider(
        lower.mirror_y(),
        (-200_000, 400_000, 500_000, 850_000),
        (-500_000, 500_000, 0, 850_000),
    );
    let both = lower.append(lower.mirror_y());
    lemma_sound_append(lower, lower.mirror_y(), 10, 10);
    lemma_append_within(lower, lower.mirror_y(), -500_000, 500_000, 0, 850_000);
    assert(both.every_position(raisable()));
    let lift = |p: [i32; 3]| raised(p);
    lemma_map_within(
        both,
        lift,
        (-500_000, 500_000, 0, 850_000),
        (-500_000, 500_000, 0, 1_000_000),
    );
    assert forall|a: [i32; 3], b: [i32; 3], c: [i32; 3]|
        raisable()(a) && raisable()(b) && raisable()(c) && #[trigger] cross(a, b, c)
            > 0 implies cross(lift(a), lift(b), lift(c)) > 0 by {
        assert(lift(a)[1] == a[1] + 150_000 && lift(a)[0] == a[0]);
        assert(lift(b)[1] == b[1] + 150_000 && lift(b)[0] == b[0]);
        assert(lift(c)[1] == c[1] + 150_000 && lift(c)[0] == c[0]);
    }
    lemma_map_keeps_facing(both, lift, raisable());
    assert(both.map_positions(lift).wf());
    assert(points_in(P_STEM@, -500_000, 500_000, 0, 1_000_000));
    assert(zigzags_from(P_STEM@, 0, true)) by {
        reveal_with_fuel(zigzags_from, 14);
    }
    lemma_sound_strip(P_STEM@);
    lemma_sound_append(both.map_positions(lift), Mesh::strip(P_STEM@), 20, 14);
    assert(points_in(R_LEG@, -500_000, 500_000, 0, 1_000_000));
    assert(zigzags_from(R_LEG@, 0, true)) by {
        reveal_with_fuel(zigzags_from, 8);
    }
    lemma_sound_strip(R_LEG@);
    lemma_sound_append(outline_p(), Mesh::strip(R_LEG@), 34, 8);
}

proof fn lemma_v_a()
    ensures
        sound(outline_v(), 11),
        sound(outline_a(), 15),
{
    let stroke = Mesh::rect(V_STROKE@);
    assert(points_in(V_STROKE@, -500_000, 500_000, 0, 1_000_000));
    lemma_flat_within(V_STROKE@, Seq::empty(), -500_000, 500_000, 0, 1_000_000);
    lemma_rect_tiles_quad(V_STROKE@);
    lemma_tri_rect_face(V_STROKE@);
    lemma_sound_mirrors(stroke, 4);
    lemma_sound_append(stroke, stroke.mirror_x(), 4, 4);
    let foot = Mesh::tri(V_FOOT@);
    assert(points_in(V_FOOT@, -500_000, 500_000, 0, 1_000_000));
    lemma_flat_within(V_FOOT@, Seq::empty(), -500_000, 500_000, 0, 1_000_000);
    lemma_tri_rect_face(V_FOOT@);
    assert(foot.wf());
    lemma_sound_append(stroke.append(stroke.mirror_x()), foot, 8, 3);
    lemma_sound_mirrors(outline_v(), 11);
    let bar = Mesh::rect(A_BAR@);
    assert(points_in(A_BAR@, -500_000, 500_000, 0, 1_000_000));
    lemma_flat_within(A_BAR@, Seq::empty(), -500_000, 500_000, 0, 1_000_000);
    lemma_rect_tiles_quad(A_BAR@);
    lemma_tri_rect_face(A_BAR@);
    lemma_sound_append(outline_v().mirror_y(), bar, 11, 4);
}

proof fn lemma_e_h_l()
    ensures
        sound(outline_e(), 40),
        sound(outline_h(), 30),
        sound(outline_l(), 22),
{
    lemma_vertical_lines();
    let arm = Mesh::strip(E_ARM@);
    assert(points_in(E_ARM@, -500_000, 500_000, 0, 1_000_000));
    assert(zigzags_from(E_ARM@, 0, true)) by {
        reveal_with_fuel(zigzags_from, 10);
    }
    lemma_sound_strip(E_ARM@);
    lemma_sound_mirrors(arm, 10);
    lemma_sound_append(arm, arm.mirror_y(), 10, 10);
    assert(points_in(E_MIDDLE@, -500_000, 500_000, 0, 1_000_000));
    assert(zigzags_from(E_MIDDLE@, 0, true)) by {
        reveal_with_fuel(zigzags_from, 8);
    }
    lemma_sound_strip(E_MIDDLE@);
    lemma_sound_append(arm.append(arm.mirror_y()), Mesh::strip(E_MIDDLE@), 20, 8);
    lemma_sound_append(
        arm.append(arm.mirror_y()).append(Mesh::strip(E_MIDDLE@)),
        vertical_line(),
        28,
        12,
    );
    let stem = vertical_line_thick();
    lemma_sound_mirrors(stem, 12);
    lemma_sound_append(stem, stem.mirror_x(), 12, 12);
    assert(points_in(H_BAR@, -500_000, 500_000, 0, 1_000_000));
    assert(zigzags_from(H_BAR@, 0, true)) by {
        reveal_with_fuel(zigzags_from, 6);
    }
    lemma_sound_strip(H_BAR@);
    lemma_sound_append(stem.append(stem.mirror_x()), Mesh::strip(H_BAR@), 24, 6);
    let foot = Mesh::strip(L_FOOT@);
    assert(points_in(L_FOOT@, -500_000, 500_000, 0, 1_000_000));
    assert(zigzags_from(L_FOOT@, 0, true)) by {
        reveal_with_fuel(zigzags_from, 11);
    }
    lemma_sound_strip(L_FOOT@);
    lemma_sound_mirrors(foot, 11);
    lemma_sound_append(foot, foot.mirror_forward_slash(), 11, 11);
}

proof fn lemma_o()
    ensures
        sound(outline_o(), 64),
{
    lemma_arc();
    let quarter = arc();
    lemma_sound_mirrors(quarter, 10);
    lemma_sound_append(quarter, quarter.mirror_y(), 10, 10);
    assert(points_in(O_FLANK@, -500_000, 500_000, 0, 1_000_000));
    assert(zigzags_from(O_FLANK@, 0, true)) by {
        reveal_with_fuel(zigzags_from, 6);
    }
    lemma_sound_strip(O_FLANK@);
    let right = quarter.append(quarter.mirror_y()).append(Mesh::strip(O_FLANK@));
    lemma_sound_append(quarter.append(quarter.mirror_y()), Mesh::strip(O_FLANK@), 20, 6);
    lemma_sound_mirrors(right, 26);
    lemma_sound_append(right, right.mirror_x(), 26, 26);
    let base = Mesh::strip(O_BASE@);
    assert(points_in(O_BASE@, -500_000, 500_000, 0, 1_000_000));
    assert(zigzags_from(O_BASE@, 0, true)) by {
        reveal_with_fuel(zigzags_from, 6);
    }
    lemma_sound_strip(O_BASE@);
    lemma_sound_mirrors(base, 6);
    lemma_sound_append(base, base.mirror_y(), 6, 6);
    lemma_sound_append(right.append(right.mirror_x()), base.append(base.mirror_y()), 52, 12);
}

proof fn lemma_w_m()
    ensures
        sound(outline_w(), 30),
        sound(outline_m(), 30),
{
    let inner = Mesh::strip(W_INNER@);
    let outer = Mesh::strip(W_OUTER@);
    assert(points_in(W_INNER@, -500_000, 500_000, 0, 1_000_000));
    assert(zigzags_from(W_INNER@, 0, false)) by {
        reveal_with_fuel(zigzags_from, 8);
    }
    assert(points_in(W_OUTER@, -500_000, 500_000, 0, 1_000_000));
    assert(zigzags_from(W_OUTER@, 0, false)) by {
        reveal_with_fuel(zigzags_from, 7);
    }
    lemma_strip_wf(W_INNER@);
    lemma_strip_wf(W_OUTER@);
    lemma_strip_faces(W_INNER@, false);
    lemma_strip_faces(W_OUTER@, false);
    lemma_flat_within(W_INNER@, Seq::empty(), -500_000, 500_000, 0, 1_000_000);
    lemma_flat_within(W_OUTER@, Seq::empty(), -500_000, 500_000, 0, 1_000_000);
    let strokes = inner.append(outer);
    lemma_wf_is_shiftable(outer, 8);
    lemma_append_keeps_wf(inner, outer);
    lemma_append_keeps_facing(inner, outer);
    lemma_append_within(inner, outer, -500_000, 500_000, 0, 1_000_000);
    let right = strokes.flip();
    lemma_flip_keeps_wf(strokes);
    lemma_flip_turns_over(strokes);
    assert(right.verts == strokes.verts);
    lemma_sound_mirrors(right, 15);
    lemma_sound_append(right, right.mirror_x(), 15, 15);
    lemma_sound_mirrors(outline_w(), 30);
}

/// Every glyph is sound: its indices are in range, it lies in the glyph box
/// and every triangle of it faces the viewer. Its texture coordinates, which
/// are its `x` moved right by `HALF` and its `y`, lie within the texture.
pub proof fn lemma_glyphs_are_sound(letter: int)
    ensures
        sound(outline(letter), 80),
        sound(glyph(letter), 80),
        textured_by_position(glyph(letter)),
{
    lemma_v_a();
    lemma_d_b();
    lemma_e_h_l();
    lemma_o();
    lemma_p_r();
    lemma_w_m();
    let m = outline(letter);
    let g = glyph(letter);
    assert(sound(m, 80));
    assert forall|i: int| 0 <= i < g.verts.len() implies {
        let v = #[trigger] g.verts[i];
        &&& in_box(v.position, -HALF as int, HALF as int, 0, UNIT as int)
        &&& v.position == m.verts[i].position
        &&& v.tex_coords[0] == v.position[0] + HALF
        &&& v.tex_coords[1] == v.position[1]
        &&& 0 <= v.tex_coords[0] <= UNIT
        &&& 0 <= v.tex_coords[1] <= UNIT
    } by {
        assert(in_box(m.verts[i].position, -HALF as int, HALF as int, 0, UNIT as int));
        assert(g.verts[i] == m.verts[i].retextured());
    }
    assert forall|t: int| 0 <= t < g.tris.len() implies #[trigger] g.signed_area(t) > 0 by {
        assert(m.tris[t][0] < m.verts.len());
        assert(m.tris[t][1] < m.verts.len());
        assert(m.tris[t][2] < m.verts.len());
        assert(m.signed_area(t) > 0);
    }
}

fn thicken(p: [i32; 3]) -> (q: [i32; 3])
    ensures
        q == thickened(p),
{
    [sat_sub(fx_mul(sat_add(p[0], HALF), 1_500_000), HALF), p[1], p[2]]
}

fn stretch(x: i32) -> (r: i32)
    ensures
        r == bowl_x(x),
{
    sat_sub(fx_mul(fx_div(sat_sub(x, 150_000), 350_000), 600_000), 200_000)
}

fn to_bowl(p: [i32; 3]) -> (q: [i32; 3])
    ensures
        q == bowl(p),
{
    [stretch(p[0]), p[1], p[2]]
}

fn to_raised_bowl(p: [i32; 3]) -> (q: [i32; 3])
    ensures
        q == raised_bowl(p),
{
    [stretch(p[0]), sat_add(p[1], 150_000), p[2]]
}

fn raise(p: [i32; 3]) -> (q: [i32; 3])
    ensures
        q == raised(p),
{
    [p[0], sat_add(p[1], 150_000), p[2]]
}

fn to_upper_half(p: [i32; 3]) -> (q: [i32; 3])
    ensures
        q == upper_half(p),
{
    [p[0], sat_add(fx_mul(p[1], HALF), HALF), p[2]]
}

fn to_lower_half(p: [i32; 3]) -> (q: [i32; 3])
    ensures
        q == lower_half(p),
{
    [p[0], fx_mul(p[1], HALF), p[2]]
}

fn build_vertical_line() -> (m: Model)
    ensures
        m@ == vertical_line(),
        m@.wf(),
        m.verts.len() == 12,
{
    Model::tristrip_2d(&VERTICAL_LINE).unwrap()
}

fn build_vertical_line_thick() -> (m: Model)
    ensures
        m@ == vertical_line_thick(),
        m@.wf(),
        m.verts.len() == 12,
{
    let m = build_vertical_line().vert_mod(thicken);
    assert(m@ == vertical_line().map_positions(|p: [i32; 3]| thickened(p)));
    m
}

fn build_arc() -> (m: Model)
    ensures
        m@ == arc(),
        m@.wf(),
        m.verts.len() == 10,
{
    Model::tristrip_2d(&ARC).unwrap().flip().append_apply(mirror_back_slash).unwrap()
}

fn build_v() -> (m: Model)
    ensures
        m@ == outline_v(),
        m@.wf(),
        m.verts.len() == 11,
{
    Model::rect_2d(V_STROKE).append_apply(mirror_x).unwrap().append_tri_2d(V_FOOT).unwrap()
}

fn build_a() -> (m: Model)
    ensures
        m@ == outline_a(),
        m@.wf(),
        m.verts.len() == 15,
{
    mirror_y(build_v()).append_rect_2d(A_BAR).unwrap()
}

fn build_d() -> (m: Model)
    ensures
        m@ == outline_d(),
        m@.wf(),
        m.verts.len() == 40,
{
    let curve = build_arc().vert_mod(to_bowl);
    assert(curve@ == arc().map_positions(|p: [i32; 3]| bowl(p)));
    let lower = curve.append(Model::tristrip_2d(&D_FLANK).unwrap()).unwrap();
    let bowl = lower.append_apply(mirror_y).unwrap();
    build_vertical_line_thick().append(bowl).unwrap()
}

fn build_b() -> (m: Model)
    ensures
        m@ == outline_b(),
        m@.wf(),
        m.verts.len() == 80,
{
    let upper = build_d().vert_mod(to_upper_half);
    assert(upper@ == outline_d().map_positions(|p: [i32; 3]| upper_half(p)));
    let lower = build_d().vert_mod(to_lower_half);
    assert(lower@ == outline_d().map_positions(|p: [i32; 3]| lower_half(p)));
    upper.append(lower).unwrap()
}

fn build_e() -> (m: Model)
    ensures
        m@ == outline_e(),
        m@.wf(),
        m.verts.len() == 40,
{
    let arms = Model::tristrip_2d(&E_ARM).unwrap().append_apply(mirror_y).unwrap();
    let comb = arms.append(Model::tristrip_2d(&E_MIDDLE).unwrap()).unwrap();
    comb.append(build_vertical_line()).unwrap()
}

fn build_h() -> (m: Model)
    ensures
        m@ == outline_h(),
        m@.wf(),
        m.verts.len() == 30,
{
    let stems = build_vertical_line_thick().append_apply(mirror_x).unwrap();
    stems.append(Model::tristrip_2d(&H_BAR).unwrap()).unwrap()
}

fn build_l() -> (m: Model)
    ensures
        m@ == outline_l(),
        m@.wf(),
        m.verts.len() == 22,
{
    Model::tristrip_2d(&L_FOOT).unwrap().append_apply(mirror_forward_slash).unwrap()
}

fn build_o() -> (m: Model)
    ensures
        m@ == outline_o(),
        m@.wf(),
        m.verts.len() == 64,
{
    let curve = build_arc().append_apply(mirror_y).unwrap();
    let right = curve.append(Model::tristrip_2d(&O_FLANK).unwrap()).unwrap();
    let ring = right.append_apply(mirror_x).unwrap();
    let base = Model::tristrip_2d(&O_BASE).unwrap().append_apply(mirror_y).unwrap();
    ring.append(base).unwrap()
}

fn build_p() -> (m: Model)
    ensures
        m@ == outline_p(),
        m@.wf(),
        m.verts.len() == 34,
{
    let lower = build_arc().vert_mod(to_raised_bowl);
    assert(lower@ == arc().map_positions(|p: [i32; 3]| raised_bowl(p)));
    let both = lower.append_apply(mirror_y).unwrap();
    let bowl = both.vert_mod(raise);
    assert(bowl@ == both@.map_positions(|p: [i32; 3]| raised(p)));
    bowl.append(Model::tristrip_2d(&P_STEM).unwrap()).unwrap()
}

fn build_r() -> (m: Model)
    ensures
        m@ == outline_r(),
        m@.wf(),
        m.verts.len() == 42,
{
    build_p().append(Model::tristrip_2d(&R_LEG).unwrap()).unwrap()
}

fn build_w() -> (m: Model)
    ensures
        m@ == outline_w(),
        m@.wf(),
        m.verts.len() == 30,
{
    let strokes = Model::tristrip_2d(&W_INNER).unwrap().append(
        Model::tristrip_2d(&W_OUTER).unwrap(),
    ).unwrap();
    strokes.flip().append_apply(mirror_x).unwrap()
}

fn build_m() -> (m: Model)
    ensures
        m@ == outline_m(),
        m@.wf(),
        m.verts.len() == 30,
{
    mirror_y(build_w())
}

fn build_placeholder() -> (m: Model)
    ensures
        m@ == Mesh::empty(),
        m@.wf(),
{
    let points: [(i32, i32); 0] = [];
    let triangles: [[u16; 3]; 0] = [];
    let m = Model::new_2d(&points, &triangles).unwrap();
    assert(m@.verts == Mesh::empty().verts);
    assert(m@.tris == Mesh::empty().tris);
    m
}

/// The twenty-six glyphs, A first and Z last, each textured by position.
/// Letters that are not drawn yet come as empty meshes.
pub fn create_alphabet_models() -> (letters: Vec<Model>)
    ensures
        letters.len() == LETTERS,
        forall|i: int|
            0 <= i < LETTERS ==> {
                &&& (#[trigger] letters[i])@ == glyph(i)
                &&& letters[i]@.wf()
                &&& in_glyph_box(letters[i]@)
                &&& letters[i]@.front_facing()
                &&& textured_by_position(letters[i]@)
                &&& !is_drawn(i) ==> letters[i].verts.len() == 0 && letters[i].tri_idxs.len() == 0
            },
{
    proof {
        assert forall|i: int| 0 <= i < LETTERS implies sound(#[trigger] glyph(i), 80)
            && textured_by_position(glyph(i)) by {
            lemma_glyphs_are_sound(i);
        }
    }
    let mut letters: Vec<Model> = Vec::new();
    letters.push(build_a().reset_tex_coords());
    letters.push(build_b().reset_tex_coords());
    letters.push(build_placeholder().reset_tex_coords());
    letters.push(build_d().reset_tex_coords());
    letters.push(build_e().reset_tex_coords());
    letters.push(build_placeholder().reset_tex_coords());
    letters.push(build_placeholder().reset_tex_coords());
    letters.push(build_h().reset_tex_coords());
    letters.push(build_placeholder().reset_tex_coords());
    letters.push(build_placeholder().reset_tex_coords());
    letters.push(build_placeholder().reset_tex_coords());
    letters.push(build_l().reset_tex_coords());
    letters.push(build_m().reset_tex_coords());
    letters.push(build_placeholder().reset_tex_coords());
    letters.push(build_o().reset_tex_coords());
    letters.push(build_p().reset_tex_coords());
    letters.push(build_placeholder().reset_tex_coords());
    letters.push(build_r().reset_tex_coords());
    letters.push(build_placeholder().reset_tex_coords());
    letters.push(build_placeholder().reset_tex_coords());
    letters.push(build_placeholder().reset_tex_coords());
    letters.push(build_v().reset_tex_coords());
    letters.push(build_w().reset_tex_coords());
    letters.push(build_placeholder().reset_tex_coords());
    letters.push(build_placeholder().reset_tex_coords());
    letters.push(build_placeholder().reset_tex_coords());
    letters
}

/// The code of `c` with an upper-case ASCII letter turned into its lower case.
pub open spec fn lowered(c: char) -> int {
    if 'A' <= c <= 'Z' {
        c as int + 32
    } else {
        c as int
    }
}

/// The place of a letter in the alphabet, `0` for `a` or `A`. The character
/// has to be ASCII, and none that comes before the letters.
pub fn letter_index(c: char) -> (idx: usize)
    requires
        (c as int) < 128,
        lowered(c) >= 97,
    ensures
        idx == lowered(c) - 97,
        ('a' <= c <= 'z' || 'A' <= c <= 'Z') ==> idx < LETTERS,
{
    let code: u32 = c as u32;
    let lower: u32 = if 65 <= code && code <= 90 {
        code + 32
    } else {
        code
    };
    (lower - 97) as usize
}

} // verus!
