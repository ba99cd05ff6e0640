use letter_mesh::fixed::{HALF, UNIT};
use letter_mesh::letters::{
    mirror_back_slash, mirror_forward_slash, mirror_x, mirror_y, Model, Vert,
};
use letter_mesh::Error;

fn unit_square() -> Model {
    Model::rect_2d([(0, 0), (UNIT, 0), (UNIT, UNIT), (0, UNIT)])
}

fn positions(m: &Model) -> Vec<[i32; 3]> {
    m.verts.iter().map(|v| v.position).collect()
}

#[test]
fn new_white_takes_texture_coordinates_from_position() {
    let v = Vert::new_white([250_000, -40_000, 7]);
    assert_eq!(v.position, [250_000, -40_000, 7]);
    assert_eq!(v.tex_coords, [250_000, -40_000]);
}

#[test]
fn tri_2d_of_the_unit_corner() {
    let m = Model::tri_2d([(0, 0), (UNIT, 0), (0, UNIT)]);
    assert_eq!(positions(&m), vec![[0, 0, 0], [UNIT, 0, 0], [0, UNIT, 0]]);
    assert_eq!(m.tri_idxs, vec![[0u16, 1, 2]]);
    assert_eq!(m.verts[1].tex_coords, [UNIT, 0]);
    assert_eq!(m.number_indices(), 3);
}

#[test]
fn rect_2d_has_four_vertices_and_two_triangles() {
    let m = Model::rect_2d([(-3, -5), (40, -5), (40, 60), (-3, 60)]);
    assert_eq!(m.verts.len(), 4);
    assert_eq!(m.tri_idxs, vec![[0u16, 1, 3], [1, 2, 3]]);
    assert_eq!(positions(&m), vec![[-3, -5, 0], [40, -5, 0], [40, 60, 0], [-3, 60, 0]]);
}

#[test]
fn rect_2d_triangles_tile_the_quad() {
    let m = unit_square();
    let sides = |a: u16, b: u16| {
        m.tri_idxs
            .iter()
            .filter(|t| (t[0], t[1]) == (a, b) || (t[1], t[2]) == (a, b) || (t[2], t[0]) == (a, b))
            .count()
    };
    for a in 0u16..4 {
        let b = (a + 1) % 4;
        assert_eq!(sides(a, b), 1);
        assert_eq!(sides(b, a), 0);
    }
    assert_eq!(sides(1, 3), 1);
    assert_eq!(sides(3, 1), 1);
    assert_eq!(sides(0, 2), 0);
    assert_eq!(sides(2, 0), 0);
}

#[test]
fn rect_then_mirror_x_doubles_the_quad() {
    let m = unit_square().append_apply(mirror_x).unwrap();
    assert_eq!(m.verts.len(), 8);
    assert_eq!(m.tri_idxs.len(), 4);
    for i in 0..4 {
        assert_eq!(m.verts[4 + i].position[0], -m.verts[i].position[0]);
        assert_eq!(m.verts[4 + i].position[1], m.verts[i].position[1]);
        assert_eq!(m.verts[4 + i].position[2], m.verts[i].position[2]);
    }
    assert_eq!(m.tri_idxs, vec![[0u16, 1, 3], [1, 2, 3], [4, 7, 5], [5, 7, 6]]);
}

#[test]
fn tristrip_alternates_the_winding() {
    let pts = [(0, 0), (10, 0), (0, 10), (10, 10), (0, 20)];
    let m = Model::tristrip_2d(&pts).unwrap();
    assert_eq!(m.verts.len(), 5);
    assert_eq!(m.tri_idxs, vec![[0u16, 1, 2], [1, 3, 2], [2, 3, 4]]);
    assert_eq!(m.verts[3].position, [10, 10, 0]);
}

#[test]
fn tristrip_of_n_points_has_n_minus_two_triangles() {
    for n in 3usize..40 {
        let pts: Vec<(i32, i32)> = (0..n).map(|i| ((i % 2) as i32, (i / 2) as i32)).collect();
        let m = Model::tristrip_2d(&pts).unwrap();
        assert_eq!(m.tri_idxs.len(), n - 2);
        for (i, t) in m.tri_idxs.iter().enumerate() {
            let i = i as u16;
            let mut sorted = *t;
            sorted.sort();
            assert_eq!(sorted, [i, i + 1, i + 2]);
            if i % 2 == 0 {
                assert_eq!(*t, [i, i + 1, i + 2]);
            } else {
                assert_eq!(*t, [i, i + 2, i + 1]);
            }
        }
    }
}

#[test]
fn tristrip_of_three_points_is_one_triangle() {
    let m = Model::tristrip_2d(&[(0, 0), (1, 0), (0, 1)]).unwrap();
    assert_eq!(m.tri_idxs, vec![[0u16, 1, 2]]);
}

#[test]
fn tristrip_needs_three_points() {
    assert_eq!(Model::tristrip_2d(&[]).err(), Some(Error::InvalidGeometry));
    assert_eq!(Model::tristrip_2d(&[(0, 0)]).err(), Some(Error::InvalidGeometry));
    assert_eq!(Model::tristrip_2d(&[(0, 0), (1, 1)]).err(), Some(Error::InvalidGeometry));
}

#[test]
fn tristrip_stops_at_the_index_range() {
    let most: Vec<(i32, i32)> = (0..65536).map(|i| (i % 2, i / 2)).collect();
    let m = Model::tristrip_2d(&most).unwrap();
    assert_eq!(m.tri_idxs.len(), 65534);
    assert_eq!(m.tri_idxs[65533], [65533u16, 65535, 65534]);
    let too_many: Vec<(i32, i32)> = (0..65537).map(|i| (i % 2, i / 2)).collect();
    assert_eq!(Model::tristrip_2d(&too_many).err(), Some(Error::InvalidGeometry));
}

#[test]
fn new_2d_keeps_points_and_triangles() {
    let m = Model::new_2d(&[(1, 2), (3, 4), (5, 6), (7, 8)], &[[3, 2, 1], [0, 0, 3]]).unwrap();
    assert_eq!(positions(&m), vec![[1, 2, 0], [3, 4, 0], [5, 6, 0], [7, 8, 0]]);
    assert_eq!(m.verts[2].tex_coords, [5, 6]);
    assert_eq!(m.tri_idxs, vec![[3u16, 2, 1], [0, 0, 3]]);
}

#[test]
fn new_2d_of_nothing_is_empty() {
    let m = Model::new_2d(&[], &[]).unwrap();
    assert!(m.verts.is_empty());
    assert!(m.tri_idxs.is_empty());
    assert_eq!(m.number_indices(), 0);
}

#[test]
fn new_2d_turns_down_an_index_out_of_range() {
    let pts = [(0, 0), (1, 0), (0, 1)];
    assert_eq!(Model::new_2d(&pts, &[[0, 1, 3]]).err(), Some(Error::InvalidGeometry));
    assert_eq!(Model::new_2d(&pts, &[[0, 1, 2], [3, 0, 0]]).err(), Some(Error::InvalidGeometry));
    assert_eq!(Model::new_2d(&pts, &[[0, 65535, 2]]).err(), Some(Error::InvalidGeometry));
    assert_eq!(Model::new_2d(&[], &[[0, 0, 0]]).err(), Some(Error::InvalidGeometry));
    assert!(Model::new_2d(&pts, &[[2, 2, 2]]).is_ok());
}

#[test]
fn append_shifts_the_second_mesh() {
    let a = Model::tri_2d([(0, 0), (1, 0), (0, 1)]);
    let b = Model::rect_2d([(5, 5), (6, 5), (6, 6), (5, 6)]);
    let m = a.duplicate().append(b.duplicate()).unwrap();
    assert_eq!(m.verts.len(), a.verts.len() + b.verts.len());
    assert_eq!(m.tri_idxs.len(), a.tri_idxs.len() + b.tri_idxs.len());
    assert_eq!(&m.verts[..3], &a.verts[..]);
    assert_eq!(&m.verts[3..], &b.verts[..]);
    assert_eq!(m.tri_idxs[0], a.tri_idxs[0]);
    for (t, tri) in b.tri_idxs.iter().enumerate() {
        for k in 0..3 {
            assert_eq!(m.tri_idxs[1 + t][k], tri[k] + 3);
        }
    }
    assert_eq!(m.tri_idxs, vec![[0u16, 1, 2], [3, 4, 6], [4, 5, 6]]);
}

#[test]
fn append_does_not_merge_equal_vertices() {
    let a = Model::tri_2d([(0, 0), (1, 0), (0, 1)]);
    let m = a.duplicate().append(a).unwrap();
    assert_eq!(m.verts.len(), 6);
    assert_eq!(m.verts[0], m.verts[3]);
    assert_eq!(m.tri_idxs, vec![[0u16, 1, 2], [3, 4, 5]]);
}

#[test]
fn append_to_the_empty_mesh_changes_nothing() {
    let a = Model::tri_2d([(0, 0), (1, 0), (0, 1)]);
    let m = Model::new_2d(&[], &[]).unwrap().append(a.duplicate()).unwrap();
    assert_eq!(m.verts, a.verts);
    assert_eq!(m.tri_idxs, a.tri_idxs);
}

#[test]
fn append_tri_and_rect() {
    let m = Model::tri_2d([(0, 0), (1, 0), (0, 1)])
        .append_tri_2d([(2, 2), (3, 2), (2, 3)])
        .unwrap()
        .append_rect_2d([(5, 5), (6, 5), (6, 6), (5, 6)])
        .unwrap();
    assert_eq!(m.verts.len(), 10);
    assert_eq!(m.tri_idxs, vec![[0u16, 1, 2], [3, 4, 5], [6, 7, 9], [7, 8, 9]]);
    assert_eq!(m.verts[4].position, [3, 2, 0]);
    assert_eq!(m.number_indices(), 12);
}

#[test]
fn append_apply_with_a_closure() {
    let m = Model::tri_2d([(0, 0), (1, 0), (0, 1)])
        .append_apply(|c: Model| c.mult(2 * UNIT, 2 * UNIT, UNIT))
        .unwrap();
    assert_eq!(positions(&m), vec![[0, 0, 0], [1, 0, 0], [0, 1, 0], [0, 0, 0], [2, 0, 0], [0, 2, 0]]);
    assert_eq!(m.tri_idxs, vec![[0u16, 1, 2], [3, 4, 5]]);
}

#[test]
fn flip_swaps_the_last_two_indices() {
    let m = unit_square().flip();
    assert_eq!(m.tri_idxs, vec![[0u16, 3, 1], [1, 3, 2]]);
    assert_eq!(m.verts, unit_square().verts);
}

#[test]
fn flip_twice_gives_the_mesh_back() {
    let pts: Vec<(i32, i32)> = (0..9).map(|i| (i * 7 % 5, i * 3)).collect();
    let m = Model::tristrip_2d(&pts).unwrap();
    let twice = m.duplicate().flip().flip();
    assert_eq!(twice.tri_idxs, m.tri_idxs);
    assert_eq!(twice.verts, m.verts);
}

#[test]
fn mirror_x_twice_gives_the_mesh_back() {
    let m = Model::rect_2d([(300_000, 900_000), (0, 150_000), (100_000, 0), (HALF, 900_000)])
        .append_tri_2d([(-7, 3), (i32::MAX, -1), (i32::MIN + 1, 5)])
        .unwrap();
    let twice = mirror_x(mirror_x(m.duplicate()));
    assert_eq!(twice.verts, m.verts);
    assert_eq!(twice.tri_idxs, m.tri_idxs);
}

#[test]
fn mirror_x_negates_x_and_turns_triangles() {
    let m = mirror_x(Model::tri_2d([(100, 20), (300, 20), (100, 50)]));
    assert_eq!(positions(&m), vec![[-100, 20, 0], [-300, 20, 0], [-100, 50, 0]]);
    assert_eq!(m.tri_idxs, vec![[0u16, 2, 1]]);
    assert_eq!(m.verts[1].tex_coords, [300, 20]);
}

#[test]
fn mirror_x_saturates_where_there_is_no_negative() {
    let m = mirror_x(Model::tri_2d([(i32::MIN, 0), (i32::MAX, 0), (0, 0)]));
    assert_eq!(m.verts[0].position[0], i32::MAX);
    assert_eq!(m.verts[1].position[0], -i32::MAX);
}

#[test]
fn mirror_y_reflects_across_the_mid_line() {
    let m = mirror_y(Model::tri_2d([(100, 0), (300, UNIT), (-100, 250_000)]));
    assert_eq!(positions(&m), vec![[100, UNIT, 0], [300, 0, 0], [-100, 750_000, 0]]);
    assert_eq!(m.tri_idxs, vec![[0u16, 2, 1]]);
}

#[test]
fn mirror_forward_slash_swaps_the_axes() {
    let m = mirror_forward_slash(Model::tri_2d([(HALF, 0), (0, HALF), (-HALF, 200_000)]));
    assert_eq!(positions(&m), vec![[-HALF, UNIT, 0], [0, HALF, 0], [-300_000, 0, 0]]);
    assert_eq!(m.tri_idxs, vec![[0u16, 2, 1]]);
}

#[test]
fn mirror_back_slash_swaps_and_negates_the_axes() {
    let m = mirror_back_slash(Model::tri_2d([(150_000, 0), (150_000, 200_000), (0, HALF)]));
    assert_eq!(positions(&m), vec![[HALF, 350_000, 0], [300_000, 350_000, 0], [0, HALF, 0]]);
    assert_eq!(m.tri_idxs, vec![[0u16, 2, 1]]);
}

#[test]
fn mult_scales_each_axis() {
    let m = Model::tri_2d([(100, 7), (-100, -7), (3, 1)]).mult(1_500_000, HALF, UNIT);
    assert_eq!(positions(&m), vec![[150, 3, 0], [-150, -3, 0], [4, 0, 0]]);
    assert_eq!(m.tri_idxs, vec![[0u16, 1, 2]]);
    assert_eq!(m.verts[0].tex_coords, [100, 7]);
}

#[test]
fn mult_saturates() {
    let m = Model::tri_2d([(i32::MAX, i32::MIN), (1, 1), (0, 0)]).mult(2 * UNIT, 2 * UNIT, UNIT);
    assert_eq!(m.verts[0].position, [i32::MAX, i32::MIN, 0]);
    assert_eq!(m.verts[1].position, [2, 2, 0]);
}

#[test]
fn vert_mod_moves_positions_only() {
    let before = unit_square();
    let m = before.duplicate().vert_mod(|p| [p[1], p[0] + 5, 9]);
    assert_eq!(positions(&m), vec![[0, 5, 9], [0, UNIT + 5, 9], [UNIT, UNIT + 5, 9], [UNIT, 5, 9]]);
    for i in 0..4 {
        assert_eq!(m.verts[i].tex_coords, before.verts[i].tex_coords);
    }
    assert_eq!(m.tri_idxs, before.tri_idxs);
}

#[test]
fn reset_tex_coords_follows_the_position() {
    let m = Model::tri_2d([(-HALF, 0), (HALF, UNIT), (0, 250_000)])
        .mult(UNIT, HALF, UNIT)
        .reset_tex_coords();
    assert_eq!(m.verts[0].tex_coords, [0, 0]);
    assert_eq!(m.verts[1].tex_coords, [UNIT, HALF]);
    assert_eq!(m.verts[2].tex_coords, [HALF, 125_000]);
    assert_eq!(m.verts[1].position, [HALF, HALF, 0]);
}

#[test]
fn reset_tex_coords_saturates() {
    let m = Model::tri_2d([(i32::MAX, 1), (0, 0), (0, 0)]).reset_tex_coords();
    assert_eq!(m.verts[0].tex_coords, [i32::MAX, 1]);
}

#[test]
fn number_indices_counts_three_per_triangle() {
    assert_eq!(unit_square().number_indices(), 6);
    assert_eq!(unit_square().append_apply(mirror_y).unwrap().number_indices(), 12);
}

#[test]
fn duplicate_is_equal_and_independent() {
    let a = unit_square();
    let b = a.duplicate().flip();
    assert_eq!(a.tri_idxs, vec![[0u16, 1, 3], [1, 2, 3]]);
    assert_eq!(b.tri_idxs, vec![[0u16, 3, 1], [1, 3, 2]]);
    assert_eq!(a.duplicate().verts, a.verts);
}

fn doubled_area(m: &Model, t: usize) -> i64 {
    let corner = |k: usize| m.verts[m.tri_idxs[t][k] as usize].position.map(|v| v as i64);
    let (a, b, c) = (corner(0), corner(1), corner(2));
    (b[0] - a[0]) * (c[1] - a[1]) - (c[0] - a[0]) * (b[1] - a[1])
}

fn zigzag() -> Model {
    Model::tristrip_2d(&[(0, 0), (100, 10), (-5, 90), (120, 130), (10, 200), (90, 260)]).unwrap()
}

#[test]
fn a_strip_through_a_zigzag_faces_the_viewer() {
    let m = zigzag();
    let areas: Vec<i64> = (0..4).map(|t| doubled_area(&m, t)).collect();
    assert_eq!(areas, vec![9050, 14200, 13150, 12200]);
}

#[test]
fn flip_turns_every_triangle_over() {
    let m = zigzag();
    let f = m.duplicate().flip();
    for t in 0..4 {
        assert_eq!(doubled_area(&f, t), -doubled_area(&m, t));
    }
}

#[test]
fn mirror_images_face_the_way_the_mesh_does() {
    let m = zigzag();
    let images = [
        mirror_x(m.duplicate()),
        mirror_y(m.duplicate()),
        mirror_forward_slash(m.duplicate()),
        mirror_back_slash(m.duplicate()),
    ];
    for image in &images {
        for t in 0..4 {
            assert_eq!(doubled_area(image, t), doubled_area(&m, t));
        }
    }
}

#[test]
fn append_keeps_every_triangle_facing_as_it_did() {
    let m = zigzag();
    let doubled = m.duplicate().append_apply(mirror_x).unwrap();
    for t in 0..4 {
        assert_eq!(doubled_area(&doubled, t), doubled_area(&m, t));
        assert_eq!(doubled_area(&doubled, 4 + t), doubled_area(&m, t));
    }
}

fn strip_of(points: usize) -> Model {
    let pts: Vec<(i32, i32)> = (0..points as i32).map(|i| (i % 2, i / 2)).collect();
    Model::tristrip_2d(&pts).unwrap()
}

#[test]
fn append_turns_down_an_index_that_leaves_the_range() {
    let tri = Model::tri_2d([(0, 0), (1, 0), (0, 1)]);
    assert_eq!(strip_of(65534).append(tri.duplicate()).err(), Some(Error::InvalidGeometry));
    assert_eq!(strip_of(65536).append(tri.duplicate()).err(), Some(Error::InvalidGeometry));
    let m = strip_of(65533).append(tri.duplicate()).unwrap();
    assert_eq!(m.verts.len(), 65536);
    assert_eq!(m.tri_idxs[65531], [65533, 65534, 65535]);
    assert_eq!(tri.append(strip_of(65534)).err(), Some(Error::InvalidGeometry));
}

#[test]
fn append_goes_by_the_indices_not_by_the_vertices() {
    let low = Model::new_2d(&[(0, 0), (1, 0), (0, 1), (7, 7), (8, 8)], &[[0, 1, 2]]).unwrap();
    let m = strip_of(65533).append(low.duplicate()).unwrap();
    assert_eq!(m.verts.len(), 65538);
    assert_eq!(m.tri_idxs[65531], [65533, 65534, 65535]);
    assert_eq!(strip_of(65534).append(low).err(), Some(Error::InvalidGeometry));
    let bare = Model::new_2d(&[(0, 0), (1, 1)], &[]).unwrap();
    let m = strip_of(65536).append(bare).unwrap();
    assert_eq!(m.verts.len(), 65538);
    assert_eq!(m.tri_idxs.len(), 65534);
}

#[test]
fn append_tri_and_rect_turn_down_what_cannot_be_indexed() {
    let tri = [(0, 0), (1, 0), (0, 1)];
    let rect = [(0, 0), (1, 0), (1, 1), (0, 1)];
    assert!(strip_of(65533).append_tri_2d(tri).is_ok());
    assert_eq!(strip_of(65534).append_tri_2d(tri).err(), Some(Error::InvalidGeometry));
    assert!(strip_of(65532).append_rect_2d(rect).is_ok());
    assert_eq!(strip_of(65533).append_rect_2d(rect).err(), Some(Error::InvalidGeometry));
}

#[test]
fn append_apply_turns_down_a_mesh_that_cannot_be_doubled() {
    assert!(strip_of(32768).append_apply(mirror_x).is_ok());
    assert_eq!(strip_of(32769).append_apply(mirror_x).err(), Some(Error::InvalidGeometry));
}
