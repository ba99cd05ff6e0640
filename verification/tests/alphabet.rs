use letter_mesh::alphabet::{create_alphabet_models, letter_index, LETTERS};
use letter_mesh::fixed::{sat_add, HALF, UNIT};
use letter_mesh::letters::{mirror_y, Model};

const DRAWN: [(char, usize, usize); 12] = [
    ('a', 15, 7),
    ('b', 80, 52),
    ('d', 40, 26),
    ('e', 40, 32),
    ('h', 30, 24),
    ('l', 22, 18),
    ('m', 30, 22),
    ('o', 64, 40),
    ('p', 34, 24),
    ('r', 42, 30),
    ('v', 11, 5),
    ('w', 30, 22),
];

fn glyph(c: char) -> Model {
    create_alphabet_models().swap_remove(letter_index(c))
}

#[test]
fn alphabet_has_twenty_six_letters() {
    assert_eq!(LETTERS, 26);
    assert_eq!(create_alphabet_models().len(), 26);
}

#[test]
fn placeholder_letters_are_empty() {
    let letters = create_alphabet_models();
    for c in "cfgijknqstuxyz".chars() {
        let m = &letters[letter_index(c)];
        assert!(m.verts.is_empty());
        assert!(m.tri_idxs.is_empty());
        assert_eq!(m.number_indices(), 0);
    }
}

#[test]
fn drawn_letters_have_their_sizes() {
    let letters = create_alphabet_models();
    for (c, verts, tris) in DRAWN {
        let m = &letters[letter_index(c)];
        assert_eq!((c, m.verts.len()), (c, verts));
        assert_eq!((c, m.tri_idxs.len()), (c, tris));
    }
    let drawn = letters.iter().filter(|m| !m.verts.is_empty()).count();
    assert_eq!(drawn, DRAWN.len());
}

#[test]
fn every_index_names_a_vertex() {
    for m in create_alphabet_models() {
        for t in &m.tri_idxs {
            for k in 0..3 {
                assert!((t[k] as usize) < m.verts.len());
            }
        }
    }
}

#[test]
fn every_glyph_stays_in_its_box() {
    for m in create_alphabet_models() {
        for v in &m.verts {
            assert!(-HALF <= v.position[0] && v.position[0] <= HALF);
            assert!(0 <= v.position[1] && v.position[1] <= UNIT);
            assert_eq!(v.position[2], 0);
        }
    }
}

fn doubled_area(m: &Model, t: usize) -> i64 {
    let corner = |k: usize| m.verts[m.tri_idxs[t][k] as usize].position.map(|v| v as i64);
    let (a, b, c) = (corner(0), corner(1), corner(2));
    (b[0] - a[0]) * (c[1] - a[1]) - (c[0] - a[0]) * (b[1] - a[1])
}

#[test]
fn every_triangle_of_every_glyph_faces_the_viewer() {
    for m in create_alphabet_models() {
        for t in 0..m.tri_idxs.len() {
            assert!(doubled_area(&m, t) > 0);
        }
    }
}

#[test]
fn texture_coordinates_follow_positions() {
    for m in create_alphabet_models() {
        for v in &m.verts {
            assert_eq!(v.tex_coords, [sat_add(v.position[0], HALF), v.position[1]]);
            assert!(0 <= v.tex_coords[0] && v.tex_coords[0] <= UNIT);
        }
    }
}

#[test]
fn the_alphabet_is_the_same_every_time() {
    let first = create_alphabet_models();
    let second = create_alphabet_models();
    for (a, b) in first.iter().zip(second.iter()) {
        assert_eq!(a.verts, b.verts);
        assert_eq!(a.tri_idxs, b.tri_idxs);
    }
}

#[test]
fn v_is_a_stroke_its_mirror_image_and_a_foot() {
    let v = glyph('v');
    let positions: Vec<[i32; 3]> = v.verts.iter().map(|p| p.position).collect();
    assert_eq!(
        positions,
        vec![
            [300_000, 900_000, 0],
            [0, 150_000, 0],
            [100_000, 0, 0],
            [500_000, 900_000, 0],
            [-300_000, 900_000, 0],
            [0, 150_000, 0],
            [-100_000, 0, 0],
            [-500_000, 900_000, 0],
            [0, 150_000, 0],
            [-100_000, 0, 0],
            [100_000, 0, 0],
        ]
    );
    assert_eq!(v.tri_idxs, vec![[0u16, 1, 3], [1, 2, 3], [4, 7, 5], [5, 7, 6], [8, 9, 10]]);
    assert_eq!(v.verts[0].tex_coords, [800_000, 900_000]);
    assert_eq!(v.verts[7].tex_coords, [0, 900_000]);
}

#[test]
fn a_is_v_upside_down_with_a_bar() {
    let a = glyph('a');
    let v = glyph('v');
    for i in 0..11 {
        assert_eq!(a.verts[i].position[0], v.verts[i].position[0]);
        assert_eq!(a.verts[i].position[1], UNIT - v.verts[i].position[1]);
    }
    assert_eq!(a.tri_idxs[0], [0, 3, 1]);
    assert_eq!(a.verts[11].position, [250_000, 450_000, 0]);
    assert_eq!(a.tri_idxs[5], [11, 12, 14]);
    assert_eq!(a.tri_idxs[6], [12, 13, 14]);
}

#[test]
fn m_is_w_upside_down() {
    let m = glyph('m');
    let w = mirror_y(glyph('w')).reset_tex_coords();
    assert_eq!(m.verts, w.verts);
    assert_eq!(m.tri_idxs, w.tri_idxs);
    assert_eq!(m.verts[0].position, [0, 0, 0]);
}

#[test]
fn d_has_a_thick_stem_and_a_bowl_that_meets_its_flank() {
    let d = glyph('d');
    assert_eq!(d.verts[0].position, [-500_000, 0, 0]);
    assert_eq!(d.verts[1].position, [-200_000, 0, 0]);
    assert_eq!(d.verts[11].position, [-200_000, 1_000_000, 0]);
    assert_eq!(d.verts[12].position, [-200_000, 0, 0]);
    assert_eq!(d.verts[14].position, [-28_572, 20_000, 0]);
    assert_eq!(d.verts[18].position, [57_142, 350_000, 0]);
    assert_eq!(d.verts[22].position, [57_142, 350_000, 0]);
    assert_eq!(d.verts[17].position, [400_000, 350_000, 0]);
    assert_eq!(d.verts[23].position, [400_000, 350_000, 0]);
    assert_eq!(d.verts[26].position, [-200_000, 1_000_000, 0]);
}

#[test]
fn b_is_two_squeezed_copies_of_d() {
    let b = glyph('b');
    let d = glyph('d');
    for i in 0..40 {
        let p = d.verts[i].position;
        assert_eq!(b.verts[i].position, [p[0], p[1] / 2 + HALF, 0]);
        assert_eq!(b.verts[40 + i].position, [p[0], p[1] / 2, 0]);
    }
    for t in 0..26 {
        let tri = d.tri_idxs[t];
        assert_eq!(b.tri_idxs[t], tri);
        assert_eq!(b.tri_idxs[26 + t], [tri[0] + 40, tri[1] + 40, tri[2] + 40]);
    }
}

#[test]
fn r_is_p_with_a_leg() {
    let r = glyph('r');
    let p = glyph('p');
    assert_eq!(&r.verts[..34], &p.verts[..]);
    assert_eq!(&r.tri_idxs[..24], &p.tri_idxs[..]);
    assert_eq!(r.verts[34].position, [-28_570, 320_000, 0]);
    assert_eq!(r.tri_idxs[24], [34, 35, 36]);
    assert_eq!(r.tri_idxs[29], [39, 41, 40]);
}

#[test]
fn p_has_its_bowl_in_the_upper_part() {
    let p = glyph('p');
    assert_eq!(p.verts[0].position, [-200_000, 300_000, 0]);
    assert_eq!(p.verts[10].position, [-200_000, 1_000_000, 0]);
    assert_eq!(p.verts[20].position, [-500_000, 0, 0]);
    for v in &p.verts[..20] {
        assert!(v.position[1] >= 300_000);
    }
}

#[test]
fn l_is_a_foot_and_the_foot_on_end() {
    let l = glyph('l');
    assert_eq!(l.verts[0].position, [500_000, 0, 0]);
    assert_eq!(l.verts[10].position, [-500_000, 0, 0]);
    assert_eq!(l.verts[11].position, [-500_000, 1_000_000, 0]);
    assert_eq!(l.verts[12].position, [-300_000, 1_000_000, 0]);
    assert_eq!(l.verts[21].position, [-500_000, 0, 0]);
    assert_eq!(l.tri_idxs[9], [11, 13, 12]);
}

#[test]
fn o_is_symmetric_about_both_axes() {
    let o = glyph('o');
    for i in 0..26 {
        assert_eq!(o.verts[26 + i].position[0], -o.verts[i].position[0]);
        assert_eq!(o.verts[26 + i].position[1], o.verts[i].position[1]);
    }
    for i in 0..10 {
        assert_eq!(o.verts[10 + i].position[1], UNIT - o.verts[i].position[1]);
    }
    assert_eq!(o.verts[52].position, [-150_000, 200_000, 0]);
    assert_eq!(o.verts[58].position, [-150_000, 800_000, 0]);
}

#[test]
fn h_and_e_stand_on_the_vertical_line() {
    let h = glyph('h');
    assert_eq!(h.verts[1].position, [-200_000, 0, 0]);
    assert_eq!(h.verts[13].position, [200_000, 0, 0]);
    assert_eq!(h.verts[24].position, [-200_000, 600_000, 0]);
    let e = glyph('e');
    assert_eq!(e.verts[10].position, [500_000, 1_000_000, 0]);
    assert_eq!(e.verts[28].position, [-500_000, 0, 0]);
    assert_eq!(e.verts[29].position, [-300_000, 0, 0]);
    assert_eq!(e.tri_idxs[22], [28, 29, 30]);
}

#[test]
fn letter_index_counts_from_a() {
    assert_eq!(letter_index('a'), 0);
    assert_eq!(letter_index('A'), 0);
    assert_eq!(letter_index('h'), 7);
    assert_eq!(letter_index('z'), 25);
    assert_eq!(letter_index('Z'), 25);
    for (i, c) in ('a'..='z').enumerate() {
        assert_eq!(letter_index(c), i);
        assert_eq!(letter_index(c.to_ascii_uppercase()), i);
    }
    assert_eq!(letter_index('{'), 26);
}
