use letter_mesh::noise::{
    add_chunk, color_of_draws, create_fractal_static_texture, create_letter_texture,
    create_static_texture, SEED, SIZE,
};
use letter_mesh::texture::{PixelFormat, RgbaTexture};
use letter_mesh::Error;
use rand_pcg::rand_core::{RngCore, SeedableRng};

fn reference_channel(d: u32, sum: u128) -> u8 {
    if sum == 0 {
        return 0;
    }
    let target = (255 * d as u128) * (255 * d as u128);
    let mut k: u128 = 0;
    while (k + 1) * (k + 1) * sum <= target {
        k += 1;
    }
    k as u8
}

fn reference_color(d: [u32; 3]) -> [u8; 4] {
    let sum: u128 = d.iter().map(|&c| c as u128 * c as u128).sum();
    [reference_channel(d[0], sum), reference_channel(d[1], sum), reference_channel(d[2], sum), 0]
}

fn reference_static(start: u32, end: u32) -> Vec<[u8; 4]> {
    let size = SIZE as usize;
    let mut values = vec![[0u8; 4]; size * size];
    let mut rng = rand_pcg::Pcg32::seed_from_u64(SEED);
    let mut chunk = start as usize;
    let mut div: u8 = 2;
    while chunk >= end as usize && chunk >= 1 {
        for cy in 0..size / chunk {
            for cx in 0..size / chunk {
                let d = [rng.next_u32(), rng.next_u32(), rng.next_u32()];
                let val = reference_color(d);
                for y in cy * chunk..(cy + 1) * chunk {
                    for x in cx * chunk..(cx + 1) * chunk {
                        let held = values[x + y * size];
                        values[x + y * size] =
                            [held[0] + val[0] / div, held[1] + val[1] / div, held[2] + val[2] / div, 0];
                    }
                }
            }
        }
        chunk /= 2;
        div = div.saturating_mul(2);
    }
    values
}

#[test]
fn filled_texture_holds_one_pixel_everywhere() {
    let tex = RgbaTexture::filled(3, 2, PixelFormat::Rgba8Unorm, 7u16);
    assert_eq!(tex.width, 3);
    assert_eq!(tex.height, 2);
    assert_eq!(tex.format, PixelFormat::Rgba8Unorm);
    assert_eq!(tex.values, vec![7u16; 6]);
    let none = RgbaTexture::filled(0, 5, PixelFormat::Rgba8UnormSrgb, [0u8; 4]);
    assert!(none.values.is_empty());
}

#[test]
fn set_pixel_writes_row_major() {
    let mut tex = RgbaTexture::filled(3, 2, PixelFormat::Rgba8Unorm, 0u8);
    tex.set_pixel(1, 0, 10);
    tex.set_pixel(0, 1, 20);
    tex.set_pixel(2, 1, 30);
    assert_eq!(tex.values, vec![0, 10, 0, 20, 0, 30]);
    assert_eq!(tex.get_pixel(1, 0), 10);
    assert_eq!(tex.get_pixel(0, 1), 20);
    assert_eq!(tex.get_pixel(2, 1), 30);
    assert_eq!(tex.get_pixel(0, 0), 0);
    assert_eq!((tex.width, tex.height), (3, 2));
}

#[test]
fn letter_texture_is_a_gradient_over_the_rows() {
    let tex = create_letter_texture();
    assert_eq!(SIZE, 512);
    assert_eq!((tex.width, tex.height), (512, 512));
    assert_eq!(tex.format, PixelFormat::Rgba8UnormSrgb);
    assert_eq!(tex.values.len(), 512 * 512);
    assert_eq!(tex.get_pixel(0, 0), [0, 0, 100, 255]);
    assert_eq!(tex.get_pixel(511, 0), [0, 0, 100, 255]);
    assert_eq!(tex.get_pixel(17, 1), [0, 0, 100, 255]);
    assert_eq!(tex.get_pixel(17, 3), [1, 1, 100, 255]);
    assert_eq!(tex.get_pixel(300, 256), [127, 127, 100, 255]);
    assert_eq!(tex.get_pixel(0, 511), [254, 254, 100, 255]);
    assert_eq!(tex.get_pixel(511, 511), [254, 254, 100, 255]);
    for y in 0..512u32 {
        let a = (y * 255 / 512) as u8;
        for x in 0..512u32 {
            assert_eq!(tex.values[(x + y * 512) as usize], [a, a, 100, 255]);
        }
    }
}

#[test]
fn letter_texture_follows_the_division_in_floating_point() {
    let tex = create_letter_texture();
    for y in 0..512u32 {
        let a = ((y * 255) as f32 / 512.0) as u8;
        assert_eq!(tex.get_pixel(5, y)[0], a);
    }
}

#[test]
fn letter_texture_is_the_same_every_time() {
    let a = create_letter_texture();
    let b = create_letter_texture();
    assert_eq!(a.values, b.values);
    assert_eq!((a.width, a.height, a.format), (b.width, b.height, b.format));
}

#[test]
fn color_of_draws_scales_to_length_one() {
    assert_eq!(color_of_draws(0, 0, 0), [0, 0, 0, 0]);
    assert_eq!(color_of_draws(1, 0, 0), [255, 0, 0, 0]);
    assert_eq!(color_of_draws(0, 9, 0), [0, 255, 0, 0]);
    assert_eq!(color_of_draws(0, 0, u32::MAX), [0, 0, 255, 0]);
    assert_eq!(color_of_draws(3, 4, 0), [153, 204, 0, 0]);
    assert_eq!(color_of_draws(1, 1, 1), [147, 147, 147, 0]);
    assert_eq!(color_of_draws(u32::MAX, u32::MAX, u32::MAX), [147, 147, 147, 0]);
    assert_eq!(color_of_draws(1, 2, 2), [85, 170, 170, 0]);
    assert_eq!(color_of_draws(u32::MAX, 1, 0), [254, 0, 0, 0]);
    assert_eq!(color_of_draws(2_000_000_000, 1_000_000_000, 0), [228, 114, 0, 0]);
}

#[test]
fn color_of_draws_agrees_with_a_plain_search() {
    let mut rng = rand_pcg::Pcg32::seed_from_u64(99);
    for _ in 0..2000 {
        let d = [rng.next_u32(), rng.next_u32(), rng.next_u32() >> (rng.next_u32() % 32)];
        assert_eq!(color_of_draws(d[0], d[1], d[2]), reference_color(d));
    }
}

#[test]
fn color_of_draws_is_close_to_floating_point() {
    let mut rng = rand_pcg::Pcg32::seed_from_u64(7);
    for _ in 0..2000 {
        let d = [rng.next_u32(), rng.next_u32(), rng.next_u32()];
        let len = d.iter().map(|&c| (c as f64) * (c as f64)).sum::<f64>().sqrt();
        let c = color_of_draws(d[0], d[1], d[2]);
        for k in 0..3 {
            let float = (d[k] as f64 / len * 255.0) as i32;
            assert!((c[k] as i32 - float).abs() <= 1);
        }
        assert_eq!(c[3], 0);
    }
}

#[test]
fn add_chunk_blends_inside_the_chunk_only() {
    let mut tex = RgbaTexture::filled(4, 3, PixelFormat::Rgba8Unorm, [40u8, 80, 120, 255]);
    add_chunk(&mut tex, 1, 1, [200, 100, 7, 99], 2, 4, 2);
    for y in 0..3u32 {
        for x in 0..4u32 {
            let inside = (1..3).contains(&x) && (1..3).contains(&y);
            let expected = if inside { [110, 70, 33, 0] } else { [40, 80, 120, 255] };
            assert_eq!(tex.get_pixel(x, y), expected);
        }
    }
}

#[test]
fn add_chunk_of_side_zero_changes_nothing() {
    let mut tex = RgbaTexture::filled(2, 2, PixelFormat::Rgba8Unorm, [1u8, 2, 3, 4]);
    add_chunk(&mut tex, 2, 2, [9, 9, 9, 9], 0, 1, 1);
    assert_eq!(tex.values, vec![[1u8, 2, 3, 4]; 4]);
}

#[test]
fn static_texture_has_one_colour_per_chunk() {
    let tex = create_fractal_static_texture(8, 8).unwrap();
    assert_eq!((tex.width, tex.height), (512, 512));
    assert_eq!(tex.format, PixelFormat::Rgba8Unorm);
    assert_eq!(tex.values.len(), 512 * 512);
    let mut colours = std::collections::HashSet::new();
    for y in 0..512u32 {
        for x in 0..512u32 {
            let p = tex.get_pixel(x, y);
            assert_eq!(p, tex.get_pixel(x / 8 * 8, y / 8 * 8));
            assert_eq!(p[3], 0);
            assert!(p[0] <= 127 && p[1] <= 127 && p[2] <= 127);
            colours.insert(p);
        }
    }
    assert!(colours.len() > 3000);
}

#[test]
fn static_texture_is_the_same_every_time() {
    let a = create_fractal_static_texture(8, 8).unwrap();
    let b = create_fractal_static_texture(8, 8).unwrap();
    assert_eq!(a.values, b.values);
    assert_eq!((a.width, a.height, a.format), (b.width, b.height, b.format));
}

#[test]
fn static_texture_draws_from_the_seeded_generator() {
    let tex = create_fractal_static_texture(8, 8).unwrap();
    assert_eq!(tex.values, reference_static(8, 8));
    let mut rng = rand_pcg::Pcg32::seed_from_u64(1);
    let first = reference_color([rng.next_u32(), rng.next_u32(), rng.next_u32()]);
    assert_eq!(tex.get_pixel(0, 0), [first[0] / 2, first[1] / 2, first[2] / 2, 0]);
    let second = reference_color([rng.next_u32(), rng.next_u32(), rng.next_u32()]);
    assert_eq!(tex.get_pixel(8, 0), [second[0] / 2, second[1] / 2, second[2] / 2, 0]);
}

#[test]
fn fractal_texture_layers_halving_chunks() {
    let tex = create_fractal_static_texture(256, 32).unwrap();
    assert_eq!(tex.values, reference_static(256, 32));
    let coarse = create_fractal_static_texture(256, 256).unwrap();
    for y in (0..512u32).step_by(37) {
        for x in (0..512u32).step_by(41) {
            let fine = tex.get_pixel(x, y);
            let base = coarse.get_pixel(x, y);
            assert_eq!(fine[3], 0);
            for k in 0..3 {
                assert!(fine[k] >= base[k]);
                assert!(fine[k] - base[k] <= 63 + 31 + 15);
            }
        }
    }
}

#[test]
fn fractal_texture_down_to_single_pixels() {
    let tex = create_fractal_static_texture(512, 1).unwrap();
    assert_eq!(tex.values, reference_static(512, 1));
    let most = tex.values.iter().flat_map(|p| p[..3].iter()).max().unwrap();
    assert!(*most <= 250);
    assert!(tex.values.iter().all(|p| p[3] == 0));
}

#[test]
fn fractal_texture_with_the_end_above_the_start_is_blank() {
    let tex = create_fractal_static_texture(4, 8).unwrap();
    assert_eq!(tex.values, vec![[0u8; 4]; 512 * 512]);
    assert_eq!(tex.format, PixelFormat::Rgba8Unorm);
}

#[test]
fn fractal_texture_stops_before_the_first_size_below_the_end() {
    let a = create_fractal_static_texture(64, 16).unwrap();
    let b = create_fractal_static_texture(64, 9).unwrap();
    assert_eq!(a.values, b.values);
    let c = create_fractal_static_texture(64, 64).unwrap();
    assert_ne!(a.values, c.values);
    assert_eq!(a.values, reference_static(64, 16));
    let two = create_fractal_static_texture(8, 3).unwrap();
    assert_eq!(two.values, reference_static(8, 4));
    assert_eq!(two.values, create_fractal_static_texture(8, 4).unwrap().values);
}

#[test]
fn fractal_texture_with_the_start_above_the_side_is_blank() {
    for start in [513u32, 768, 1024, 1 << 20, u32::MAX] {
        for end in [0u32, 1, 3, 8, 512, 513] {
            let tex = create_fractal_static_texture(start, end).unwrap();
            assert_eq!((tex.width, tex.height), (512, 512));
            assert_eq!(tex.format, PixelFormat::Rgba8Unorm);
            assert_eq!(tex.values, vec![[0u8; 4]; 512 * 512]);
        }
        assert_eq!(create_static_texture(start).unwrap().values, vec![[0u8; 4]; 512 * 512]);
    }
}

#[test]
fn static_texture_is_the_fractal_with_one_pass() {
    let a = create_static_texture(16).unwrap();
    let b = create_fractal_static_texture(16, 16).unwrap();
    assert_eq!(a.values, b.values);
    assert_eq!(a.values, reference_static(16, 16));
}

#[test]
fn every_pass_that_is_drawn_must_divide_the_texture() {
    for bad in [0u32, 3, 5, 6, 7, 9, 12, 100, 511] {
        assert_eq!(create_static_texture(bad).err(), Some(Error::InvalidTextureParams));
        assert_eq!(create_fractal_static_texture(bad, bad).err(), Some(Error::InvalidTextureParams));
    }
    for bad in [9u32, 12, 100, 511] {
        assert_eq!(create_fractal_static_texture(bad, 8).err(), Some(Error::InvalidTextureParams));
    }
    for good in [1u32, 2, 4, 8, 16, 32, 64, 128, 256, 512] {
        assert_eq!(512 % good, 0);
        assert!(create_fractal_static_texture(good, 512).is_ok());
        assert!(create_static_texture(good).is_ok());
    }
}

#[test]
fn a_size_that_no_pass_has_does_no_harm() {
    for start in [0u32, 3, 5, 6, 7] {
        let tex = create_fractal_static_texture(start, 8).unwrap();
        assert_eq!(tex.values, vec![[0u8; 4]; 512 * 512]);
    }
    for end in [3u32, 5, 6, 7] {
        assert!(create_fractal_static_texture(8, end).is_ok());
    }
    for end in [9u32, 12, 100, 511, 513, u32::MAX] {
        let tex = create_fractal_static_texture(8, end).unwrap();
        assert_eq!(tex.values, vec![[0u8; 4]; 512 * 512]);
    }
}

#[test]
fn an_end_of_zero_runs_into_the_pass_of_size_zero() {
    for start in [0u32, 1, 8, 512] {
        assert_eq!(create_fractal_static_texture(start, 0).err(), Some(Error::InvalidTextureParams));
    }
}
