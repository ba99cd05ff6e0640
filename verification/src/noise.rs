//! Generated textures: a test gradient, and layered static.
//!
//! The static is built in passes. Each pass cuts the texture into square
//! chunks, draws one color per chunk and adds a share of it to every pixel
//! of the chunk. From pass to pass the chunks halve and the share shrinks, so
//! coarse passes set the tone and fine ones add grain.

use crate::error::Error;
use crate::pcg::{pcg32_draw, pcg32_output};
use crate::texture::{PixelFormat, RgbaTexture};
use vstd::arithmetic::div_mod::{lemma_div_is_ordered, lemma_fundamental_div_mod};
use vstd::prelude::*;

verus! {

/// The side of every generated texture, in pixels.
pub const SIZE: u32 = 512;

/// The seed of the generator that the static is drawn from.
pub const SEED: u64 = 1;

/// Whether `k` is the whole part of the square root of `t / s`: the largest
/// number whose square, times `s`, does not exceed `t`.
pub open spec fn is_root_of_ratio(k: int, t: int, s: int) -> bool {
    0 <= k && k * k * s <= t < (k + 1) * (k + 1) * s
}

/// The whole part of the square root of `t / s`.
pub open spec fn root_of_ratio(t: int, s: int) -> int {
    choose|k: int| is_root_of_ratio(k, t, s)
}

/// The whole part of `255 * d / sqrt(sum)`, and `0` where `sum` is `0`.
pub open spec fn unit_channel(d: int, sum: int) -> int {
    if sum <= 0 {
        0
    } else {
        root_of_ratio(255 * d * (255 * d), sum)
    }
}

/// The squared length of the vector `(d0, d1, d2)`.
pub open spec fn squared_length(d0: int, d1: int, d2: int) -> int {
    d0 * d0 + d1 * d1 + d2 * d2
}

/// The color that three draws stand for: the draws are read as a vector,
/// the vector is scaled to length one, and each component is spread over
/// `0..=255`, rounding down. Alpha is `0`.
pub open spec fn unit_color(d0: u32, d1: u32, d2: u32) -> [u8; 4] {
    let sum = squared_length(d0 as int, d1 as int, d2 as int);
    [
        unit_channel(d0 as int, sum) as u8,
        unit_channel(d1 as int, sum) as u8,
        unit_channel(d2 as int, sum) as u8,
        0u8,
    ]
}

/// No two numbers are the whole part of the same root.
pub proof fn lemma_root_is_unique(k1: int, k2: int, t: int, s: int)
    requires
        s > 0,
        is_root_of_ratio(k1, t, s),
        is_root_of_ratio(k2, t, s),
    ensures
        k1 == k2,
{
    if k1 < k2 {
        assert((k1 + 1) * (k1 + 1) * s <= k2 * k2 * s) by (nonlinear_arith)
            requires
                0 <= k1,
                k1 + 1 <= k2,
                s > 0,
        ;
    } else if k2 < k1 {
        assert((k2 + 1) * (k2 + 1) * s <= k1 * k1 * s) by (nonlinear_arith)
            requires
                0 <= k2,
                k2 + 1 <= k1,
                s > 0,
        ;
    }
}

/// The channel of a vector is the one number whose square, times the
/// squared length, comes nearest to the square of the scaled component from
/// below.
pub proof fn lemma_unit_channel_is(d: int, sum: int, k: int)
    requires
        sum > 0,
        is_root_of_ratio(k, 255 * d * (255 * d), sum),
    ensures
        unit_channel(d, sum) == k,
{
    let t = 255 * d * (255 * d);
    lemma_root_is_unique(k, root_of_ratio(t, sum), t, sum);
}

/// One step of a bisection for the whole part of the square root of
/// `target / sum`: the root is known to lie in `k .. k + 2 * step`, and the
/// result tells in which half.
fn refine(k: u128, step: u128, target: u128, sum: u128) -> (r: u128)
    requires
        1 <= step,
        k + 2 * step <= 256,
        sum <= 3 * 0xffff_ffff * 0xffff_ffff,
        k * k * sum <= target < (k + 2 * step) * (k + 2 * step) * sum,
    ensures
        r == k || r == k + step,
        r * r * sum <= target < (r + step) * (r + step) * sum,
{
    let probe: u128 = k + step;
    assert(probe * probe <= 65536) by (nonlinear_arith)
        requires
            probe <= 256,
    ;
    assert(probe * probe * sum <= 65536 * (3 * 0xffff_ffff * 0xffff_ffff)) by (nonlinear_arith)
        requires
            probe * probe <= 65536,
            sum <= 3 * 0xffff_ffff * 0xffff_ffff,
    ;
    if probe * probe * sum <= target {
        assert(probe + step == k + 2 * step);
        probe
    } else {
        k
    }
}

/// One channel of the color of a vector: the whole part of
/// `255 * d / sqrt(sum)`. `d` is one of the components that `sum` is the
/// squared length of.
fn channel_of(d: u32, sum: u128) -> (c: u8)
    requires
        d * d <= sum,
        sum <= 3 * 0xffff_ffff * 0xffff_ffff,
    ensures
        c == unit_channel(d as int, sum as int),
{
    if sum == 0 {
        return 0;
    }
    let scaled: u128 = 255 * (d as u128);
    assert(scaled * scaled <= 0xffff_ffff_ffff_ffff_ffff) by (nonlinear_arith)
        requires
            scaled <= 255 * 0xffff_ffff,
    ;
    let target: u128 = scaled * scaled;
    assert(target < 256 * 256 * sum) by (nonlinear_arith)
        requires
            target == 255 * d * (255 * d),
            d * d <= sum,
            sum > 0,
    ;
    let k = refine(0, 128, target, sum);
    let k = refine(k, 64, target, sum);
    let k = refine(k, 32, target, sum);
    let k = refine(k, 16, target, sum);
    let k = refine(k, 8, target, sum);
    let k = refine(k, 4, target, sum);
    let k = refine(k, 2, target, sum);
    let k = refine(k, 1, target, sum);
    proof {
        lemma_unit_channel_is(d as int, sum as int, k as int);
    }
    k as u8
}

/// The color that three draws stand for.
pub fn color_of_draws(d0: u32, d1: u32, d2: u32) -> (c: [u8; 4])
    ensures
        c == unit_color(d0, d1, d2),
{
    let a: u128 = d0 as u128;
    let b: u128 = d1 as u128;
    let e: u128 = d2 as u128;
    assert(a * a <= 0xffff_ffff * 0xffff_ffff) by (nonlinear_arith)
        requires
            a <= 0xffff_ffff,
    ;
    assert(b * b <= 0xffff_ffff * 0xffff_ffff) by (nonlinear_arith)
        requires
            b <= 0xffff_ffff,
    ;
    assert(e * e <= 0xffff_ffff * 0xffff_ffff) by (nonlinear_arith)
        requires
            e <= 0xffff_ffff,
    ;
    let sum: u128 = a * a + b * b + e * e;
    [channel_of(d0, sum), channel_of(d1, sum), channel_of(d2, sum), 0]
}

/// What a pixel holds once a share of the color `val` is added to a share
/// of what it held: each color channel is `held / olddiv + val / div`, and
/// alpha is `0`.
pub open spec fn blended(held: [u8; 4], val: [u8; 4], olddiv: u8, div: u8) -> [u8; 4] {
    [
        (held[0] / olddiv + val[0] / div) as u8,
        (held[1] / olddiv + val[1] / div) as u8,
        (held[2] / olddiv + val[2] / div) as u8,
        0u8,
    ]
}

/// Whether the blend of `held` and `val` fits into a pixel.
pub open spec fn blendable(held: [u8; 4], val: [u8; 4], olddiv: u8, div: u8) -> bool {
    &&& held[0] / olddiv + val[0] / div <= 255
    &&& held[1] / olddiv + val[1] / div <= 255
    &&& held[2] / olddiv + val[2] / div <= 255
}

/// Whether the pixel `(px, py)` lies in the square chunk of side `chunk`
/// whose first pixel is `(x, y)`.
pub open spec fn in_chunk(px: int, py: int, x: int, y: int, chunk: int) -> bool {
    x <= px < x + chunk && y <= py < y + chunk
}

/// Blends the color `val` into every pixel of the chunk of side
/// `chunk_size` whose first pixel is `(x, y)`. The chunk must lie within the
/// texture, and no channel may overflow.
pub fn add_chunk(
    tex: &mut RgbaTexture<[u8; 4]>,
    x: u32,
    y: u32,
    val: [u8; 4],
    chunk_size: u32,
    olddiv: u8,
    div: u8,
)
    requires
        old(tex).wf(),
        x + chunk_size <= old(tex).width,
        y + chunk_size <= old(tex).height,
        olddiv != 0,
        div != 0,
        forall|px: int, py: int|
            in_chunk(px, py, x as int, y as int, chunk_size as int) ==> blendable(
                #[trigger] old(tex).pixel(px, py),
                val,
                olddiv,
                div,
            ),
    ensures
        final(tex).wf(),
        final(tex).width == old(tex).width,
        final(tex).height == old(tex).height,
        final(tex).format == old(tex).format,
        forall|px: int, py: int|
            0 <= px < old(tex).width && 0 <= py < old(tex).height ==> #[trigger] final(tex).pixel(
                px,
                py,
            ) == if in_chunk(px, py, x as int, y as int, chunk_size as int) {
                blended(old(tex).pixel(px, py), val, olddiv, div)
            } else {
                old(tex).pixel(px, py)
            },
{
    let ghost before = *tex;
    let mut i: u32 = 0;
    while i < chunk_size
        invariant
            i <= chunk_size,
            tex.wf(),
            before.wf(),
            tex.width == before.width,
            tex.height == before.height,
            tex.format == before.format,
            x + chunk_size <= tex.width,
            y + chunk_size <= tex.height,
            olddiv != 0,
            div != 0,
            forall|px: int, py: int|
                in_chunk(px, py, x as int, y as int, chunk_size as int) ==> blendable(
                    #[trigger] before.pixel(px, py),
                    val,
                    olddiv,
                    div,
                ),
            forall|px: int, py: int|
                0 <= px < tex.width && 0 <= py < tex.height ==> #[trigger] tex.pixel(px, py) == if in_chunk(
                    px,
                    py,
                    x as int,
                    y as int,
                    chunk_size as int,
                ) && px < x + i {
                    blended(before.pixel(px, py), val, olddiv, div)
                } else {
                    before.pixel(px, py)
                },
        decreases chunk_size - i,
    {
        let mut j: u32 = 0;
        while j < chunk_size
            invariant
                i < chunk_size,
                j <= chunk_size,
                tex.wf(),
                before.wf(),
                tex.width == before.width,
                tex.height == before.height,
                tex.format == before.format,
                x + chunk_size <= tex.width,
                y + chunk_size <= tex.height,
                olddiv != 0,
                div != 0,
                forall|px: int, py: int|
                    in_chunk(px, py, x as int, y as int, chunk_size as int) ==> blendable(
                        #[trigger] before.pixel(px, py),
                        val,
                        olddiv,
                        div,
                    ),
                forall|px: int, py: int|
                    0 <= px < tex.width && 0 <= py < tex.height ==> #[trigger] tex.pixel(px, py)
                        == if in_chunk(px, py, x as int, y as int, chunk_size as int) && (px < x
                        + i || (px == x + i && py < y + j)) {
                        blended(before.pixel(px, py), val, olddiv, div)
                    } else {
                        before.pixel(px, py)
                    },
            decreases chunk_size - j,
        {
            let held = tex.get_pixel(x + i, y + j);
            assert(held == before.pixel(x + i, y + j));
            assert(in_chunk(x + i, y + j, x as int, y as int, chunk_size as int));
            assert(blendable(before.pixel(x + i, y + j), val, olddiv, div));
            let out: [u8; 4] = [
                held[0] / olddiv + val[0] / div,
                held[1] / olddiv + val[1] / div,
                held[2] / olddiv + val[2] / div,
                0,
            ];
            assert(out == blended(held, val, olddiv, div));
            tex.set_pixel(x + i, y + j, out);
            j += 1;
        }
        i += 1;
    }
}

/// Whether a chunk size can be used: it is not zero, and chunks of that
/// size tile the texture.
pub open spec fn valid_chunk_size(chunk: u32) -> bool {
    chunk != 0 && SIZE % chunk == 0
}

/// Whether one of the passes that are drawn has a chunk size that cannot be
/// used. The passes have the sizes `chunk`, half of it, and so on; they
/// stop before the first size below `end`, and also at a size above `SIZE`.
pub open spec fn draws_bad_pass(chunk: int, end: int) -> bool
    decreases chunk,
{
    if chunk < end || chunk > SIZE {
        false
    } else if chunk <= 0 || (SIZE as int) % chunk != 0 {
        true
    } else {
        draws_bad_pass(chunk / 2, end)
    }
}

/// The chunk sizes that can be used are the powers of two up to `SIZE`.
pub proof fn lemma_valid_chunk_sizes(chunk: u32)
    ensures
        valid_chunk_size(chunk) <==> (chunk == 1 || chunk == 2 || chunk == 4 || chunk == 8 || chunk
            == 16 || chunk == 32 || chunk == 64 || chunk == 128 || chunk == 256 || chunk == 512),
{
    assert((chunk != 0 && 512u32 % chunk == 0) <==> (chunk == 1 || chunk == 2 || chunk == 4
        || chunk == 8 || chunk == 16 || chunk == 32 || chunk == 64 || chunk == 128 || chunk == 256
        || chunk == 512)) by (bit_vector);
}

/// The divisor of the pass after one with divisor `div`: twice as large,
/// but not beyond 255.
pub open spec fn next_div(div: u8) -> u8 {
    if div >= 128 {
        255u8
    } else {
        (2 * div) as u8
    }
}

/// How many chunks of side `chunk` lie along one side of the texture.
pub open spec fn cells_per_side(chunk: int) -> int {
    (SIZE as int) / chunk
}

/// The most that a pass with divisor `div` adds to a channel.
pub open spec fn largest_share(div: u8) -> int {
    255int / (div as int)
}

/// The number of the chunk that the pixel `(x, y)` lies in, where the chunks
/// of a pass are counted row by row from `first_cell` on.
pub open spec fn cell_at(chunk: int, first_cell: int, x: int, y: int) -> int {
    first_cell + (y / chunk) * cells_per_side(chunk) + x / chunk
}

/// The color of the chunk with the given number: three draws in a row
/// belong to each chunk.
pub open spec fn cell_color(cell: int) -> [u8; 4] {
    unit_color(
        pcg32_output(SEED, (3 * cell) as u64),
        pcg32_output(SEED, (3 * cell + 1) as u64),
        pcg32_output(SEED, (3 * cell + 2) as u64),
    )
}

/// What the pixel `(x, y)` holds after one pass with chunks of side `chunk`
/// and divisor `div`, if it held `held` before: the color of its chunk is
/// blended in, undivided what was there and divided by `div` what is new.
pub open spec fn after_pass(
    held: [u8; 4],
    chunk: int,
    div: u8,
    first_cell: int,
    x: int,
    y: int,
) -> [u8; 4] {
    blended(held, cell_color(cell_at(chunk, first_cell, x, y)), 1, div)
}

/// Whether a pass that goes through the chunks row by row, and has come to
/// the chunk `(cx, cy)`, has been at the pixel `(x, y)`.
pub open spec fn passed(chunk: int, cx: int, cy: int, x: int, y: int) -> bool {
    y / chunk < cy || (y / chunk == cy && x / chunk < cx)
}

/// What the pixel `(x, y)` holds after the passes from chunk size `chunk`
/// down to `end`, if it held `held` before them. The pass after one has
/// half the chunk size and the next divisor, and goes on counting the chunks
/// where the one before it stopped.
pub open spec fn layered(
    chunk: int,
    end: int,
    div: u8,
    first_cell: int,
    x: int,
    y: int,
    held: [u8; 4],
) -> [u8; 4]
    decreases chunk,
{
    if chunk <= 0 || chunk < end || chunk > SIZE {
        held
    } else {
        layered(
            chunk / 2,
            end,
            next_div(div),
            first_cell + cells_per_side(chunk) * cells_per_side(chunk),
            x,
            y,
            after_pass(held, chunk, div, first_cell, x, y),
        )
    }
}

/// The pixel `(x, y)` of the static that starts with chunks of side `start`
/// and ends with chunks of side `end`.
pub open spec fn static_pixel(start: u32, end: u32, x: int, y: int) -> [u8; 4] {
    layered(start as int, end as int, 2, 0, x, y, [0u8, 0u8, 0u8, 0u8])
}

/// Whether `tex` is the static for the given chunk sizes.
pub open spec fn is_static_texture(tex: RgbaTexture<[u8; 4]>, start: u32, end: u32) -> bool {
    &&& tex.wf()
    &&& tex.width == SIZE
    &&& tex.height == SIZE
    &&& tex.format == PixelFormat::Rgba8Unorm
    &&& forall|x: int, y: int|
        0 <= x < SIZE && 0 <= y < SIZE ==> #[trigger] tex.pixel(x, y) == static_pixel(
            start,
            end,
            x,
            y,
        )
}

/// The most that the passes from chunk size `chunk` down to `end` can add
/// to a channel.
pub open spec fn remaining(chunk: int, end: int, div: u8) -> int
    decreases chunk,
{
    if chunk <= 0 || chunk < end || chunk > SIZE {
        0
    } else {
        largest_share(div) + remaining(chunk / 2, end, next_div(div))
    }
}

/// Whether each color channel of `p` can still grow by `amount`.
pub open spec fn has_room(p: [u8; 4], amount: int) -> bool {
    &&& p[0] + amount <= 255
    &&& p[1] + amount <= 255
    &&& p[2] + amount <= 255
}

/// Whatever the chunk size of the first pass, the passes together add no
/// more to a channel than it can hold.
proof fn lemma_remaining_at_start(start: u32, end: u32)
    requires
        !draws_bad_pass(start as int, end as int),
    ensures
        0 <= remaining(start as int, end as int, 2) <= 255,
{
    if start >= end && start <= SIZE {
        lemma_valid_chunk_sizes(start);
        reveal_with_fuel(remaining, 12);
    }
}

/// A pixel lies in the chunk that its coordinates, divided by the chunk
/// size, name.
proof fn lemma_chunk_of(p: int, chunk: int, c: int)
    requires
        chunk > 0,
        0 <= p,
        0 <= c,
    ensures
        (c * chunk <= p < c * chunk + chunk) <==> p / chunk == c,
{
    lemma_fundamental_div_mod(p, chunk);
    let q = p / chunk;
    assert(0 <= p % chunk < chunk);
    if q < c {
        assert(chunk * q + chunk <= c * chunk) by (nonlinear_arith)
            requires
                q + 1 <= c,
                chunk > 0,
        ;
    } else if q > c {
        assert(c * chunk + chunk <= chunk * q) by (nonlinear_arith)
            requires
                c + 1 <= q,
                chunk > 0,
        ;
    } else {
        assert(chunk * q == c * chunk) by (nonlinear_arith)
            requires
                q == c,
        ;
    }
}

/// Every pixel lies in one of the chunks that tile the texture.
proof fn lemma_chunk_in_range(p: int, chunk: int, side: int)
    requires
        chunk > 0,
        chunk * side == SIZE,
        0 <= p < SIZE,
    ensures
        0 <= p / chunk < side,
{
    lemma_fundamental_div_mod(p, chunk);
    let q = p / chunk;
    if q >= side {
        assert(chunk * q >= chunk * side) by (nonlinear_arith)
            requires
                q >= side,
                chunk > 0,
        ;
    }
    if q < 0 {
        assert(chunk * q <= -chunk) by (nonlinear_arith)
            requires
                q <= -1,
                chunk > 0,
        ;
    }
}

/// One pass of the static: every chunk of side `chunk_size` gets a color
/// of its own, drawn in order from chunk number `first_cell` on, and the
/// color's share is added to each of the chunk's pixels.
fn add_layer(tex: &mut RgbaTexture<[u8; 4]>, chunk_size: u32, div: u8, first_cell: u64)
    requires
        old(tex).wf(),
        old(tex).width == SIZE,
        old(tex).height == SIZE,
        valid_chunk_size(chunk_size),
        div != 0,
        first_cell <= 0x10_0000,
        forall|x: int, y: int|
            0 <= x < SIZE && 0 <= y < SIZE ==> has_room(
                #[trigger] old(tex).pixel(x, y),
                largest_share(div),
            ),
    ensures
        final(tex).wf(),
        final(tex).width == SIZE,
        final(tex).height == SIZE,
        final(tex).format == old(tex).format,
        forall|x: int, y: int|
            0 <= x < SIZE && 0 <= y < SIZE ==> #[trigger] final(tex).pixel(x, y) == after_pass(
                old(tex).pixel(x, y),
                chunk_size as int,
                div,
                first_cell as int,
                x,
                y,
            ),
{
    let ghost before = *tex;
    let ghost chunk = chunk_size as int;
    let ghost first = first_cell as int;
    let side: u32 = SIZE / chunk_size;
    proof {
        lemma_fundamental_div_mod(SIZE as int, chunk_size as int);
        assert(chunk_size * side == SIZE);
        assert(side <= SIZE) by (nonlinear_arith)
            requires
                chunk_size * side == SIZE,
                chunk_size >= 1,
                side >= 0,
        ;
    }
    let mut cy: u32 = 0;
    while cy < side
        invariant
            cy <= side <= SIZE,
            chunk_size * side == SIZE,
            chunk_size > 0,
            side == SIZE / chunk_size,
            div != 0,
            first_cell <= 0x10_0000,
            tex.wf(),
            tex.width == SIZE,
            tex.height == SIZE,
            tex.format == before.format,
            forall|x: int, y: int|
                0 <= x < SIZE && 0 <= y < SIZE ==> has_room(
                    #[trigger] before.pixel(x, y),
                    largest_share(div),
                ),
            chunk == chunk_size,
            first == first_cell,
            forall|x: int, y: int|
                0 <= x < SIZE && 0 <= y < SIZE ==> #[trigger] tex.pixel(x, y) == if passed(
                    chunk,
                    0,
                    cy as int,
                    x,
                    y,
                ) {
                    after_pass(before.pixel(x, y), chunk, div, first, x, y)
                } else {
                    before.pixel(x, y)
                },
        decreases side - cy,
    {
        let mut cx: u32 = 0;
        while cx < side
            invariant
                cy < side <= SIZE,
                cx <= side,
                chunk_size * side == SIZE,
                chunk_size > 0,
                side == SIZE / chunk_size,
                div != 0,
                first_cell <= 0x10_0000,
                tex.wf(),
                tex.width == SIZE,
                tex.height == SIZE,
                tex.format == before.format,
                forall|x: int, y: int|
                    0 <= x < SIZE && 0 <= y < SIZE ==> has_room(
                        #[trigger] before.pixel(x, y),
                        largest_share(div),
                    ),
                chunk == chunk_size,
                first == first_cell,
                forall|x: int, y: int|
                    0 <= x < SIZE && 0 <= y < SIZE ==> #[trigger] tex.pixel(x, y) == if passed(
                        chunk,
                        cx as int,
                        cy as int,
                        x,
                        y,
                    ) {
                        after_pass(before.pixel(x, y), chunk, div, first, x, y)
                    } else {
                        before.pixel(x, y)
                    },
            decreases side - cx,
        {
            proof {
                assert(cx * chunk_size + chunk_size <= SIZE) by (nonlinear_arith)
                    requires
                        cx + 1 <= side,
                        chunk_size * side == SIZE,
                        chunk_size > 0,
                ;
                assert(cy * chunk_size + chunk_size <= SIZE) by (nonlinear_arith)
                    requires
                        cy + 1 <= side,
                        chunk_size * side == SIZE,
                        chunk_size > 0,
                ;
                assert(cy * side + cx < SIZE * SIZE) by (nonlinear_arith)
                    requires
                        cy < side,
                        cx < side,
                        side <= SIZE,
                ;
            }
            let cell: u64 = first_cell + (cy as u64) * (side as u64) + cx as u64;
            let val = color_of_draws(
                pcg32_draw(SEED, 3 * cell),
                pcg32_draw(SEED, 3 * cell + 1),
                pcg32_draw(SEED, 3 * cell + 2),
            );
            assert(val == cell_color(cell as int));
            let x0: u32 = cx * chunk_size;
            let y0: u32 = cy * chunk_size;
            let ghost during = *tex;
            proof {
                assert forall|x: int, y: int|
                    in_chunk(x, y, x0 as int, y0 as int, chunk_size as int) implies blendable(
                    #[trigger] during.pixel(x, y),
                    val,
                    1,
                    div,
                ) by {
                    lemma_chunk_of(x, chunk_size as int, cx as int);
                    lemma_chunk_of(y, chunk_size as int, cy as int);
                    let held = before.pixel(x, y);
                    assert(during.pixel(x, y) == held);
                    assert(has_room(held, largest_share(div)));
                    lemma_div_is_ordered(val[0] as int, 255, div as int);
                    lemma_div_is_ordered(val[1] as int, 255, div as int);
                    lemma_div_is_ordered(val[2] as int, 255, div as int);
                }
            }
            add_chunk(tex, x0, y0, val, chunk_size, 1, div);
            proof {
                assert forall|x: int, y: int| 0 <= x < SIZE && 0 <= y < SIZE implies #[trigger] tex.pixel(
                    x,
                    y,
                ) == if passed(chunk, cx + 1, cy as int, x, y) {
                    after_pass(before.pixel(x, y), chunk, div, first, x, y)
                } else {
                    before.pixel(x, y)
                } by {
                    lemma_chunk_of(x, chunk, cx as int);
                    lemma_chunk_of(y, chunk, cy as int);
                    assert(tex.pixel(x, y) == if in_chunk(x, y, x0 as int, y0 as int, chunk) {
                        blended(during.pixel(x, y), val, 1, div)
                    } else {
                        during.pixel(x, y)
                    });
                }
            }
            cx += 1;
        }
        proof {
            assert forall|x: int| 0 <= x < SIZE implies #[trigger] (x / (chunk_size as int))
                < side by {
                lemma_chunk_in_range(x, chunk_size as int, side as int);
            }
        }
        cy += 1;
    }
    proof {
        assert forall|y: int| 0 <= y < SIZE implies #[trigger] (y / (chunk_size as int)) < side by {
            lemma_chunk_in_range(y, chunk_size as int, side as int);
        }
    }
}

/// The passes of the static from chunk size `chunk_size` down to
/// `end_chunk_size`, one after the other. Each pass takes its colors from
/// where the pass before it stopped drawing, halves the chunk size and
/// doubles the divisor, which stops at 255.
fn recurse(
    tex: &mut RgbaTexture<[u8; 4]>,
    chunk_size: u32,
    end_chunk_size: u32,
    div: u8,
    first_cell: u64,
)
    requires
        old(tex).wf(),
        old(tex).width == SIZE,
        old(tex).height == SIZE,
        !draws_bad_pass(chunk_size as int, end_chunk_size as int),
        div != 0,
        0 < chunk_size <= SIZE ==> first_cell <= cells_per_side(chunk_size as int) * cells_per_side(
            chunk_size as int,
        ),
        forall|x: int, y: int|
            0 <= x < SIZE && 0 <= y < SIZE ==> has_room(
                #[trigger] old(tex).pixel(x, y),
                remaining(chunk_size as int, end_chunk_size as int, div),
            ),
    ensures
        final(tex).wf(),
        final(tex).width == SIZE,
        final(tex).height == SIZE,
        final(tex).format == old(tex).format,
        forall|x: int, y: int|
            0 <= x < SIZE && 0 <= y < SIZE ==> #[trigger] final(tex).pixel(x, y) == layered(
                chunk_size as int,
                end_chunk_size as int,
                div,
                first_cell as int,
                x,
                y,
                old(tex).pixel(x, y),
            ),
    decreases chunk_size,
{
    if chunk_size < end_chunk_size {
        return ;
    }
    if chunk_size > tex.width || chunk_size > tex.height {
        return ;
    }
    let ghost before = *tex;
    let side: u32 = SIZE / chunk_size;
    proof {
        lemma_valid_chunk_sizes(chunk_size);
        lemma_remaining_is_not_negative(
            chunk_size as int / 2,
            end_chunk_size as int,
            next_div(div),
        );
        assert(side == cells_per_side(chunk_size as int));
        assert(side * side <= 0x4_0000) by (nonlinear_arith)
            requires
                side <= 512,
        ;
    }
    add_layer(tex, chunk_size, div, first_cell);
    let ghost between = *tex;
    let next: u8 = if div >= 128 {
        255
    } else {
        div * 2
    };
    let half: u32 = chunk_size / 2;
    proof {
        if half > 0 {
            assert(half == 1 || half == 2 || half == 4 || half == 8 || half == 16 || half == 32
                || half == 64 || half == 128 || half == 256);
            assert(cells_per_side(half as int) == 2 * side);
            assert(first_cell + side * side <= (2 * side) * (2 * side)) by (nonlinear_arith)
                requires
                    first_cell <= side * side,
                    side >= 0,
            ;
        }
        assert forall|x: int, y: int| 0 <= x < SIZE && 0 <= y < SIZE implies has_room(
            #[trigger] between.pixel(x, y),
            remaining(half as int, end_chunk_size as int, next),
        ) by {
            let held = before.pixel(x, y);
            let val = cell_color(cell_at(chunk_size as int, first_cell as int, x, y));
            assert(has_room(held, remaining(chunk_size as int, end_chunk_size as int, div)));
            assert(between.pixel(x, y) == blended(held, val, 1, div));
            lemma_div_is_ordered(val[0] as int, 255, div as int);
            lemma_div_is_ordered(val[1] as int, 255, div as int);
            lemma_div_is_ordered(val[2] as int, 255, div as int);
        }
    }
    recurse(tex, half, end_chunk_size, next, first_cell + (side as u64) * (side as u64));
}

/// No pass takes anything away.
proof fn lemma_remaining_is_not_negative(chunk: int, end: int, div: u8)
    requires
        div != 0,
    ensures
        remaining(chunk, end, div) >= 0,
    decreases chunk,
{
    if chunk > 0 {
        lemma_remaining_is_not_negative(chunk / 2, end, next_div(div));
    }
}

/// Goes through the sizes of the passes that would be drawn, and tells
/// whether one of them cannot be used.
fn finds_bad_pass(start_chunk_size: u32, end_chunk_size: u32) -> (bad: bool)
    ensures
        bad == draws_bad_pass(start_chunk_size as int, end_chunk_size as int),
{
    let mut chunk: u32 = start_chunk_size;
    while chunk >= end_chunk_size && chunk <= SIZE
        invariant
            draws_bad_pass(chunk as int, end_chunk_size as int) == draws_bad_pass(
                start_chunk_size as int,
                end_chunk_size as int,
            ),
        decreases chunk,
    {
        if chunk == 0 || SIZE % chunk != 0 {
            return true;
        }
        chunk = chunk / 2;
    }
    false
}

/// Layered static of `SIZE` by `SIZE` pixels. The first pass has chunks of
/// side `start_chunk_size`; each pass after it has chunks half as large and
/// weighs half as much, down to the last size that is not below
/// `end_chunk_size`. A start above `SIZE`, or below the end, leaves the
/// texture blank. Every pass that is drawn must have a chunk size that
/// divides `SIZE`. The colors come from a generator with a fixed seed, so the
/// same sizes always give the same texture.
pub fn create_fractal_static_texture(start_chunk_size: u32, end_chunk_size: u32) -> (r: Result<
    RgbaTexture<[u8; 4]>,
    Error,
>)
    ensures
        r is Ok <==> !draws_bad_pass(start_chunk_size as int, end_chunk_size as int),
        r matches Ok(tex) ==> is_static_texture(tex, start_chunk_size, end_chunk_size),
        r matches Err(e) ==> e == Error::InvalidTextureParams,
{
    if finds_bad_pass(start_chunk_size, end_chunk_size) {
        return Err(Error::InvalidTextureParams);
    }
    let mut tex = RgbaTexture::filled(SIZE, SIZE, PixelFormat::Rgba8Unorm, [0u8, 0u8, 0u8, 0u8]);
    let ghost blank = tex;
    proof {
        lemma_remaining_at_start(start_chunk_size, end_chunk_size);
        assert forall|x: int, y: int| 0 <= x < SIZE && 0 <= y < SIZE implies #[trigger] blank.pixel(
            x,
            y,
        ) == [0u8, 0u8, 0u8, 0u8] by {
            crate::texture::lemma_index_in_range(SIZE as int, SIZE as int, x, y);
        }
    }
    recurse(&mut tex, start_chunk_size, end_chunk_size, 2, 0);
    Ok(tex)
}

/// Static in a single pass, with chunks of side `chunk_size`. A size above
/// `SIZE` leaves the texture blank; any other must divide `SIZE`.
pub fn create_static_texture(chunk_size: u32) -> (r: Result<RgbaTexture<[u8; 4]>, Error>)
    ensures
        r is Ok <==> chunk_size > SIZE || valid_chunk_size(chunk_size),
        r matches Ok(tex) ==> is_static_texture(tex, chunk_size, chunk_size),
        r matches Err(e) ==> e == Error::InvalidTextureParams,
{
    proof {
        reveal_with_fuel(draws_bad_pass, 2);
    }
    create_fractal_static_texture(chunk_size, chunk_size)
}

/// The pixel that every place of row `y` of the test gradient holds: red and
/// green rise from 0 in the first row to 254 in the last, blue is 100 and
/// alpha 255.
pub open spec fn gradient_pixel(y: int) -> [u8; 4] {
    let a = (y * 255 / (SIZE as int)) as u8;
    [a, a, 100u8, 255u8]
}

/// Whether `tex` is the test gradient.
pub open spec fn is_letter_texture(tex: RgbaTexture<[u8; 4]>) -> bool {
    &&& tex.wf()
    &&& tex.width == SIZE
    &&& tex.height == SIZE
    &&& tex.format == PixelFormat::Rgba8UnormSrgb
    &&& forall|x: int, y: int|
        0 <= x < SIZE && 0 <= y < SIZE ==> #[trigger] tex.pixel(x, y) == gradient_pixel(y)
}

/// The texture that the letters are drawn with: a gradient of `SIZE` by
/// `SIZE` pixels that runs from the first row to the last.
pub fn create_letter_texture() -> (tex: RgbaTexture<[u8; 4]>)
    ensures
        is_letter_texture(tex),
{
    let mut tex = RgbaTexture::filled(
        SIZE,
        SIZE,
        PixelFormat::Rgba8UnormSrgb,
        [0u8, 0u8, 0u8, 0u8],
    );
    let mut y: u32 = 0;
    while y < tex.height
        invariant
            y <= SIZE,
            tex.wf(),
            tex.width == SIZE,
            tex.height == SIZE,
            tex.format == PixelFormat::Rgba8UnormSrgb,
            forall|px: int, py: int|
                0 <= px < SIZE && 0 <= py < y ==> #[trigger] tex.pixel(px, py) == gradient_pixel(py),
        decreases SIZE - y,
    {
        let mut x: u32 = 0;
        while x < tex.width
            invariant
                y < SIZE,
                x <= SIZE,
                tex.wf(),
                tex.width == SIZE,
                tex.height == SIZE,
                tex.format == PixelFormat::Rgba8UnormSrgb,
                forall|px: int, py: int|
                    0 <= px < SIZE && (0 <= py < y || (py == y && px < x)) ==> #[trigger] tex.pixel(
                        px,
                        py,
                    ) == gradient_pixel(py),
            decreases SIZE - x,
        {
            let a: u8 = (y * 255 / SIZE) as u8;
            tex.set_pixel(x, y, [a, a, 100, 255]);
            x += 1;
        }
        y += 1;
    }
    tex
}

/// Two textures of one size that agree pixel by pixel hold the same values.
pub proof fn lemma_same_pixels_same_values(a: RgbaTexture<[u8; 4]>, b: RgbaTexture<[u8; 4]>)
    requires
        a.wf(),
        b.wf(),
        a.width == b.width,
        a.height == b.height,
        forall|x: int, y: int|
            0 <= x < a.width && 0 <= y < a.height ==> #[trigger] a.pixel(x, y) == b.pixel(x, y),
    ensures
        a.values@ == b.values@,
{
    let w = a.width as int;
    assert forall|i: int| 0 <= i < a.values.len() implies a.values[i] == b.values[i] by {
        if w == 0 {
            assert(a.width * a.height == 0) by (nonlinear_arith)
                requires
                    a.width == 0,
            ;
        } else {
            lemma_fundamental_div_mod(i, w);
            let x = i % w;
            let y = i / w;
            assert(w * y == y * w) by (nonlinear_arith);
            if y >= a.height {
                assert(y * w >= a.height * w) by (nonlinear_arith)
                    requires
                        y >= a.height,
                        w > 0,
                ;
                assert(a.height * w == a.width * a.height) by (nonlinear_arith)
                    requires
                        w == a.width,
                ;
            }
            if y < 0 {
                assert(y * w <= -w) by (nonlinear_arith)
                    requires
                        y <= -1,
                        w > 0,
                ;
            }
            assert(a.pixel(x, y) == b.pixel(x, y));
        }
    }
    assert(a.values@ =~= b.values@);
}

/// The test gradient is one texture: whatever two calls of
/// [`create_letter_texture`] return holds the same bytes.
pub proof fn lemma_letter_texture_is_unique(a: RgbaTexture<[u8; 4]>, b: RgbaTexture<[u8; 4]>)
    requires
        is_letter_texture(a),
        is_letter_texture(b),
    ensures
        a.values@ == b.values@,
        a.width == b.width,
        a.height == b.height,
        a.format == b.format,
{
    lemma_same_pixels_same_values(a, b);
}

/// The static for given chunk sizes is one texture: whatever two calls of
/// [`create_fractal_static_texture`] with the same sizes return holds the
/// same bytes.
pub proof fn lemma_static_texture_is_unique(
    a: RgbaTexture<[u8; 4]>,
    b: RgbaTexture<[u8; 4]>,
    start: u32,
    end: u32,
)
    requires
        is_static_texture(a, start, end),
        is_static_texture(b, start, end),
    ensures
        a.values@ == b.values@,
        a.width == b.width,
        a.height == b.height,
        a.format == b.format,
{
    lemma_same_pixels_same_values(a, b);
}

} // verus!
