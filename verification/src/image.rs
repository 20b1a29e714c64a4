//! Pixels: adding up samples and putting tiles together.

use crate::arithmetic::{Arithmetic, Operation};
use crate::math::{Vec3, Vec4};
use crate::scalar::{Scalar, ONE_BITS};
use crate::schedule::AtlasGrid;
use vstd::arithmetic::div_mod::{
    lemma_fundamental_div_mod, lemma_fundamental_div_mod_converse, lemma_mod_bound,
};
use vstd::prelude::*;

verus! {

/// The first three components.
pub open spec fn rgb_spec(pixel: Vec4) -> Vec3 {
    Vec3 { x: pixel.x, y: pixel.y, z: pixel.z }
}

/// A sum of colors, component by component.
pub open spec fn plus(sum: spec_fn(Scalar, Scalar) -> Scalar, a: Vec3, b: Vec3) -> Vec3 {
    Vec3 { x: sum(a.x, b.x), y: sum(a.y, b.y), z: sum(a.z, b.z) }
}

/// The sum of a pixel and its first `lanes` partial results, taken in order.
/// The partial results of lane `k` stand `k` images behind `start`.
pub open spec fn lane_sum(
    sum: spec_fn(Scalar, Scalar) -> Scalar,
    before: Vec3,
    partials: Seq<Vec4>,
    start: int,
    pixels: int,
    pixel: int,
    lanes: int,
) -> Vec3
    decreases lanes,
{
    if lanes <= 0 {
        before
    } else {
        plus(
            sum,
            lane_sum(sum, before, partials, start, pixels, pixel, lanes - 1),
            rgb_spec(partials[start + (lanes - 1) * pixels + pixel]),
        )
    }
}

/// Adds the partial results of one lane to the pixels.
fn add_lane<F: Fn(Operation, Scalar, Scalar) -> Scalar, N: Fn(Vec3) -> Option<Vec3>>(
    sums: &mut Vec<Vec3>,
    partials: &Vec<Vec4>,
    lane_start: usize,
    math: &Arithmetic<F, N>,
)
    requires
        math.wf(),
        lane_start + old(sums)@.len() <= partials@.len(),
    ensures
        final(sums)@.len() == old(sums)@.len(),
        forall|p: int|
            0 <= p < old(sums)@.len() ==> #[trigger] final(sums)@[p] == plus(
                math.model().sums(),
                old(sums)@[p],
                rgb_spec(partials@[lane_start + p]),
            ),
{
    let ghost before = sums@;
    let count: usize = sums.len();
    let total: usize = partials.len();
    let mut next: usize = 0;
    while next < count
        invariant
            math.wf(),
            count == before.len() == sums@.len(),
            lane_start + count <= total == partials@.len(),
            next <= count,
            forall|p: int| next <= p < count ==> sums@[p] == before[p],
            forall|p: int|
                0 <= p < next ==> #[trigger] sums@[p] == plus(
                    math.model().sums(),
                    before[p],
                    rgb_spec(partials@[lane_start + p]),
                ),
        decreases count - next,
    {
        let sum = sums[next];
        let partial = partials[lane_start + next];
        sums.set(
            next,
            Vec3 {
                x: math.sum(sum.x, partial.x),
                y: math.sum(sum.y, partial.y),
                z: math.sum(sum.z, partial.z),
            },
        );
        next += 1;
    }
}

/// Adds the partial results of all lanes of a tile to its pixels.
pub fn add_lanes<F: Fn(Operation, Scalar, Scalar) -> Scalar, N: Fn(Vec3) -> Option<Vec3>>(
    sums: &mut Vec<Vec3>,
    partials: &Vec<Vec4>,
    start: usize,
    lanes: u32,
    math: &Arithmetic<F, N>,
)
    requires
        math.wf(),
        start + lanes * old(sums)@.len() <= partials@.len(),
    ensures
        final(sums)@.len() == old(sums)@.len(),
        forall|p: int|
            0 <= p < old(sums)@.len() ==> #[trigger] final(sums)@[p] == lane_sum(
                math.model().sums(),
                old(sums)@[p],
                partials@,
                start as int,
                old(sums)@.len() as int,
                p,
                lanes as int,
            ),
{
    let ghost before = sums@;
    let pixels: usize = sums.len();
    let total: usize = partials.len();
    let mut lane: u32 = 0;
    let mut lane_start: usize = start;
    assert(0 * (pixels as int) == 0);
    assert(lanes * before.len() >= 0) by (nonlinear_arith);
    while lane < lanes
        invariant
            math.wf(),
            pixels == before.len() == sums@.len(),
            start + lanes * pixels <= total == partials@.len(),
            lane <= lanes,
            lane_start == start + lane * pixels,
            forall|p: int|
                0 <= p < pixels ==> #[trigger] sums@[p] == lane_sum(
                    math.model().sums(),
                    before[p],
                    partials@,
                    start as int,
                    pixels as int,
                    p,
                    lane as int,
                ),
        decreases lanes - lane,
    {
        assert((lane + 1) * pixels == lane * pixels + pixels && (lane + 1) * pixels <= lanes
            * pixels) by (nonlinear_arith)
            requires
                lane < lanes,
        ;
        let ghost so_far = sums@;
        add_lane(sums, partials, lane_start, math);
        assert forall|p: int| 0 <= p < pixels implies #[trigger] sums@[p] == lane_sum(
            math.model().sums(),
            before[p],
            partials@,
            start as int,
            pixels as int,
            p,
            lane + 1,
        ) by {
            assert(so_far[p] == lane_sum(
                math.model().sums(),
                before[p],
                partials@,
                start as int,
                pixels as int,
                p,
                lane as int,
            ));
        }
        lane_start = lane_start + pixels;
        lane += 1;
    }
}

/// The means of the components of pixels that are sums of `count` samples.
pub open spec fn averaged(
    mean: spec_fn(Scalar, u32) -> Scalar,
    sums: Seq<Vec3>,
    count: u32,
) -> Seq<Vec3> {
    sums.map_values(
        |sum: Vec3| Vec3 { x: mean(sum.x, count), y: mean(sum.y, count), z: mean(sum.z, count) },
    )
}

/// Turns pixels that are sums of `count` samples into means, by division.
pub fn average_pixels<F: Fn(Operation, Scalar, Scalar) -> Scalar, N: Fn(Vec3) -> Option<Vec3>>(
    sums: &Vec<Vec3>,
    count: u32,
    math: &Arithmetic<F, N>,
) -> (pixels: Vec<Vec3>)
    requires
        math.wf(),
    ensures
        pixels@ == averaged(math.model().means(), sums@, count),
{
    let ghost all = averaged(math.model().means(), sums@, count);
    let samples = Scalar::of_count(count as u64);
    let mut pixels: Vec<Vec3> = Vec::new();
    let mut next: usize = 0;
    while next < sums.len()
        invariant
            math.wf(),
            all == averaged(math.model().means(), sums@, count),
            samples == Scalar::of_count_spec(count as nat),
            next <= sums@.len(),
            pixels@ == all.take(next as int),
        decreases sums@.len() - next,
    {
        pixels.push(math.over(sums[next], samples));
        assert(pixels@ =~= all.take(next + 1));
        next += 1;
    }
    assert(pixels@ =~= all);
    pixels
}

/// Turns pixels that are sums of `count` samples into means, through the reciprocal
/// of their number.
pub fn scale_pixels<F: Fn(Operation, Scalar, Scalar) -> Scalar, N: Fn(Vec3) -> Option<Vec3>>(
    sums: &Vec<Vec3>,
    count: u32,
    math: &Arithmetic<F, N>,
) -> (pixels: Vec<Vec3>)
    requires
        math.wf(),
    ensures
        pixels@ == averaged(math.model().scaled_means(), sums@, count),
{
    let ghost all = averaged(math.model().scaled_means(), sums@, count);
    let share = math.quotient(Scalar::one(), Scalar::of_count(count as u64));
    let mut pixels: Vec<Vec3> = Vec::new();
    let mut next: usize = 0;
    while next < sums.len()
        invariant
            math.wf(),
            all == averaged(math.model().scaled_means(), sums@, count),
            share == math.model().quotient(
                Scalar { bits: ONE_BITS },
                Scalar::of_count_spec(count as nat),
            ),
            next <= sums@.len(),
            pixels@ == all.take(next as int),
        decreases sums@.len() - next,
    {
        pixels.push(math.times(sums[next], share));
        assert(pixels@ =~= all.take(next + 1));
        next += 1;
    }
    assert(pixels@ =~= all);
    pixels
}

/// The colors of pixels that carry a fourth component.
pub open spec fn colors(rgba: Seq<Vec4>) -> Seq<Vec3> {
    rgba.map_values(|pixel: Vec4| rgb_spec(pixel))
}

/// The colors of pixels that carry a fourth component.
pub fn rgb_pixels(rgba: &Vec<Vec4>) -> (pixels: Vec<Vec3>)
    ensures
        pixels@ == colors(rgba@),
{
    let mut pixels: Vec<Vec3> = Vec::new();
    let ghost all = colors(rgba@);
    let mut next: usize = 0;
    while next < rgba.len()
        invariant
            all == colors(rgba@),
            next <= rgba@.len(),
            pixels@ == all.take(next as int),
        decreases rgba@.len() - next,
    {
        let pixel = rgba[next];
        pixels.push(Vec3 { x: pixel.x, y: pixel.y, z: pixel.z });
        assert(pixels@ =~= all.take(next + 1));
        next += 1;
    }
    assert(pixels@ =~= all);
    pixels
}

/// The pixel in column `x` and row `y`.
pub open spec fn pixel_at(image: Seq<Vec3>, width: int, x: int, y: int) -> Vec3 {
    image[y * width + x]
}

/// The tile that a pixel of an atlas belongs to.
pub open spec fn tile_of(grid: AtlasGrid, x: int, y: int) -> int {
    y / grid.tile_height as int * grid.light_width + x / grid.tile_width as int
}

/// The pixel of a tile that stands at a place in the atlas.
pub open spec fn tile_pixel(grid: AtlasGrid, tile: Seq<Vec3>, x: int, y: int) -> Vec3 {
    pixel_at(
        tile,
        grid.tile_width as int,
        x % grid.tile_width as int,
        y % grid.tile_height as int,
    )
}

/// Whether the atlas `after` is `before` with tile `index` in its place.
pub open spec fn is_blitted(
    grid: AtlasGrid,
    before: Seq<Vec3>,
    tile: Seq<Vec3>,
    index: int,
    after: Seq<Vec3>,
) -> bool {
    &&& after.len() == before.len()
    &&& forall|x: int, y: int|
        0 <= x < grid.atlas_width && 0 <= y < grid.atlas_height ==> #[trigger] pixel_at(
            after,
            grid.atlas_width as int,
            x,
            y,
        ) == if tile_of(grid, x, y) == index {
            tile_pixel(grid, tile, x, y)
        } else {
            pixel_at(before, grid.atlas_width as int, x, y)
        }
}

/// Copies one row of a tile into the atlas.
fn copy_row(
    atlas: &mut Vec<Vec3>,
    atlas_start: usize,
    tile: &Vec<Vec3>,
    tile_start: usize,
    count: usize,
)
    requires
        atlas_start + count <= old(atlas)@.len(),
        tile_start + count <= tile@.len(),
    ensures
        final(atlas)@.len() == old(atlas)@.len(),
        forall|i: int|
            0 <= i < old(atlas)@.len() ==> #[trigger] final(atlas)@[i] == if atlas_start <= i
                < atlas_start + count {
                tile@[tile_start + i - atlas_start]
            } else {
                old(atlas)@[i]
            },
{
    let ghost before = atlas@;
    let atlas_len: usize = atlas.len();
    let tile_len: usize = tile.len();
    let mut next: usize = 0;
    while next < count
        invariant
            atlas_start + count <= atlas_len == atlas@.len() == before.len(),
            tile_start + count <= tile_len == tile@.len(),
            next <= count,
            forall|i: int|
                0 <= i < before.len() ==> #[trigger] atlas@[i] == if atlas_start <= i < atlas_start
                    + next {
                    tile@[tile_start + i - atlas_start]
                } else {
                    before[i]
                },
        decreases count - next,
    {
        atlas.set(atlas_start + next, tile[tile_start + next]);
        next += 1;
    }
}

/// Where a pixel stands in an image, and that it is the only one there.
proof fn lemma_pixel_position(x: int, y: int, width: int, height: int)
    requires
        0 <= x < width,
        0 <= y < height,
    ensures
        0 <= y * width + x < width * height,
        y * width + width <= width * height,
        (y * width + x) / width == y,
        (y * width + x) % width == x,
{
    assert(0 <= y * width && y * width + width <= width * height) by (nonlinear_arith)
        requires
            0 <= y < height,
            0 < width,
    ;
    lemma_fundamental_div_mod_converse(y * width + x, width, y, x);
}

/// Puts a tile in its place in an atlas.
pub fn blit_tile(atlas: &mut Vec<Vec3>, grid: &AtlasGrid, tile: &Vec<Vec3>, tile_index: u32)
    requires
        grid.wf(),
        tile_index < grid.light_count,
        old(atlas)@.len() == grid.pixel_count,
        tile@.len() >= grid.tile_width * grid.tile_height,
    ensures
        is_blitted(*grid, old(atlas)@, tile@, tile_index as int, final(atlas)@),
{
    let light_x: u32 = tile_index % grid.light_width;
    let light_y: u32 = tile_index / grid.light_width;
    let ghost before = atlas@;
    let ghost width = grid.atlas_width as int;
    let ghost height = grid.atlas_height as int;
    let ghost tw = grid.tile_width as int;
    let ghost th = grid.tile_height as int;
    proof {
        lemma_tile_lies_in_atlas(*grid, tile_index as int);
    }
    let tile_columns: usize = grid.tile_width as usize;
    let atlas_columns: usize = grid.atlas_width as usize;
    let atlas_len: usize = atlas.len();
    let tile_len: usize = tile.len();
    let mut y: u32 = 0;
    while y < grid.tile_height
        invariant
            grid.wf(),
            tile_index < grid.light_count,
            light_x == tile_index % grid.light_width,
            light_y == tile_index / grid.light_width,
            width == grid.atlas_width == atlas_columns,
            height == grid.atlas_height,
            tw == grid.tile_width == tile_columns,
            th == grid.tile_height,
            before.len() == grid.pixel_count,
            atlas_len == atlas@.len() == before.len(),
            tile_len == tile@.len() >= tw * th,
            0 <= light_x * tw && light_x * tw + tw <= width,
            0 <= light_y * th && light_y * th + th <= height,
            y <= th,
            forall|i: int|
                0 <= i < before.len() ==> #[trigger] atlas@[i] == if light_y * th <= i / width
                    < light_y * th + y && light_x * tw <= i % width < light_x * tw + tw {
                    tile@[(i / width - light_y * th) * tw + (i % width - light_x * tw)]
                } else {
                    before[i]
                },
        decreases th - y,
    {
        let ghost atlas_y = light_y * th + y;
        if tile_columns > 0 {
            proof {
                lemma_pixel_position(light_x * tw, atlas_y, width, height);
                lemma_pixel_position(0, y as int, tw, th);
                assert(width * height == grid.pixel_count);
                assert(light_y * th <= u32::MAX);
                assert(0 <= light_x * tw <= u32::MAX);
                assert(0 <= y * tw);
                assert(atlas_y * width >= 0) by (nonlinear_arith)
                    requires
                        atlas_y >= 0,
                        width >= 0,
                ;
            }
            let row: u32 = light_y * grid.tile_height + y;
            let atlas_row: usize = row as usize * atlas_columns + light_x as usize * tile_columns;
            let tile_row: usize = y as usize * tile_columns;
            let ghost so_far = atlas@;
            copy_row(atlas, atlas_row, tile, tile_row, tile_columns);
            assert forall|i: int| 0 <= i < before.len() implies #[trigger] atlas@[i] == if light_y
                * th <= i / width < light_y * th + (y + 1) && light_x * tw <= i % width < light_x
                * tw + tw {
                tile@[(i / width - light_y * th) * tw + (i % width - light_x * tw)]
            } else {
                before[i]
            } by {
                assert(so_far[i] == if light_y * th <= i / width < light_y * th + y && light_x * tw
                    <= i % width < light_x * tw + tw {
                    tile@[(i / width - light_y * th) * tw + (i % width - light_x * tw)]
                } else {
                    before[i]
                });
                lemma_fundamental_div_mod(i, width);
                lemma_mod_bound(i, width);
                let q = i / width;
                let r = i % width;
                assert(width * q == q * width) by (nonlinear_arith);
                if atlas_row <= i < atlas_row + tw {
                    let d = i - atlas_row;
                    lemma_pixel_position(light_x * tw + d, atlas_y, width, height);
                    assert(i == atlas_y * width + (light_x * tw + d));
                } else if q == atlas_y {
                    assert(!(light_x * tw <= r < light_x * tw + tw));
                }
            }
        }
        y += 1;
    }
    assert forall|px: int, py: int|
        0 <= px < width && 0 <= py < height implies #[trigger] pixel_at(atlas@, width, px, py)
        == if tile_of(*grid, px, py) == tile_index {
        tile_pixel(*grid, tile@, px, py)
    } else {
        pixel_at(before, width, px, py)
    } by {
        lemma_pixel_position(px, py, width, height);
        lemma_pixel_of_tile(*grid, tile_index as int, px, py);
        assert(atlas@[py * width + px] == pixel_at(atlas@, width, px, py));
    }
}

/// The tile with number `index` lies inside the atlas.
pub(crate) proof fn lemma_tile_lies_in_atlas(grid: AtlasGrid, index: int)
    requires
        grid.wf(),
        0 <= index < grid.light_count,
    ensures
        ({
            let light_x = index % grid.light_width as int;
            let light_y = index / grid.light_width as int;
            &&& 0 <= light_x * grid.tile_width
            &&& light_x * grid.tile_width + grid.tile_width <= grid.atlas_width
            &&& 0 <= light_y * grid.tile_height
            &&& light_y * grid.tile_height + grid.tile_height <= grid.atlas_height
        }),
{
    let lw = grid.light_width as int;
    let light_x = index % lw;
    let light_y = index / lw;
    lemma_fundamental_div_mod(index, lw);
    lemma_mod_bound(index, lw);
    assert(0 <= light_x * grid.tile_width && light_x * grid.tile_width + grid.tile_width
        <= grid.tile_width * lw) by (nonlinear_arith)
        requires
            0 <= light_x < lw,
    ;
    let rows = grid.light_count as int / lw;
    lemma_fundamental_div_mod(grid.light_count as int, lw);
    assert(0 <= light_y < rows) by (nonlinear_arith)
        requires
            index == lw * light_y + light_x,
            0 <= light_x < lw,
            0 <= index < grid.light_count,
            grid.light_count == lw * rows,
    ;
    assert(grid.atlas_height == grid.tile_height * rows) by (nonlinear_arith)
        requires
            grid.atlas_height * lw == grid.tile_height * grid.light_count,
            grid.light_count == lw * rows,
            lw > 0,
    ;
    assert(0 <= light_y * grid.tile_height && light_y * grid.tile_height + grid.tile_height
        <= grid.tile_height * rows) by (nonlinear_arith)
        requires
            0 <= light_y < rows,
    ;
}

/// A pixel of the atlas belongs to the tile whose rectangle it lies in.
pub(crate) proof fn lemma_pixel_of_tile(grid: AtlasGrid, index: int, x: int, y: int)
    requires
        grid.wf(),
        0 <= index < grid.light_count,
        0 <= x < grid.atlas_width,
        0 <= y < grid.atlas_height,
    ensures
        ({
            let left = index % grid.light_width as int * grid.tile_width;
            let top = index / grid.light_width as int * grid.tile_height;
            let inside = left <= x < left + grid.tile_width && top <= y < top + grid.tile_height;
            &&& inside <==> tile_of(grid, x, y) == index
            &&& inside ==> x % grid.tile_width as int == x - left && y % grid.tile_height as int
                == y - top
        }),
{
    let lw = grid.light_width as int;
    let tw = grid.tile_width as int;
    let th = grid.tile_height as int;
    let light_x = index % lw;
    let light_y = index / lw;
    let left = light_x * tw;
    let top = light_y * th;
    lemma_fundamental_div_mod(index, lw);
    lemma_mod_bound(index, lw);
    assert(tw > 0) by (nonlinear_arith)
        requires
            grid.atlas_width == tw * lw,
            0 <= x < grid.atlas_width,
            tw >= 0,
    ;
    assert(th > 0) by (nonlinear_arith)
        requires
            grid.atlas_height * lw == th * grid.light_count,
            0 <= y < grid.atlas_height,
            lw > 0,
            th >= 0,
    ;
    let column = x / tw;
    let row = y / th;
    lemma_fundamental_div_mod(x, tw);
    lemma_mod_bound(x, tw);
    lemma_fundamental_div_mod(y, th);
    lemma_mod_bound(y, th);
    assert(0 <= column < lw) by (nonlinear_arith)
        requires
            x == tw * column + x % tw,
            0 <= x % tw < tw,
            0 <= x < tw * lw,
    ;
    assert(0 <= row) by (nonlinear_arith)
        requires
            y == th * row + y % th,
            0 <= y % th < th,
            0 <= y,
    ;
    if left <= x < left + tw {
        assert(light_x * tw + (x - left) == x);
        lemma_fundamental_div_mod_converse(x, tw, light_x, x - left);
    }
    if top <= y < top + th {
        lemma_fundamental_div_mod_converse(y, th, light_y, y - top);
    }
    assert(lw * light_y == light_y * lw) by (nonlinear_arith);
    if tile_of(grid, x, y) == index {
        lemma_fundamental_div_mod_converse(index, lw, row, column);
        assert(tw * column == column * tw) by (nonlinear_arith);
        assert(th * row == row * th) by (nonlinear_arith);
    }
}

/// Whether the first `n` tiles are in their places in an atlas.
pub open spec fn holds_tiles(
    grid: AtlasGrid,
    atlas: Seq<Vec3>,
    tiles: Seq<Seq<Vec3>>,
    n: int,
) -> bool {
    forall|x: int, y: int|
        0 <= x < grid.atlas_width && 0 <= y < grid.atlas_height && tile_of(grid, x, y) < n
            ==> #[trigger] pixel_at(atlas, grid.atlas_width as int, x, y) == tile_pixel(
            grid,
            tiles[tile_of(grid, x, y)],
            x,
            y,
        )
}

/// Putting the next tile in its place keeps the tiles before it in theirs.
pub proof fn lemma_blit_keeps_other_tiles(
    grid: AtlasGrid,
    before: Seq<Vec3>,
    after: Seq<Vec3>,
    tiles: Seq<Seq<Vec3>>,
    n: int,
)
    requires
        grid.wf(),
        0 <= n < grid.light_count,
        n < tiles.len(),
        holds_tiles(grid, before, tiles, n),
        is_blitted(grid, before, tiles[n], n, after),
    ensures
        holds_tiles(grid, after, tiles, n + 1),
{
    assert forall|x: int, y: int|
        0 <= x < grid.atlas_width && 0 <= y < grid.atlas_height && tile_of(grid, x, y) < n
            + 1 implies #[trigger] pixel_at(after, grid.atlas_width as int, x, y) == tile_pixel(
        grid,
        tiles[tile_of(grid, x, y)],
        x,
        y,
    ) by {
        assert(tile_of(grid, x, y) < n ==> pixel_at(before, grid.atlas_width as int, x, y)
            == tile_pixel(grid, tiles[tile_of(grid, x, y)], x, y));
    }
}

/// Every pixel of an atlas belongs to one of its tiles, so an atlas with all of
/// them in place has no pixel left that is not from a tile.
pub proof fn lemma_tiles_fill_the_atlas(grid: AtlasGrid, x: int, y: int)
    requires
        grid.wf(),
        0 <= x < grid.atlas_width,
        0 <= y < grid.atlas_height,
    ensures
        0 <= tile_of(grid, x, y) < grid.light_count,
{
    let lw = grid.light_width as int;
    let tw = grid.tile_width as int;
    let th = grid.tile_height as int;
    assert(tw > 0) by (nonlinear_arith)
        requires
            grid.atlas_width == tw * lw,
            0 <= x < grid.atlas_width,
            tw >= 0,
    ;
    assert(th > 0) by (nonlinear_arith)
        requires
            grid.atlas_height * lw == th * grid.light_count,
            0 <= y < grid.atlas_height,
            lw > 0,
            th >= 0,
    ;
    let column = x / tw;
    let row = y / th;
    lemma_fundamental_div_mod(x, tw);
    lemma_mod_bound(x, tw);
    lemma_fundamental_div_mod(y, th);
    lemma_mod_bound(y, th);
    let rows = grid.light_count as int / lw;
    lemma_fundamental_div_mod(grid.light_count as int, lw);
    assert(0 <= column < lw) by (nonlinear_arith)
        requires
            x == tw * column + x % tw,
            0 <= x % tw < tw,
            0 <= x < tw * lw,
    ;
    assert(grid.atlas_height == th * rows) by (nonlinear_arith)
        requires
            grid.atlas_height * lw == th * grid.light_count,
            grid.light_count == lw * rows,
            lw > 0,
    ;
    assert(0 <= row < rows) by (nonlinear_arith)
        requires
            y == th * row + y % th,
            0 <= y % th < th,
            0 <= y < th * rows,
    ;
    assert(0 <= row * lw + column < lw * rows) by (nonlinear_arith)
        requires
            0 <= row < rows,
            0 <= column < lw,
    ;
}

/// Colors are added and averaged channel by channel.  A lane adds to a pixel what stands
/// for that pixel in the lane's image, and the images of the lanes stand one behind the
/// other.
pub proof fn lemma_channels_stay_apart(
    sum: spec_fn(Scalar, Scalar) -> Scalar,
    mean: spec_fn(Scalar, u32) -> Scalar,
    before: Vec3,
    partials: Seq<Vec4>,
    start: int,
    pixels: int,
    pixel: int,
    lanes: int,
    sums: Seq<Vec3>,
    count: u32,
)
    requires
        0 <= lanes,
    ensures
        lane_sum(sum, before, partials, start, pixels, pixel, 0) == before,
        ({
            let partial = partials[start + lanes * pixels + pixel];
            let less = lane_sum(sum, before, partials, start, pixels, pixel, lanes);
            let more = lane_sum(sum, before, partials, start, pixels, pixel, lanes + 1);
            &&& more.x == sum(less.x, partial.x)
            &&& more.y == sum(less.y, partial.y)
            &&& more.z == sum(less.z, partial.z)
        }),
        averaged(mean, sums, count).len() == sums.len(),
        forall|i: int|
            0 <= i < sums.len() ==> {
                let shown = #[trigger] averaged(mean, sums, count)[i];
                &&& shown.x == mean(sums[i].x, count)
                &&& shown.y == mean(sums[i].y, count)
                &&& shown.z == mean(sums[i].z, count)
            },
        colors(partials).len() == partials.len(),
        forall|i: int|
            0 <= i < partials.len() ==> {
                let color = #[trigger] colors(partials)[i];
                &&& color.x == partials[i].x
                &&& color.y == partials[i].y
                &&& color.z == partials[i].z
            },
{
}

} // verus!
