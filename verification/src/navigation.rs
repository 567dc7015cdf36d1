//! Integer side of the navigation view: grid validation, the four-state
//! map palette drawn in Y-up row order, and the unit timing palette.
//!
//! Geometry in floating point (display coordinates, endpoint bounds) and the
//! recording stream itself stay with the application.

use vstd::prelude::*;

use vstd::arithmetic::div_mod::lemma_fundamental_div_mod_converse;

use crate::text::push_str;

verus! {

/// Longest recent pose trail the navigation view accepts.
pub const MAX_POSE_TRAIL_POINTS: usize = 64;

/// A navigation view failure, carried as text.
#[derive(Clone, Debug, PartialEq, Eq)]
pub struct RerunAdapterError {
    message: String,
}

impl View for RerunAdapterError {
    type V = Seq<char>;

    closed spec fn view(&self) -> Seq<char> {
        self.message@
    }
}

impl RerunAdapterError {
    pub fn new(message: &str) -> (e: Self)
        ensures
            e@ == message@,
    {
        let mut text = String::new();
        push_str(&mut text, message);
        RerunAdapterError { message: text }
    }

    /// The error's text.
    pub fn message(&self) -> (r: String)
        ensures
            r@ == self@,
    {
        let mut text = String::new();
        push_str(&mut text, self.message.as_str());
        text
    }
}

pub open spec fn dimensions_overflow_text() -> Seq<char> {
    "navigation image dimensions overflow"@
}

pub open spec fn grid_mismatch_text() -> Seq<char> {
    "navigation images must be nonempty and match width * height"@
}

pub open spec fn width_too_wide_text() -> Seq<char> {
    "navigation width exceeds u32"@
}

pub open spec fn height_too_tall_text() -> Seq<char> {
    "navigation height exceeds u32"@
}

pub open spec fn trail_too_long_text() -> Seq<char> {
    "recent pose trail exceeds its fixed maximum"@
}

/// Checks that both grids hold exactly `width * height` cells, and that
/// there is at least one; returns that cell count.
pub fn navigation_cells(width: usize, height: usize, occupancy_grid: &[i8], cost_map: &[u8]) -> (r: Result<usize, RerunAdapterError>)
    ensures
        width * height > usize::MAX ==> (r matches Err(e) && e@ == dimensions_overflow_text()),
        width * height <= usize::MAX && (width * height == 0 || occupancy_grid@.len() != width * height
            || cost_map@.len() != width * height) ==> (r matches Err(e) && e@ == grid_mismatch_text()),
        r is Ok <==> (0 < width * height <= usize::MAX && occupancy_grid@.len() == width * height
            && cost_map@.len() == width * height),
        r matches Ok(cells) ==> cells == width * height,
{
    let cells = match width.checked_mul(height) {
        Some(cells) => cells,
        None => {
            return Err(RerunAdapterError::new("navigation image dimensions overflow"));
        },
    };
    if cells == 0 || occupancy_grid.len() != cells || cost_map.len() != cells {
        return Err(RerunAdapterError::new("navigation images must be nonempty and match width * height"));
    }
    Ok(cells)
}

/// The map image's dimensions as `[width, height]`, each narrowed to `u32`.
pub fn navigation_dimensions(width: usize, height: usize) -> (r: Result<[u32; 2], RerunAdapterError>)
    ensures
        width > u32::MAX ==> (r matches Err(e) && e@ == width_too_wide_text()),
        width <= u32::MAX && height > u32::MAX ==> (r matches Err(e) && e@ == height_too_tall_text()),
        r is Ok <==> (width <= u32::MAX && height <= u32::MAX),
        r matches Ok(d) ==> d[0] == width && d[1] == height,
{
    if width > 0xffff_ffffusize {
        return Err(RerunAdapterError::new("navigation width exceeds u32"));
    }
    if height > 0xffff_ffffusize {
        return Err(RerunAdapterError::new("navigation height exceeds u32"));
    }
    Ok([width as u32, height as u32])
}

/// Rejects a recent pose trail longer than [`MAX_POSE_TRAIL_POINTS`].
pub fn check_pose_trail(trail_len: usize) -> (r: Result<(), RerunAdapterError>)
    ensures
        r is Ok <==> trail_len <= MAX_POSE_TRAIL_POINTS,
        r matches Err(e) ==> e@ == trail_too_long_text(),
{
    if trail_len > MAX_POSE_TRAIL_POINTS {
        return Err(RerunAdapterError::new("recent pose trail exceeds its fixed maximum"));
    }
    Ok(())
}

/// The colour of one map cell: unknown (negative occupancy) is grey,
/// occupied (50 and above) is near black, free with nonzero cost is amber,
/// free and costless is near white.
pub open spec fn cell_color(occupancy: i8, cost: u8) -> (u8, u8, u8) {
    if occupancy < 0 {
        (160, 166, 172)
    } else if occupancy >= 50 {
        (24, 28, 32)
    } else if cost != 0 {
        (245, 158, 11)
    } else {
        (245, 247, 249)
    }
}

pub open spec fn color_component(color: (u8, u8, u8), channel: int) -> u8 {
    if channel == 0 {
        color.0
    } else if channel == 1 {
        color.1
    } else {
        color.2
    }
}

/// The grid cell drawn at display pixel `p`: rows are drawn bottom row
/// first, so the image is Y-up while the grid is stored row-major from
/// row zero.
pub open spec fn source_cell(p: int, width: int, rows: int) -> int {
    (rows - 1 - p / width) * width + p % width
}

/// The RGB bytes of the navigation map image, three per cell.
pub open spec fn map_pixels(occupancy: Seq<i8>, cost: Seq<u8>, width: int) -> Seq<u8> {
    let rows = occupancy.len() as int / width;
    Seq::new(
        (3 * occupancy.len()) as nat,
        |i: int|
            {
                let cell = source_cell(i / 3, width, rows);
                color_component(cell_color(occupancy[cell], cost[cell]), i % 3)
            },
    )
}

fn cell_rgb(occupancy: i8, cost: u8) -> (c: (u8, u8, u8))
    ensures
        c == cell_color(occupancy, cost),
{
    if occupancy < 0 {
        (160, 166, 172)
    } else if occupancy >= 50 {
        (24, 28, 32)
    } else if cost != 0 {
        (245, 158, 11)
    } else {
        (245, 247, 249)
    }
}

proof fn lemma_pixel_position(p: int, width: int, r: int, c: int)
    requires
        0 < width,
        0 <= r,
        0 <= c < width,
        p == r * width + c,
    ensures
        p / width == r,
        p % width == c,
{
    lemma_fundamental_div_mod_converse(p, width, r, c);
}

/// Renders the occupancy and cost grids into RGB bytes, bottom row first.
pub fn navigation_pixels(occupancy_grid: &[i8], cost_map: &[u8], width: usize) -> (pixels: Vec<u8>)
    requires
        width > 0,
        occupancy_grid@.len() == cost_map@.len(),
        (occupancy_grid@.len() as int) % (width as int) == 0,
        3 * occupancy_grid@.len() <= usize::MAX,
    ensures
        pixels@ == map_pixels(occupancy_grid@, cost_map@, width as int),
{
    let n = occupancy_grid.len();
    let rows = n / width;
    let ghost w = width as int;
    proof {
        vstd::arithmetic::div_mod::lemma_fundamental_div_mod(n as int, w);
        assert(n as int == w * (rows as int));
        vstd::arithmetic::mul::lemma_mul_is_commutative(w, rows as int);
    }
    let ghost target = map_pixels(occupancy_grid@, cost_map@, w);
    let mut pixels: Vec<u8> = Vec::new();
    let mut r: usize = 0;
    while r < rows
        invariant
            0 < width,
            w == width as int,
            rows as int == n as int / w,
            n as int == (rows as int) * w,
            n == occupancy_grid@.len(),
            n == cost_map@.len(),
            3 * n <= usize::MAX,
            target == map_pixels(occupancy_grid@, cost_map@, w),
            target.len() == 3 * n,
            r <= rows,
            pixels@.len() == 3 * ((r as int) * w),
            pixels@ == target.subrange(0, 3 * ((r as int) * w)),
        decreases rows - r,
    {
        proof {
            vstd::arithmetic::mul::lemma_mul_inequality((rows - 1 - r) as int, rows as int - 1, w);
            vstd::arithmetic::mul::lemma_mul_is_distributive_sub_other_way(w, rows as int, 1);
        }
        let base = (rows - 1 - r) * width;
        let mut c: usize = 0;
        while c < width
            invariant
                0 < width,
                w == width as int,
                rows as int == n as int / w,
                n as int == (rows as int) * w,
                n == occupancy_grid@.len(),
                n == cost_map@.len(),
                3 * n <= usize::MAX,
                target == map_pixels(occupancy_grid@, cost_map@, w),
                target.len() == 3 * n,
                r < rows,
                base as int == (rows as int - 1 - r as int) * w,
                base as int + w <= n,
                c <= width,
                pixels@.len() == 3 * ((r as int) * w + c as int),
                pixels@ == target.subrange(0, 3 * ((r as int) * w + c as int)),
            decreases width - c,
        {
            let cell = base + c;
            let color = cell_rgb(occupancy_grid[cell], cost_map[cell]);
            let ghost p = (r as int) * w + c as int;
            proof {
                lemma_pixel_position(p, w, r as int, c as int);
                vstd::arithmetic::mul::lemma_mul_inequality(r as int + 1, rows as int, w);
                vstd::arithmetic::mul::lemma_mul_is_distributive_add_other_way(w, r as int, 1);
                assert(p < n);
                assert(source_cell(p, w, rows as int) == cell as int);
                assert((3 * p) / 3 == p && (3 * p) % 3 == 0);
                assert((3 * p + 1) / 3 == p && (3 * p + 1) % 3 == 1);
                assert((3 * p + 2) / 3 == p && (3 * p + 2) % 3 == 2);
            }
            pixels.push(color.0);
            pixels.push(color.1);
            pixels.push(color.2);
            proof {
                assert(pixels@ =~= target.subrange(0, 3 * (p + 1)));
            }
            c = c + 1;
        }
        proof {
            vstd::arithmetic::mul::lemma_mul_is_distributive_add_other_way(w, r as int, 1);
        }
        r = r + 1;
    }
    proof {
        assert(pixels@ =~= target);
    }
    pixels
}

/// The series colours of the unit timing plots, in ordinal order.
pub open spec fn timing_palette(index: int) -> (u8, u8, u8) {
    if index == 0 {
        (21, 101, 192)
    } else if index == 1 {
        (0, 137, 123)
    } else if index == 2 {
        (239, 108, 0)
    } else if index == 3 {
        (123, 31, 162)
    } else if index == 4 {
        (198, 40, 40)
    } else {
        (84, 110, 122)
    }
}

/// The timing series colour of the unit at `ordinal` in execution order;
/// the palette of six repeats.
pub fn timing_color(ordinal: usize) -> (c: (u8, u8, u8))
    ensures
        c == timing_palette(ordinal as int % 6),
{
    let index = ordinal % 6;
    if index == 0 {
        (21, 101, 192)
    } else if index == 1 {
        (0, 137, 123)
    } else if index == 2 {
        (239, 108, 0)
    } else if index == 3 {
        (123, 31, 162)
    } else if index == 4 {
        (198, 40, 40)
    } else {
        (84, 110, 122)
    }
}

} // verus!
