//! The column projector and the per-column rendering pipeline.
//!
//! A hit's perpendicular distance turns into a vertical pixel span:
//! `line_height = screen_height / perp_distance` (taller for closer
//! walls), centered on the horizon and clamped to the screen.  The color
//! is the hit cell's palette color, shaded darker for hits through a
//! horizontal grid line.  One column is a pure function of the grid, the
//! pose and the column index, so a frame is just the columns in
//! increasing order; an outside pixel sink does the drawing.

use vstd::prelude::*;

use crate::agent::AgentState;
use crate::gfx::{wall_color, wall_color_spec, Rgb};
use crate::grid::Grid;
use crate::raycast::{cast, cast_post, spec_ray_dir_x, spec_ray_dir_y, HitResult};

verus! {

/// Largest accepted screen width or height.
pub const MAX_SCREEN: i64 = 32768;

/// One wall slice, ready for the pixel sink: fill column `x` from
/// `y_start` to `y_end` with `color`.
#[derive(Clone, Copy, Debug, PartialEq, Eq, Structural)]
pub struct ColumnSpan {
    pub y_start: i64,
    pub y_end: i64,
    pub color: Rgb,
}

/// A pixel row clamped to the screen.
pub open spec fn clamp_row(v: int, h: int) -> int {
    if v < 0 {
        0
    } else if v > h - 1 {
        h - 1
    } else {
        v
    }
}

/// Height in pixels of the wall slice for a hit at distance `perp`:
/// `h / perp` in cell units, with the distance clamped to the smallest
/// positive fixed-point value so a hit inside the viewer's own cell fills
/// the screen instead of dividing by zero.
pub open spec fn spec_line_height(perp: int, h: int) -> int {
    h * 65536 / (if perp < 1 {
        1
    } else {
        perp
    })
}

/// First and last pixel row of the wall slice: the line height centered
/// on the horizon, clamped to the screen.
pub open spec fn spec_project(perp: int, h: int) -> (int, int) {
    let lh = spec_line_height(perp, h);
    (clamp_row(-(lh / 2) + h / 2, h), clamp_row(lh / 2 + h / 2, h))
}

/// Computes [`spec_project`]: the vertical pixel span of a wall slice.
pub fn project(perp: i64, h: i64) -> (span: (i64, i64))
    requires
        1 <= h <= MAX_SCREEN,
    ensures
        span.0 == spec_project(perp as int, h as int).0,
        span.1 == spec_project(perp as int, h as int).1,
        0 <= span.0 <= span.1 < h,
{
    let p: i64 = if perp < 1 {
        1
    } else {
        perp
    };
    let num: i64 = h * 65536;
    let lh: i64 = ((num as u64) / (p as u64)) as i64;
    proof {
        vstd::arithmetic::div_mod::lemma_div_is_ordered(num as int, 2147483648, p as int);
        vstd::arithmetic::div_mod::lemma_div_pos_is_pos(num as int, p as int);
        vstd::arithmetic::div_mod::lemma_div_pos_is_pos(lh as int, 2);
        vstd::arithmetic::div_mod::lemma_div_is_ordered(0, lh as int, 2);
    }
    let half: i64 = lh / 2;
    proof {
        assert(half as int == lh as int / 2) by {
            assert(lh >= 0);
        }
    }
    let mut start: i64 = -half + h / 2;
    let mut end: i64 = half + h / 2;
    if start < 0 {
        start = 0;
    }
    if end > h - 1 {
        end = h - 1;
    }
    (start, end)
}

/// Whether any pixel of the vertical line `x`, `y1..y2` is on a `w` by
/// `h` screen (the endpoints may come in either order).
pub open spec fn spec_clip_visible(x: int, y1: int, y2: int, w: int, h: int) -> bool {
    let lo = if y2 < y1 {
        y2
    } else {
        y1
    };
    let hi = if y2 < y1 {
        y1
    } else {
        y2
    };
    !(hi < 0 || lo >= h || x < 0 || x >= w)
}

/// First on-screen row of the line, once visible.
pub open spec fn spec_clip_lo(y1: int, y2: int) -> int {
    let lo = if y2 < y1 {
        y2
    } else {
        y1
    };
    if lo < 0 {
        0
    } else {
        lo
    }
}

/// Last on-screen row of the line, once visible.
pub open spec fn spec_clip_hi(y1: int, y2: int, h: int) -> int {
    let hi = if y2 < y1 {
        y1
    } else {
        y2
    };
    if hi > h - 1 {
        h - 1
    } else {
        hi
    }
}

/// Orders and clips a vertical line to the screen: `None` when no pixel
/// of it is on screen, otherwise the on-screen endpoints.
pub fn clip_span(x: i64, y1: i64, y2: i64, w: i64, h: i64) -> (r: Option<(i64, i64)>)
    requires
        1 <= w,
        1 <= h,
    ensures
        r is Some <==> spec_clip_visible(x as int, y1 as int, y2 as int, w as int, h as int),
        r matches Some(s) ==> s.0 == spec_clip_lo(y1 as int, y2 as int) && s.1 == spec_clip_hi(
            y1 as int,
            y2 as int,
            h as int,
        ) && 0 <= s.0 && s.0 <= s.1 < h,
{
    let (lo, hi): (i64, i64) = if y2 < y1 {
        (y2, y1)
    } else {
        (y1, y2)
    };
    if hi < 0 || lo >= h || x < 0 || x >= w {
        return None;
    }
    let lo2: i64 = if lo < 0 {
        0
    } else {
        lo
    };
    let hi2: i64 = if hi > h - 1 {
        h - 1
    } else {
        hi
    };
    Some((lo2, hi2))
}

/// Screen offset of column `x` on a `w`-column screen: sweeps fixed-point
/// `-1` at the left edge toward `1` at the right.
pub open spec fn spec_cam_x(x: int, w: int) -> int {
    2 * x * 65536 / w - 65536
}

/// The span `span` is what the hit `hit` projects to at screen height
/// `h` on the grid `g`: the pixel rows from [`spec_project`] and the
/// shaded palette color of the hit cell.
pub open spec fn column_span_of(
    g: Grid,
    a: AgentState,
    camx: int,
    h: int,
    hit: HitResult,
    span: ColumnSpan,
) -> bool {
    &&& cast_post(g, a, camx, Some(hit))
    &&& span.y_start == spec_project(hit.perp as int, h).0
    &&& span.y_end == spec_project(hit.perp as int, h).1
    &&& span.color == wall_color_spec(
        g.spec_value_at(hit.cell_x as int, hit.cell_y as int),
        hit.side,
    )
}

/// Everything [`render_column`] promises: a span is produced exactly when
/// the column's ray is not degenerate, and it is the projection of a hit
/// that satisfies the ray caster's contract for this column's ray.
pub open spec fn column_post(
    g: Grid,
    a: AgentState,
    x: int,
    w: int,
    h: int,
    r: Option<ColumnSpan>,
) -> bool {
    &&& (r is Some <==> !(spec_ray_dir_x(a, spec_cam_x(x, w)) == 0 && spec_ray_dir_y(
        a,
        spec_cam_x(x, w),
    ) == 0))
    &&& (r is Some ==> exists|hit: HitResult, sp: ColumnSpan|
        r == Some(sp) && #[trigger] column_span_of(g, a, spec_cam_x(x, w), h, hit, sp))
}

/// Screen offset of column `x` of `w`: computes [`spec_cam_x`], which
/// stays within fixed-point `-1..1`.
pub fn cam_x_for(x: i64, w: i64) -> (camx: i64)
    requires
        0 <= x < w,
        w <= MAX_SCREEN,
    ensures
        camx == spec_cam_x(x as int, w as int),
        -65536 <= camx < 65536,
{
    let num: i64 = 2 * x * 65536;
    let q: i64 = ((num as u64) / (w as u64)) as i64;
    proof {
        assert(2 * (w as int) * 65536 - 1 == (2 * 65536 - 1) * (w as int) + ((w as int) - 1))
            by (nonlinear_arith);
        vstd::arithmetic::div_mod::lemma_fundamental_div_mod_converse_div(
            2 * (w as int) * 65536 - 1,
            w as int,
            2 * 65536 - 1,
            (w as int) - 1,
        );
        vstd::arithmetic::div_mod::lemma_div_is_ordered(
            num as int,
            2 * (w as int) * 65536 - 1,
            w as int,
        );
        vstd::arithmetic::div_mod::lemma_div_pos_is_pos(num as int, w as int);
    }
    q - 65536
}

/// Renders one screen column: casts the column's ray and projects the hit
/// into a colored vertical span.
pub fn render_column(g: &Grid, a: &AgentState, x: i64, w: i64, h: i64) -> (r: Option<ColumnSpan>)
    requires
        g.wf(),
        a.wf(),
        g.in_bounds(
            crate::fixed::cell_of(a.pos.x as int),
            crate::fixed::cell_of(a.pos.y as int),
        ),
        0 <= x < w,
        w <= MAX_SCREEN,
        1 <= h <= MAX_SCREEN,
    ensures
        column_post(*g, *a, x as int, w as int, h as int, r),
{
    let camx: i64 = cam_x_for(x, w);
    let hit: HitResult = match cast(g, a, camx) {
        None => {
            proof {
                assert(column_post(
                    *g,
                    *a,
                    x as int,
                    w as int,
                    h as int,
                    Option::<ColumnSpan>::None,
                ));
            }
            return None;
        },
        Some(hit) => hit,
    };
    let (y_start, y_end): (i64, i64) = project(hit.perp, h);
    let value: u8 = g.value_at(hit.cell_x, hit.cell_y);
    let color: Rgb = wall_color(value, hit.side);
    let span = ColumnSpan { y_start, y_end, color };
    proof {
        assert(column_span_of(*g, *a, spec_cam_x(x as int, w as int), h as int, hit, span));
        assert(column_post(*g, *a, x as int, w as int, h as int, Some(span)));
    }
    Some(span)
}

/// Renders a whole frame: every column from left to right, each the pure
/// function of grid, pose and column index that [`render_column`] is.
/// Entry `x` is `None` only for a degenerate column ray.
pub fn render_frame(g: &Grid, a: &AgentState, w: i64, h: i64) -> (frame: Vec<Option<ColumnSpan>>)
    requires
        g.wf(),
        a.wf(),
        g.in_bounds(
            crate::fixed::cell_of(a.pos.x as int),
            crate::fixed::cell_of(a.pos.y as int),
        ),
        1 <= w <= MAX_SCREEN,
        1 <= h <= MAX_SCREEN,
    ensures
        frame@.len() == w,
        forall|x: int|
            0 <= x < w ==> column_post(*g, *a, x, w as int, h as int, #[trigger] frame@[x]),
{
    let mut frame: Vec<Option<ColumnSpan>> = Vec::new();
    let mut x: i64 = 0;
    while x < w
        invariant
            g.wf(),
            a.wf(),
            g.in_bounds(
                crate::fixed::cell_of(a.pos.x as int),
                crate::fixed::cell_of(a.pos.y as int),
            ),
            1 <= w <= MAX_SCREEN,
            1 <= h <= MAX_SCREEN,
            0 <= x <= w,
            frame@.len() == x,
            forall|i: int|
                0 <= i < x ==> column_post(*g, *a, i, w as int, h as int, #[trigger] frame@[i]),
        decreases w - x,
    {
        let span = render_column(g, a, x, w, h);
        frame.push(span);
        x = x + 1;
    }
    frame
}

} // verus!
