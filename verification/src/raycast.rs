//! The ray caster: grid-DDA wall intersection, one ray per screen column.
//!
//! A ray starts at the player's position with direction
//! `dir + plane * camx`, where `camx` sweeps `-1..1` (fixed point) across
//! the screen.  The DDA walks the grid one cell boundary at a time along
//! whichever axis has the nearer next crossing, until it meets a solid
//! cell.  The reported distance is not the ray's own length but the
//! distance measured along the crossing axis — `side_dist - delta_dist` of
//! the axis stepped last — which is what keeps walls straight instead of
//! fisheye-bent; [`lemma_perp_no_fisheye`] makes that exact.
//!
//! The walk always terminates: the border of a well-formed grid is solid,
//! and out-of-bounds cells count as solid too, so the loop is bounded by
//! `width + height` steps.

use vstd::prelude::*;

use vstd::math::abs;

use crate::agent::AgentState;
use crate::fixed::{cell_index, cell_of, fp_mul, lemma_comp_bound, lemma_mul_bounds,
    lemma_tdiv_bound, mul_fp, FP_ONE};
use crate::grid::Grid;

verus! {

/// What a cast ray reports: the solid cell it stopped in, which grid-line
/// orientation was crossed to enter it (`side` 0 for a vertical line,
/// 1 for a horizontal one), and the perpendicular distance to that
/// crossing in fixed point.
#[derive(Clone, Copy, Debug, PartialEq, Eq, Structural)]
pub struct HitResult {
    pub cell_x: i64,
    pub cell_y: i64,
    pub side: u8,
    pub perp: i64,
}

/// X component of the ray through screen offset `camx`:
/// `dir.x + plane.x * camx`.
pub open spec fn spec_ray_dir_x(a: AgentState, camx: int) -> int {
    a.dir.x + fp_mul(a.plane.x as int, camx)
}

/// Y component of the ray through screen offset `camx`.
pub open spec fn spec_ray_dir_y(a: AgentState, camx: int) -> int {
    a.dir.y + fp_mul(a.plane.y as int, camx)
}

/// Which way the DDA steps along an axis whose ray component is `rd`.
pub open spec fn step_for(rd: int) -> int {
    if rd < 0 {
        -1
    } else {
        1
    }
}

/// Distance, measured along the stepped axis, between two consecutive
/// grid-line crossings of a ray with axis component `rd`: `1 / |rd|` in
/// fixed point.
pub open spec fn delta_for(rd: int) -> int
    recommends
        rd != 0,
{
    4294967296int / (abs(rd) as int)
}

/// Offset, in fixed-point cell units, from the position `pos` to the first
/// grid line the ray crosses on this axis: the distance to the near or far
/// edge of the current cell, by the sign of `rd`.
pub open spec fn frac_for(pos: int, rd: int) -> int {
    if rd < 0 {
        pos - cell_of(pos) * 65536
    } else {
        (cell_of(pos) + 1) * 65536 - pos
    }
}

/// Axis distance from `pos` to the first grid-line crossing: the cell
/// offset scaled by the per-cell crossing distance.
pub open spec fn init_side_for(pos: int, rd: int) -> int {
    frac_for(pos, rd) * delta_for(rd) / 65536
}

/// How many cells of headroom the DDA has left on one axis before it walks
/// off the map (where every cell is solid and it must stop).
pub open spec fn axis_meas(dim: int, cellpos: int, step: int) -> int {
    if step == 1 {
        dim - cellpos
    } else {
        cellpos + 1
    }
}

/// The step counts `(kx, ky)` witness the hit `h`: the hit cell is `kx`
/// x-steps and `ky` y-steps from the player's cell, an axis with a zero
/// ray component is never stepped, the walk is bounded by the grid
/// perimeter, and the reported distance is the side distance of the axis
/// stepped last: its initial offset plus one crossing per full cell
/// traversed.
pub open spec fn dda_witness(
    g: Grid,
    a: AgentState,
    camx: int,
    h: HitResult,
    kx: int,
    ky: int,
) -> bool {
    let rdx = spec_ray_dir_x(a, camx);
    let rdy = spec_ray_dir_y(a, camx);
    &&& 0 <= kx
    &&& 0 <= ky
    &&& 1 <= kx + ky <= g.width + g.height
    &&& (rdx == 0 ==> kx == 0)
    &&& (rdy == 0 ==> ky == 0)
    &&& h.cell_x == cell_of(a.pos.x as int) + kx * step_for(rdx)
    &&& h.cell_y == cell_of(a.pos.y as int) + ky * step_for(rdy)
    &&& (h.side == 0 ==> kx >= 1 && rdx != 0 && h.perp == init_side_for(a.pos.x as int, rdx) + (
        kx - 1) * delta_for(rdx))
    &&& (h.side == 1 ==> ky >= 1 && rdy != 0 && h.perp == init_side_for(a.pos.y as int, rdy) + (
        ky - 1) * delta_for(rdy))
    &&& (h.side == 0 && rdy != 0 ==> h.perp < init_side_for(a.pos.y as int, rdy) + ky * delta_for(
        rdy))
    &&& (h.side == 1 && rdx != 0 ==> h.perp <= init_side_for(a.pos.x as int, rdx) + kx
        * delta_for(rdx))
}

/// A snapshot of the DDA walk: the cell the ray is in and the distance to
/// the next grid-line crossing on each axis.  The side distance of an
/// axis whose ray component is zero is never read.
pub struct DdaState {
    pub cell_x: int,
    pub cell_y: int,
    pub side_x: int,
    pub side_y: int,
}

/// Where the walk for the ray through `camx` begins: the player's cell,
/// each axis at its first grid-line crossing.
pub open spec fn dda_start(a: AgentState, camx: int) -> DdaState {
    DdaState {
        cell_x: cell_of(a.pos.x as int),
        cell_y: cell_of(a.pos.y as int),
        side_x: init_side_for(a.pos.x as int, spec_ray_dir_x(a, camx)),
        side_y: init_side_for(a.pos.y as int, spec_ray_dir_y(a, camx)),
    }
}

/// One DDA step: advance the chosen axis (`true` for x) to its next
/// grid-line crossing and move one cell along it.
pub open spec fn dda_step(a: AgentState, camx: int, st: DdaState, use_x: bool) -> DdaState {
    if use_x {
        DdaState {
            cell_x: st.cell_x + step_for(spec_ray_dir_x(a, camx)),
            cell_y: st.cell_y,
            side_x: st.side_x + delta_for(spec_ray_dir_x(a, camx)),
            side_y: st.side_y,
        }
    } else {
        DdaState {
            cell_x: st.cell_x,
            cell_y: st.cell_y + step_for(spec_ray_dir_y(a, camx)),
            side_x: st.side_x,
            side_y: st.side_y + delta_for(spec_ray_dir_y(a, camx)),
        }
    }
}

/// The state after performing the steps of `trace` in order (`true` for
/// an x step), starting from [`dda_start`].
pub open spec fn dda_run(a: AgentState, camx: int, trace: Seq<bool>) -> DdaState
    decreases trace.len(),
{
    if trace.len() == 0 {
        dda_start(a, camx)
    } else {
        dda_step(a, camx, dda_run(a, camx, trace.drop_last()), trace.last())
    }
}

/// Step `i` of `trace` follows the DDA rule: step x exactly when that
/// axis is live and has the nearer next crossing (an axis with a zero ray
/// component is never chosen).
pub open spec fn dda_choice_at(a: AgentState, camx: int, trace: Seq<bool>, i: int) -> bool {
    trace[i] == (spec_ray_dir_x(a, camx) != 0 && (spec_ray_dir_y(a, camx) == 0 || dda_run(
        a,
        camx,
        trace.take(i),
    ).side_x < dda_run(a, camx, trace.take(i)).side_y))
}

/// The cell entered by step `i` of `trace` is not solid, so the walk went
/// on through it.
pub open spec fn dda_clear_at(g: Grid, a: AgentState, camx: int, trace: Seq<bool>, i: int) -> bool {
    !g.spec_solid(
        dda_run(a, camx, trace.take(i + 1)).cell_x,
        dda_run(a, camx, trace.take(i + 1)).cell_y,
    )
}

/// The step sequence `trace` is the DDA walk for the ray through `camx`,
/// and the hit `h` is its outcome: every step follows the
/// nearest-crossing rule, every cell entered before the last is empty,
/// the last cell is solid, and `h` reports that cell, the axis of the
/// last step, and that axis's side distance before the last crossing.
/// Together with the choice rule this determines the hit: it is the first
/// solid cell the walk can reach.
pub open spec fn dda_trace_gives(
    g: Grid,
    a: AgentState,
    camx: int,
    trace: Seq<bool>,
    h: HitResult,
) -> bool {
    let fin = dda_run(a, camx, trace);
    &&& trace.len() >= 1
    &&& forall|i: int| 0 <= i < trace.len() ==> #[trigger] dda_choice_at(a, camx, trace, i)
    &&& forall|i: int| 0 <= i < trace.len() - 1 ==> #[trigger] dda_clear_at(g, a, camx, trace, i)
    &&& g.spec_solid(fin.cell_x, fin.cell_y)
    &&& h.cell_x == fin.cell_x
    &&& h.cell_y == fin.cell_y
    &&& (trace.last() ==> h.side == 0 && h.perp == fin.side_x - delta_for(
        spec_ray_dir_x(a, camx),
    ))
    &&& (!trace.last() ==> h.side == 1 && h.perp == fin.side_y - delta_for(
        spec_ray_dir_y(a, camx),
    ))
}

/// Everything [`cast`] promises: a hit is returned exactly when the ray
/// direction is nonzero; the hit cell is solid, the side flag names a
/// stepped axis, the distance is nonnegative, some pair of step counts
/// witnesses the walk, and some rule-following trace that crosses only
/// empty cells produces exactly this hit.
pub open spec fn cast_post(g: Grid, a: AgentState, camx: int, r: Option<HitResult>) -> bool {
    let rdx = spec_ray_dir_x(a, camx);
    let rdy = spec_ray_dir_y(a, camx);
    &&& (r is Some <==> !(rdx == 0 && rdy == 0))
    &&& match r {
        Some(h) => {
            &&& g.spec_solid(h.cell_x as int, h.cell_y as int)
            &&& (h.side == 0 || h.side == 1)
            &&& h.perp >= 0
        },
        None => true,
    }
    &&& (r is Some ==> exists|h: HitResult, kx: int, ky: int|
        r == Some(h) && #[trigger] dda_witness(g, a, camx, h, kx, ky))
    &&& (r is Some ==> exists|h: HitResult, trace: Seq<bool>|
        r == Some(h) && #[trigger] dda_trace_gives(g, a, camx, trace, h))
}

/// Appending one rule-following step to a rule-following trace keeps the
/// whole trace rule-following, keeps every earlier entered cell clear,
/// and advances the walk's state by exactly that step.
proof fn lemma_trace_extend(g: Grid, a: AgentState, camx: int, tr: Seq<bool>, b: bool)
    requires
        forall|i: int| 0 <= i < tr.len() ==> #[trigger] dda_choice_at(a, camx, tr, i),
        b == (spec_ray_dir_x(a, camx) != 0 && (spec_ray_dir_y(a, camx) == 0 || dda_run(
            a,
            camx,
            tr,
        ).side_x < dda_run(a, camx, tr).side_y)),
        forall|i: int| 0 <= i < tr.len() - 1 ==> #[trigger] dda_clear_at(g, a, camx, tr, i),
        tr.len() >= 1 ==> dda_clear_at(g, a, camx, tr, tr.len() - 1),
    ensures
        dda_run(a, camx, tr.push(b)) == dda_step(a, camx, dda_run(a, camx, tr), b),
        forall|i: int|
            0 <= i < tr.push(b).len() ==> #[trigger] dda_choice_at(a, camx, tr.push(b), i),
        forall|i: int|
            0 <= i < tr.push(b).len() - 1 ==> #[trigger] dda_clear_at(g, a, camx, tr.push(b), i),
        tr.push(b).take(tr.len() + 1 as int) == tr.push(b),
{
    let tr2 = tr.push(b);
    assert(tr2.drop_last() =~= tr);
    assert(tr2.take(tr.len() + 1 as int) =~= tr2);
    assert(tr2.take(tr.len() as int) =~= tr);
    assert(dda_run(a, camx, tr2) == dda_step(a, camx, dda_run(a, camx, tr), b));
    assert forall|i: int| 0 <= i < tr2.len() implies #[trigger] dda_choice_at(
        a,
        camx,
        tr2,
        i,
    ) by {
        if i < tr.len() {
            assert(dda_choice_at(a, camx, tr, i));
            assert(tr2.take(i) =~= tr.take(i));
            assert(tr2[i] == tr[i]);
        } else {
            assert(i == tr.len());
            assert(tr2.take(i) =~= tr);
            assert(tr2[i] == b);
        }
    }
    assert forall|i: int| 0 <= i < tr2.len() - 1 implies #[trigger] dda_clear_at(
        g,
        a,
        camx,
        tr2,
        i,
    ) by {
        assert(tr2.take(i + 1) =~= tr.take(i + 1));
        if i < tr.len() - 1 {
            assert(dda_clear_at(g, a, camx, tr, i));
        } else {
            assert(i == tr.len() - 1);
            assert(tr.take(i + 1) =~= tr);
            assert(dda_clear_at(g, a, camx, tr, tr.len() - 1));
        }
    }
}

/// Casts the ray for screen offset `camx` from the player's position and
/// walks the grid until a solid cell stops it.
///
/// Returns `None` only for the degenerate ray whose direction is exactly
/// zero on both axes, which no pose with a nonzero view direction and a
/// narrower-than-straight-angle field of view produces.
#[verifier::loop_isolation(false)]
#[verifier::rlimit(100)]
pub fn cast(g: &Grid, a: &AgentState, camx: i64) -> (r: Option<HitResult>)
    requires
        g.wf(),
        a.wf(),
        -FP_ONE <= camx <= FP_ONE,
        g.in_bounds(cell_of(a.pos.x as int), cell_of(a.pos.y as int)),
    ensures
        cast_post(*g, *a, camx as int, r),
{
    proof {
        broadcast use vstd::arithmetic::mul::lemma_mul_is_commutative;

        lemma_comp_bound(a.dir.x as int, a.dir.y as int, 262144);
        lemma_comp_bound(a.plane.x as int, a.plane.y as int, 262144);
        lemma_mul_bounds(a.plane.x as int, camx as int, 262144, 65536);
        lemma_mul_bounds(a.plane.y as int, camx as int, 262144, 65536);
        lemma_tdiv_bound(a.plane.x * camx, 65536, 17179869184);
        lemma_tdiv_bound(a.plane.y * camx, 65536, 17179869184);
    }
    let rdx: i64 = a.dir.x + mul_fp(a.plane.x, camx);
    let rdy: i64 = a.dir.y + mul_fp(a.plane.y, camx);
    if rdx == 0 && rdy == 0 {
        return None;
    }
    let mx0: i64 = cell_index(a.pos.x);
    let my0: i64 = cell_index(a.pos.y);
    proof {
        vstd::arithmetic::div_mod::lemma_fundamental_div_mod(a.pos.x as int, 65536);
        vstd::arithmetic::div_mod::lemma_mod_bound(a.pos.x as int, 65536);
        vstd::arithmetic::div_mod::lemma_fundamental_div_mod(a.pos.y as int, 65536);
        vstd::arithmetic::div_mod::lemma_mod_bound(a.pos.y as int, 65536);
    }
    let have_x: bool = rdx != 0;
    let have_y: bool = rdy != 0;
    let mut step_x: i64 = 1;
    let mut delta_x: i64 = 0;
    let mut sdx: i64 = 0;
    if rdx != 0 {
        let rdxa: i64 = if rdx < 0 {
            -rdx
        } else {
            rdx
        };
        let dq: u64 = 4294967296u64 / (rdxa as u64);
        proof {
            vstd::arithmetic::div_mod::lemma_div_is_ordered_by_denominator(
                4294967296,
                1,
                rdxa as int,
            );
            vstd::arithmetic::div_mod::lemma_div_basics(rdxa as int);
            vstd::arithmetic::div_mod::lemma_div_pos_is_pos(4294967296, rdxa as int);
        }
        delta_x = dq as i64;
        step_x = if rdx < 0 {
            -1
        } else {
            1
        };
        let frac: i64 = if rdx < 0 {
            a.pos.x - mx0 * FP_ONE
        } else {
            (mx0 + 1) * FP_ONE - a.pos.x
        };
        proof {
            vstd::arithmetic::mul::lemma_mul_upper_bound(frac as int, 65536, delta_x as int,
                4294967296);
            vstd::arithmetic::mul::lemma_mul_nonnegative(frac as int, delta_x as int);
            vstd::arithmetic::div_mod::lemma_div_is_ordered(
                frac * delta_x,
                0x1_0000_0000_0000,
                65536,
            );
            vstd::arithmetic::div_mod::lemma_div_pos_is_pos(frac * delta_x, 65536);
        }
        sdx = (((frac as u64) * (dq)) / 65536) as i64;
    }
    let mut step_y: i64 = 1;
    let mut delta_y: i64 = 0;
    let mut sdy: i64 = 0;
    if rdy != 0 {
        let rdya: i64 = if rdy < 0 {
            -rdy
        } else {
            rdy
        };
        let dq: u64 = 4294967296u64 / (rdya as u64);
        proof {
            vstd::arithmetic::div_mod::lemma_div_is_ordered_by_denominator(
                4294967296,
                1,
                rdya as int,
            );
            vstd::arithmetic::div_mod::lemma_div_basics(rdya as int);
            vstd::arithmetic::div_mod::lemma_div_pos_is_pos(4294967296, rdya as int);
        }
        delta_y = dq as i64;
        step_y = if rdy < 0 {
            -1
        } else {
            1
        };
        let frac: i64 = if rdy < 0 {
            a.pos.y - my0 * FP_ONE
        } else {
            (my0 + 1) * FP_ONE - a.pos.y
        };
        proof {
            vstd::arithmetic::mul::lemma_mul_upper_bound(frac as int, 65536, delta_y as int,
                4294967296);
            vstd::arithmetic::mul::lemma_mul_nonnegative(frac as int, delta_y as int);
            vstd::arithmetic::div_mod::lemma_div_is_ordered(
                frac * delta_y,
                0x1_0000_0000_0000,
                65536,
            );
            vstd::arithmetic::div_mod::lemma_div_pos_is_pos(frac * delta_y, 65536);
        }
        sdy = (((frac as u64) * (dq)) / 65536) as i64;
    }
    let mut mx: i64 = mx0;
    let mut my: i64 = my0;
    let mut side: u8 = 0;
    let mut hit: bool = false;
    let ghost mut kx: int = 0;
    let ghost mut ky: int = 0;
    let ghost m0: int = axis_meas(g.width as int, mx0 as int, step_x as int) + axis_meas(
        g.height as int,
        my0 as int,
        step_y as int,
    );
    let ghost mut trace: Seq<bool> = Seq::empty();
    proof {
        assert(m0 <= g.width + g.height);
    }
    while !hit
        invariant
            0 <= kx,
            0 <= ky,
            !have_x ==> kx == 0,
            !have_y ==> ky == 0,
            mx as int == cell_of(a.pos.x as int) + kx * (step_x as int),
            my as int == cell_of(a.pos.y as int) + ky * (step_y as int),
            -1 <= mx <= g.width,
            -1 <= my <= g.height,
            have_x ==> sdx as int == init_side_for(a.pos.x as int, rdx as int) + kx * (
            delta_x as int),
            have_x ==> 0 <= sdx <= (kx + 1) * 4294967296,
            have_y ==> sdy as int == init_side_for(a.pos.y as int, rdy as int) + ky * (
            delta_y as int),
            have_y ==> 0 <= sdy <= (ky + 1) * 4294967296,
            have_x && kx >= 1 ==> sdx - delta_x >= 0,
            have_y && ky >= 1 ==> sdy - delta_y >= 0,
            axis_meas(g.width as int, mx as int, step_x as int) + axis_meas(
                g.height as int,
                my as int,
                step_y as int,
            ) + kx + ky == m0,
            0 <= axis_meas(g.width as int, mx as int, step_x as int),
            0 <= axis_meas(g.height as int, my as int, step_y as int),
            !hit ==> g.in_bounds(mx as int, my as int),
            hit ==> g.spec_solid(mx as int, my as int),
            hit ==> kx + ky >= 1,
            side == 0 || side == 1,
            hit && side == 0 ==> have_x && kx >= 1,
            hit && side == 1 ==> have_y && ky >= 1,
            hit && side == 0 && have_y ==> sdx - delta_x < sdy,
            hit && side == 1 && have_x ==> sdy - delta_y <= sdx,
            trace.len() == kx + ky,
            dda_run(*a, camx as int, trace).cell_x == mx as int,
            dda_run(*a, camx as int, trace).cell_y == my as int,
            have_x ==> dda_run(*a, camx as int, trace).side_x == sdx as int,
            have_y ==> dda_run(*a, camx as int, trace).side_y == sdy as int,
            forall|i: int|
                0 <= i < trace.len() ==> #[trigger] dda_choice_at(*a, camx as int, trace, i),
            forall|i: int|
                0 <= i < trace.len() - 1 ==> #[trigger] dda_clear_at(*g, *a, camx as int, trace, i),
            !hit && trace.len() >= 1 ==> dda_clear_at(
                *g,
                *a,
                camx as int,
                trace,
                trace.len() - 1,
            ),
            trace.len() >= 1 ==> ((side == 0) <==> trace.last()),
        decreases axis_meas(g.width as int, mx as int, step_x as int) + axis_meas(
            g.height as int,
            my as int,
            step_y as int,
        ),
    {
        let ghost pre_trace: Seq<bool> = trace;
        let use_x: bool = if have_x {
            if have_y {
                sdx < sdy
            } else {
                true
            }
        } else {
            false
        };
        if use_x {
            proof {
                assert((kx + 1) * (delta_x as int) == kx * (delta_x as int) + delta_x)
                    by (nonlinear_arith);
                assert((kx + 2) * 4294967296 == (kx + 1) * 4294967296 + 4294967296);
                if step_x == 1 {
                    assert((kx + 1) * (step_x as int) == kx * (step_x as int) + 1);
                } else {
                    assert((kx + 1) * (step_x as int) == kx * (step_x as int) - 1);
                }
            }
            sdx = sdx + delta_x;
            mx = mx + step_x;
            side = 0;
            proof {
                kx = kx + 1;
                trace = pre_trace.push(true);
                lemma_trace_extend(*g, *a, camx as int, pre_trace, true);
            }
        } else {
            proof {
                assert((ky + 1) * (delta_y as int) == ky * (delta_y as int) + delta_y)
                    by (nonlinear_arith);
                assert((ky + 2) * 4294967296 == (ky + 1) * 4294967296 + 4294967296);
                if step_y == 1 {
                    assert((ky + 1) * (step_y as int) == ky * (step_y as int) + 1);
                } else {
                    assert((ky + 1) * (step_y as int) == ky * (step_y as int) - 1);
                }
            }
            sdy = sdy + delta_y;
            my = my + step_y;
            side = 1;
            proof {
                ky = ky + 1;
                trace = pre_trace.push(false);
                lemma_trace_extend(*g, *a, camx as int, pre_trace, false);
            }
        }
        if g.solid(mx, my) {
            hit = true;
        }
    }
    let perp: i64 = if side == 0 {
        sdx - delta_x
    } else {
        sdy - delta_y
    };
    let h = HitResult { cell_x: mx, cell_y: my, side, perp };
    proof {
        if side == 0 {
            assert(kx * (delta_x as int) - delta_x == (kx - 1) * (delta_x as int))
                by (nonlinear_arith);
        } else {
            assert(ky * (delta_y as int) - delta_y == (ky - 1) * (delta_y as int))
                by (nonlinear_arith);
        }
        assert(dda_witness(*g, *a, camx as int, h, kx, ky));
        assert(exists|kx2: int, ky2: int| #[trigger] dda_witness(*g, *a, camx as int, h, kx2, ky2));
        assert(dda_trace_gives(*g, *a, camx as int, trace, h));
        assert(exists|tr: Seq<bool>| #[trigger] dda_trace_gives(*g, *a, camx as int, tr, h));
        assert(cast_post(*g, *a, camx as int, Some(h)));
    }
    Some(h)
}

/// The first grid-line offset on an axis lies within one cell.
proof fn lemma_frac_bounds(pos: int, rd: int)
    requires
        0 <= pos,
    ensures
        0 <= frac_for(pos, rd) <= 65536,
{
    broadcast use vstd::arithmetic::mul::lemma_mul_is_commutative;

    vstd::arithmetic::div_mod::lemma_fundamental_div_mod(pos, 65536);
    vstd::arithmetic::div_mod::lemma_mod_bound(pos, 65536);
}

/// No fisheye: the side distance reported for a hit after `k` steps on an
/// axis equals — up to fewer than `k + 1` fixed-point units — the exact
/// distance at which the ray crosses the hit grid line, measured in ray
/// parameter units.
///
/// `frac_for(pos, rd) + (k - 1) * 65536` is the axis distance from `pos`
/// to the crossed grid line; the exact crossing parameter is that
/// distance divided by `|rd|` (in fixed point, times `65536 / |rd|`).
/// Multiplying everything by `65536 * |rd|` to stay in integers, the
/// difference between the exact value and `perp` is nonnegative and below
/// `k + 1` units.  For the straight-ahead column (`camx == 0`) the ray is
/// the view direction itself, so `perp` is the wall's distance along the
/// view axis whatever the angle between the view and the grid.
pub proof fn lemma_perp_no_fisheye(pos: int, rd: int, k: int, perp: int)
    requires
        rd != 0,
        0 <= pos,
        1 <= k,
        perp == init_side_for(pos, rd) + (k - 1) * delta_for(rd),
    ensures
        0 <= (frac_for(pos, rd) + (k - 1) * 65536) * 4294967296 - perp * (abs(rd) as int) * 65536,
        (frac_for(pos, rd) + (k - 1) * 65536) * 4294967296 - perp * (abs(rd) as int) * 65536 < (k
            + 1) * 65536 * (abs(rd) as int),
{
    lemma_frac_bounds(pos, rd);
    let av = abs(rd) as int;
    let frac = frac_for(pos, rd);
    let delta = delta_for(rd);
    let init = init_side_for(pos, rd);
    let dist = frac + (k - 1) * 65536;
    vstd::arithmetic::div_mod::lemma_fundamental_div_mod(4294967296, av);
    vstd::arithmetic::div_mod::lemma_mod_bound(4294967296, av);
    let r1 = 4294967296 - av * delta;
    assert(0 <= r1 < av);
    vstd::arithmetic::div_mod::lemma_fundamental_div_mod(frac * delta, 65536);
    vstd::arithmetic::div_mod::lemma_mod_bound(frac * delta, 65536);
    let r2 = frac * delta - 65536 * init;
    assert(0 <= r2 < 65536);
    assert(dist * 4294967296 - perp * av * 65536 == frac * r1 + r2 * av + (k - 1) * 65536 * r1)
        by (nonlinear_arith)
        requires
            4294967296 == av * delta + r1,
            frac * delta == 65536 * init + r2,
            perp == init + (k - 1) * delta,
            dist == frac + (k - 1) * 65536;
    assert(0 <= frac * r1 + r2 * av + (k - 1) * 65536 * r1 && frac * r1 + r2 * av + (k - 1)
        * 65536 * r1 < (k + 1) * 65536 * av) by (nonlinear_arith)
        requires
            0 <= frac <= 65536,
            0 <= r1 < av,
            0 <= r2 < 65536,
            1 <= k,
            1 <= av;
}

/// [`lemma_perp_no_fisheye`] applied to a hit of [`cast`]: any step
/// counts witnessing the hit bound its reported distance around the
/// exact crossing distance of the axis it stepped last.
pub proof fn lemma_witness_no_fisheye(
    g: Grid,
    a: AgentState,
    camx: int,
    h: HitResult,
    kx: int,
    ky: int,
)
    requires
        a.wf(),
        dda_witness(g, a, camx, h, kx, ky),
    ensures
        h.side == 0 ==> {
            let rd = spec_ray_dir_x(a, camx);
            let dist = frac_for(a.pos.x as int, rd) + (kx - 1) * 65536;
            0 <= dist * 4294967296 - h.perp * (abs(rd) as int) * 65536 < (kx + 1) * 65536 * (
            abs(rd) as int)
        },
        h.side == 1 ==> {
            let rd = spec_ray_dir_y(a, camx);
            let dist = frac_for(a.pos.y as int, rd) + (ky - 1) * 65536;
            0 <= dist * 4294967296 - h.perp * (abs(rd) as int) * 65536 < (ky + 1) * 65536 * (
            abs(rd) as int)
        },
{
    if h.side == 0 {
        lemma_perp_no_fisheye(a.pos.x as int, spec_ray_dir_x(a, camx), kx, h.perp as int);
    }
    if h.side == 1 {
        lemma_perp_no_fisheye(a.pos.y as int, spec_ray_dir_y(a, camx), ky, h.perp as int);
    }
}

/// When both rescaling divisions happen to be exact, the reported side
/// distance is the exact crossing parameter: `perp * |rd|` equals the
/// axis distance to the crossed grid line, scaled to fixed point.
pub proof fn lemma_perp_exact(pos: int, rd: int, k: int, perp: int)
    requires
        rd != 0,
        0 <= pos,
        1 <= k,
        perp == init_side_for(pos, rd) + (k - 1) * delta_for(rd),
        4294967296int % (abs(rd) as int) == 0,
        (frac_for(pos, rd) * delta_for(rd)) % 65536 == 0,
    ensures
        perp * (abs(rd) as int) == (frac_for(pos, rd) + (k - 1) * 65536) * 65536,
{
    let av = abs(rd) as int;
    let frac = frac_for(pos, rd);
    let delta = delta_for(rd);
    let init = init_side_for(pos, rd);
    vstd::arithmetic::div_mod::lemma_fundamental_div_mod(4294967296, av);
    vstd::arithmetic::div_mod::lemma_fundamental_div_mod(frac * delta, 65536);
    assert(4294967296 == av * delta);
    assert(frac * delta == 65536 * init);
    assert(perp * av * 65536 == (frac + (k - 1) * 65536) * 65536 * 65536) by (nonlinear_arith)
        requires
            4294967296 == av * delta,
            frac * delta == 65536 * init,
            perp == init + (k - 1) * delta;
    assert(perp * av == (frac + (k - 1) * 65536) * 65536) by (nonlinear_arith)
        requires
            perp * av * 65536 == (frac + (k - 1) * 65536) * 65536 * 65536;
}

} // verus!
