//! The player's pose and the movement model.
//!
//! An [`AgentState`] is a position inside the grid, a view direction, and a
//! camera plane whose magnitude sets the field of view.  Rotation turns
//! direction and plane by the same matrix, which is what keeps them
//! orthogonal; translation moves one axis at a time, each axis only when
//! the cell it would land in is not solid, so that a diagonal push into a
//! wall slides along it instead of stopping.
//!
//! Angles never appear here: a rotation is handed the cosine and sine of
//! its angle as fixed-point values, since computing them is trigonometry
//! and not grid geometry.

use vstd::prelude::*;

use crate::fixed::{
    cell_index, cell_of, fp_mul, lemma_comp_bound, lemma_mul_bounds, lemma_tdiv_close,
    lemma_tdiv_sq, lemma_trunc_prod_err, mul_fp, scale_down, tdiv, FP_ONE,
};
use crate::grid::Grid;

verus! {

/// A fixed-point 2D vector.
#[derive(Clone, Copy, Debug, PartialEq, Eq, Structural)]
pub struct Vec2 {
    pub x: i64,
    pub y: i64,
}

/// Largest coordinate of a position: the far edge of the largest map.
pub const POS_MAX: i64 = 268435456;

/// Largest squared norm of the direction or plane vector (norm at most
/// four cells).
pub const VEC_NORM_SQ_MAX: i64 = 68719476736;

/// Largest movement or rotation speed (1024 cells or radians per second).
pub const SPEED_MAX: i64 = 67108864;

/// Largest time step handed to the movement model (64 seconds).
pub const DT_MAX: i64 = 4194304;

/// Why a pose was rejected at construction.
#[derive(Clone, Copy, Debug, PartialEq, Eq, Structural)]
pub enum AgentError {
    /// A position coordinate, vector norm or speed is outside its range.
    OutOfRange,
}

/// What the player asks of one movement update.
#[derive(Clone, Copy, Debug, PartialEq, Eq, Structural)]
pub enum Intent {
    Forward,
    Backward,
    RotateLeft,
    RotateRight,
}

/// The player: position and facing in the grid, camera plane, and speeds.
///
/// Direction and plane are only ever changed together, by [`Self::rotate`],
/// which is what keeps them perpendicular; there is no setter for one
/// without the other.  Every operation requires and preserves
/// [`Self::wf`], so a caller that writes the fields directly is on its own
/// until the bounds hold again.
#[derive(Clone, Copy, Debug, PartialEq, Eq, Structural)]
pub struct AgentState {
    pub pos: Vec2,
    pub dir: Vec2,
    pub plane: Vec2,
    pub move_speed: i64,
    pub rot_speed: i64,
}

/// Dot product of two vectors given by components.
pub open spec fn dot(ax: int, ay: int, bx: int, by: int) -> int {
    ax * bx + ay * by
}

/// Squared norm of a vector.
pub open spec fn norm_sq(v: Vec2) -> int {
    v.x * v.x + v.y * v.y
}

/// First component of a vector rotated by angle `(c, s)`, before the
/// fixed-point rescale: `x * c - y * s`.
pub open spec fn rot_x_num(v: Vec2, c: int, s: int) -> int {
    v.x * c - v.y * s
}

/// Second component of a vector rotated by angle `(c, s)`, before the
/// fixed-point rescale: `x * s + y * c`.
pub open spec fn rot_y_num(v: Vec2, c: int, s: int) -> int {
    v.x * s + v.y * c
}

/// The vector `v` rotated by the matrix for the angle with cosine `c` and
/// sine `s` (both fixed point), components rescaled to fixed point.
pub open spec fn rot_vec(v: Vec2, c: int, s: int) -> (Vec2) {
    Vec2 {
        x: tdiv(rot_x_num(v, c, s), FP_ONE as int) as i64,
        y: tdiv(rot_y_num(v, c, s), FP_ONE as int) as i64,
    }
}

/// Displacement of one movement update: direction scaled by
/// `move_speed * dt`, negated for a backward move.
pub open spec fn spec_displacement(a: AgentState, backward: bool, dt: int) -> (int, int) {
    let len = fp_mul(a.move_speed as int, dt);
    let dx = fp_mul(a.dir.x as int, len);
    let dy = fp_mul(a.dir.y as int, len);
    if backward {
        (-dx, -dy)
    } else {
        (dx, dy)
    }
}

/// Position after one movement update against `g`: the x displacement is
/// committed only when the cell it lands in (at the old y) is not solid,
/// then the y displacement only when its cell at the updated x is not
/// solid.
pub open spec fn spec_move(a: AgentState, g: Grid, backward: bool, dt: int) -> (int, int) {
    let (dx, dy) = spec_displacement(a, backward, dt);
    let cx = a.pos.x + dx;
    let nx = if !g.spec_solid(cell_of(cx), cell_of(a.pos.y as int)) {
        cx
    } else {
        a.pos.x as int
    };
    let cy = a.pos.y + dy;
    let ny = if !g.spec_solid(cell_of(nx), cell_of(cy)) {
        cy
    } else {
        a.pos.y as int
    };
    (nx, ny)
}

/// How a finished rotation relates to the pose it started from: position
/// and speeds are untouched, direction and plane are both turned by the
/// same matrix.
pub open spec fn rotate_post(pre: AgentState, post: AgentState, c: int, s: int) -> bool {
    &&& post.pos == pre.pos
    &&& post.move_speed == pre.move_speed
    &&& post.rot_speed == pre.rot_speed
    &&& post.dir == rot_vec(pre.dir, c, s)
    &&& post.plane == rot_vec(pre.plane, c, s)
}

/// How a finished translation relates to the pose it started from:
/// direction, plane and speeds are untouched and the position is
/// [`spec_move`].
pub open spec fn translate_post(
    pre: AgentState,
    post: AgentState,
    g: Grid,
    backward: bool,
    dt: int,
) -> bool {
    &&& post.dir == pre.dir
    &&& post.plane == pre.plane
    &&& post.move_speed == pre.move_speed
    &&& post.rot_speed == pre.rot_speed
    &&& post.pos.x == spec_move(pre, g, backward, dt).0
    &&& post.pos.y == spec_move(pre, g, backward, dt).1
}

impl AgentState {
    /// A pose the engine can work with: position on the map, direction and
    /// plane of bounded norm, speeds in range.
    pub open spec fn wf(&self) -> bool {
        &&& 0 <= self.pos.x <= POS_MAX
        &&& 0 <= self.pos.y <= POS_MAX
        &&& norm_sq(self.dir) <= VEC_NORM_SQ_MAX
        &&& norm_sq(self.plane) <= VEC_NORM_SQ_MAX
        &&& 0 <= self.move_speed <= SPEED_MAX
        &&& 0 <= self.rot_speed <= SPEED_MAX
    }

    /// Validates an initial pose; returns it unchanged when every field is
    /// in range.
    pub fn new(pos: Vec2, dir: Vec2, plane: Vec2, move_speed: i64, rot_speed: i64) -> (result:
        Result<AgentState, AgentError>)
        ensures
            match result {
                Ok(a) => {
                    &&& a.wf()
                    &&& a.pos == pos
                    &&& a.dir == dir
                    &&& a.plane == plane
                    &&& a.move_speed == move_speed
                    &&& a.rot_speed == rot_speed
                },
                Err(e) => e == AgentError::OutOfRange,
            },
            result is Ok <==> (AgentState {
                pos,
                dir,
                plane,
                move_speed,
                rot_speed,
            }).wf(),
    {
        if pos.x < 0 || pos.x > POS_MAX || pos.y < 0 || pos.y > POS_MAX {
            return Err(AgentError::OutOfRange);
        }
        if move_speed < 0 || move_speed > SPEED_MAX || rot_speed < 0 || rot_speed > SPEED_MAX {
            return Err(AgentError::OutOfRange);
        }
        if !norm_sq_within(dir) || !norm_sq_within(plane) {
            return Err(AgentError::OutOfRange);
        }
        Ok(AgentState { pos, dir, plane, move_speed, rot_speed })
    }

    /// Rotates direction and camera plane together by the angle whose
    /// cosine and sine are `c` and `s` (fixed point, of magnitude at most
    /// one, as any rounded-toward-zero cosine/sine pair is).
    ///
    /// Rotating both vectors by the same matrix is what keeps the plane
    /// perpendicular to the direction; see
    /// [`lemma_rotation_preserves_orthogonality`] and
    /// [`lemma_rotation_dot_drift`].
    pub fn rotate(&mut self, c: i64, s: i64)
        requires
            old(self).wf(),
            c * c + s * s <= FP_ONE * FP_ONE,
        ensures
            final(self).wf(),
            rotate_post(*old(self), *final(self), c as int, s as int),
    {
        proof {
            lemma_comp_bound(c as int, s as int, 65536);
            lemma_comp_bound(old(self).dir.x as int, old(self).dir.y as int, 262144);
            lemma_comp_bound(old(self).plane.x as int, old(self).plane.y as int, 262144);
            lemma_mul_bounds(old(self).dir.x as int, c as int, 262144, 65536);
            lemma_mul_bounds(old(self).dir.y as int, s as int, 262144, 65536);
            lemma_mul_bounds(old(self).dir.x as int, s as int, 262144, 65536);
            lemma_mul_bounds(old(self).dir.y as int, c as int, 262144, 65536);
            lemma_mul_bounds(old(self).plane.x as int, c as int, 262144, 65536);
            lemma_mul_bounds(old(self).plane.y as int, s as int, 262144, 65536);
            lemma_mul_bounds(old(self).plane.x as int, s as int, 262144, 65536);
            lemma_mul_bounds(old(self).plane.y as int, c as int, 262144, 65536);
        }
        let ndx: i64 = scale_down(self.dir.x * c - self.dir.y * s);
        let ndy: i64 = scale_down(self.dir.x * s + self.dir.y * c);
        let npx: i64 = scale_down(self.plane.x * c - self.plane.y * s);
        let npy: i64 = scale_down(self.plane.x * s + self.plane.y * c);
        proof {
            lemma_rot_norm_shrinks(old(self).dir, c as int, s as int);
            lemma_rot_norm_shrinks(old(self).plane, c as int, s as int);
        }
        self.dir = Vec2 { x: ndx, y: ndy };
        self.plane = Vec2 { x: npx, y: npy };
    }

    /// Moves along the view direction for `dt` seconds (against it when
    /// `backward`), one axis at a time, each axis stopped by a solid cell.
    ///
    /// A pose whose cell is clear stays in a clear cell: movement can
    /// never end inside a wall.
    pub fn translate(&mut self, g: &Grid, backward: bool, dt: i64)
        requires
            old(self).wf(),
            g.wf(),
            0 <= dt <= DT_MAX,
        ensures
            final(self).wf(),
            translate_post(*old(self), *final(self), *g, backward, dt as int),
            !g.spec_solid(
                cell_of(old(self).pos.x as int),
                cell_of(old(self).pos.y as int),
            ) ==> !g.spec_solid(
                cell_of(final(self).pos.x as int),
                cell_of(final(self).pos.y as int),
            ),
    {
        proof {
            lemma_comp_bound(old(self).dir.x as int, old(self).dir.y as int, 262144);
            lemma_mul_bounds(old(self).move_speed as int, dt as int, SPEED_MAX as int,
                DT_MAX as int);
        }
        let len: i64 = mul_fp(self.move_speed, dt);
        proof {
            vstd::arithmetic::div_mod::lemma_div_is_ordered(
                old(self).move_speed * dt,
                SPEED_MAX * DT_MAX,
                65536,
            );
            vstd::arithmetic::div_mod::lemma_div_pos_is_pos(old(self).move_speed * dt, 65536);
            lemma_mul_bounds(old(self).dir.x as int, len as int, 262144, 4294967296);
            lemma_mul_bounds(old(self).dir.y as int, len as int, 262144, 4294967296);
            lemma_tdiv_close(old(self).dir.x * len, 65536);
            lemma_tdiv_close(old(self).dir.y * len, 65536);
        }
        let dx: i64 = mul_fp(self.dir.x, len);
        let dy: i64 = mul_fp(self.dir.y, len);
        let (sx, sy): (i64, i64) = if backward {
            (-dx, -dy)
        } else {
            (dx, dy)
        };
        let cx: i64 = self.pos.x + sx;
        if !g.solid(cell_index(cx), cell_index(self.pos.y)) {
            proof {
                lemma_clear_cell_coord_range(*g, cx as int);
            }
            self.pos.x = cx;
        }
        let cy: i64 = self.pos.y + sy;
        if !g.solid(cell_index(self.pos.x), cell_index(cy)) {
            proof {
                lemma_clear_cell_coord_range(*g, cy as int);
            }
            self.pos.y = cy;
        }
    }

    /// One movement update: translation for the move intents, rotation for
    /// the rotate intents.  `c` and `s` are the cosine and sine of the
    /// frame's rotation angle `rot_speed * dt`; a right rotation uses the
    /// opposite angle, so its sine is negated.
    pub fn apply_intent(&mut self, g: &Grid, intent: Intent, dt: i64, c: i64, s: i64)
        requires
            old(self).wf(),
            g.wf(),
            0 <= dt <= DT_MAX,
            c * c + s * s <= FP_ONE * FP_ONE,
        ensures
            final(self).wf(),
            intent == Intent::Forward ==> translate_post(
                *old(self),
                *final(self),
                *g,
                false,
                dt as int,
            ),
            intent == Intent::Backward ==> translate_post(
                *old(self),
                *final(self),
                *g,
                true,
                dt as int,
            ),
            intent == Intent::RotateLeft ==> rotate_post(*old(self), *final(self), c as int,
                s as int),
            intent == Intent::RotateRight ==> rotate_post(*old(self), *final(self), c as int,
                -s as int),
    {
        match intent {
            Intent::Forward => self.translate(g, false, dt),
            Intent::Backward => self.translate(g, true, dt),
            Intent::RotateLeft => self.rotate(c, s),
            Intent::RotateRight => {
                proof {
                    lemma_comp_bound(c as int, s as int, 65536);
                    assert(c * c + (-s) * (-s) == c * c + s * s) by (nonlinear_arith);
                }
                self.rotate(c, -s);
            },
        }
    }
}

/// The rotation identity: rotating two vectors by the same matrix scales
/// their dot product by `c * c + s * s`.
proof fn lemma_rot_identity(x: int, y: int, u: int, v: int, c: int, s: int)
    ensures
        (x * c - y * s) * (u * c - v * s) + (x * s + y * c) * (u * s + v * c) == (c * c + s * s)
            * (x * u + y * v),
{
    assert((x * c - y * s) * (u * c - v * s) == (x * c) * (u * c) - (x * c) * (v * s) - (y * s)
        * (u * c) + (y * s) * (v * s)) by (nonlinear_arith);
    assert((x * s + y * c) * (u * s + v * c) == (x * s) * (u * s) + (x * s) * (v * c) + (y * c)
        * (u * s) + (y * c) * (v * c)) by (nonlinear_arith);
    assert((x * c) * (u * c) == (x * u) * (c * c)) by (nonlinear_arith);
    assert((y * s) * (v * s) == (y * v) * (s * s)) by (nonlinear_arith);
    assert((x * s) * (u * s) == (x * u) * (s * s)) by (nonlinear_arith);
    assert((y * c) * (v * c) == (y * v) * (c * c)) by (nonlinear_arith);
    assert((x * c) * (v * s) == (x * s) * (v * c)) by (nonlinear_arith);
    assert((y * s) * (u * c) == (y * c) * (u * s)) by (nonlinear_arith);
    assert((c * c + s * s) * (x * u + y * v) == (x * u) * (c * c) + (y * v) * (c * c) + (x * u)
        * (s * s) + (y * v) * (s * s)) by (nonlinear_arith);
}

/// Whether a vector's squared norm is within [`VEC_NORM_SQ_MAX`].
fn norm_sq_within(v: Vec2) -> (ok: bool)
    ensures
        ok == (norm_sq(v) <= VEC_NORM_SQ_MAX),
{
    if v.x < -262144 || v.x > 262144 || v.y < -262144 || v.y > 262144 {
        proof {
            lemma_big_comp_big_norm(v.x as int, v.y as int);
        }
        return false;
    }
    proof {
        lemma_mul_bounds(v.x as int, v.x as int, 262144, 262144);
        lemma_mul_bounds(v.y as int, v.y as int, 262144, 262144);
    }
    v.x * v.x + v.y * v.y <= VEC_NORM_SQ_MAX
}

/// A component beyond four cells pushes the squared norm beyond its bound.
proof fn lemma_big_comp_big_norm(x: int, y: int)
    by (nonlinear_arith)
    requires
        x < -262144 || x > 262144 || y < -262144 || y > 262144,
    ensures
        x * x + y * y > 68719476736,
{
}

/// Rotation by an angle of magnitude at most one never grows a vector: the
/// rescaled rotated vector's squared norm is bounded by the input's.
proof fn lemma_rot_norm_shrinks(v: Vec2, c: int, s: int)
    requires
        c * c + s * s <= FP_ONE * FP_ONE,
        norm_sq(v) <= VEC_NORM_SQ_MAX,
    ensures
        norm_sq(rot_vec(v, c, s)) <= norm_sq(v),
        -262144 <= tdiv(rot_x_num(v, c, s), FP_ONE as int) <= 262144,
        -262144 <= tdiv(rot_y_num(v, c, s), FP_ONE as int) <= 262144,
        rot_vec(v, c, s).x as int == tdiv(rot_x_num(v, c, s), FP_ONE as int),
        rot_vec(v, c, s).y as int == tdiv(rot_y_num(v, c, s), FP_ONE as int),
{
    broadcast use vstd::arithmetic::mul::lemma_mul_is_commutative;

    let x = v.x as int;
    let y = v.y as int;
    let xn = x * c - y * s;
    let yn = x * s + y * c;
    let nx = tdiv(xn, 65536);
    let ny = tdiv(yn, 65536);
    lemma_tdiv_sq(xn, 65536);
    lemma_tdiv_sq(yn, 65536);
    lemma_rot_identity(x, y, x, y, c, s);
    assert(xn * xn + yn * yn == (c * c + s * s) * (x * x + y * y));
    assert(0 <= x * x + y * y && 0 <= c * c + s * s) by (nonlinear_arith);
    assert((x * x + y * y) * (c * c + s * s) <= (x * x + y * y) * (65536 * 65536))
        by (nonlinear_arith)
        requires
            0 <= x * x + y * y,
            0 <= c * c + s * s <= 65536 * 65536;
    assert(nx * nx + ny * ny <= x * x + y * y) by (nonlinear_arith)
        requires
            nx * nx * (65536 * 65536) <= xn * xn,
            ny * ny * (65536 * 65536) <= yn * yn,
            xn * xn + yn * yn <= (x * x + y * y) * (65536 * 65536);
    assert(0 <= nx * nx && 0 <= ny * ny) by (nonlinear_arith);
    assert(nx * nx <= 68719476736 && ny * ny <= 68719476736);
    lemma_comp_bound(nx, ny, 262144);
    assert(rot_vec(v, c, s).x as int == nx && rot_vec(v, c, s).y as int == ny);
    assert(norm_sq(rot_vec(v, c, s)) == nx * nx + ny * ny);
}

/// A coordinate whose cell is inside the map lies between the map's edges.
proof fn lemma_clear_cell_coord_range(g: Grid, v: int)
    requires
        g.wf(),
        0 <= cell_of(v) < g.width || 0 <= cell_of(v) < g.height,
    ensures
        0 <= v <= POS_MAX,
{
    vstd::arithmetic::div_mod::lemma_fundamental_div_mod(v, 65536);
    vstd::arithmetic::div_mod::lemma_mod_bound(v, 65536);
    assert(65536 * cell_of(v) <= 65536 * 4095) by (nonlinear_arith)
        requires
            cell_of(v) <= 4095;
}

/// Rotating two exactly orthogonal vectors by the same matrix keeps their
/// un-rescaled images exactly orthogonal, whatever the angle: the rotation
/// scales the dot product by `c * c + s * s`.
pub proof fn lemma_rotation_preserves_orthogonality(d: Vec2, p: Vec2, c: int, s: int)
    requires
        dot(d.x as int, d.y as int, p.x as int, p.y as int) == 0,
    ensures
        rot_x_num(d, c, s) * rot_x_num(p, c, s) + rot_y_num(d, c, s) * rot_y_num(p, c, s) == 0,
{
    let dx = d.x as int;
    let dy = d.y as int;
    let px = p.x as int;
    let py = p.y as int;
    lemma_rot_identity(dx, dy, px, py, c, s);
}

/// The fixed-point rescale after a rotation moves the dot product of
/// direction and plane by at most `32 * FP_ONE + 2`, about five
/// ten-thousandths of a squared cell: a pose whose vectors are orthogonal
/// up to `t` stays orthogonal up to `t` plus that tolerance, so the error
/// after any sequence of rotations grows at most linearly in its length.
pub proof fn lemma_rotation_dot_drift(pre: AgentState, post: AgentState, c: int, s: int, t: int)
    requires
        pre.wf(),
        rotate_post(pre, post, c, s),
        c * c + s * s <= FP_ONE * FP_ONE,
        0 <= t,
        -t <= dot(pre.dir.x as int, pre.dir.y as int, pre.plane.x as int, pre.plane.y as int) <= t,
    ensures
        -(t + 32 * FP_ONE + 2) <= dot(
            post.dir.x as int,
            post.dir.y as int,
            post.plane.x as int,
            post.plane.y as int,
        ) <= t + 32 * FP_ONE + 2,
{
    broadcast use vstd::arithmetic::mul::lemma_mul_is_commutative;

    lemma_comp_bound(pre.dir.x as int, pre.dir.y as int, 262144);
    lemma_comp_bound(pre.plane.x as int, pre.plane.y as int, 262144);
    lemma_comp_bound(c, s, 65536);
    let dx = pre.dir.x as int;
    let dy = pre.dir.y as int;
    let px = pre.plane.x as int;
    let py = pre.plane.y as int;
    let xd = dx * c - dy * s;
    let yd = dx * s + dy * c;
    let xp = px * c - py * s;
    let yp = px * s + py * c;
    let nxd = tdiv(xd, 65536);
    let nyd = tdiv(yd, 65536);
    let nxp = tdiv(xp, 65536);
    let nyp = tdiv(yp, 65536);
    assert(-34359738368 <= xd <= 34359738368 && -34359738368 <= yd <= 34359738368
        && -34359738368 <= xp <= 34359738368 && -34359738368 <= yp <= 34359738368)
        by (nonlinear_arith)
        requires
            -262144 <= dx <= 262144,
            -262144 <= dy <= 262144,
            -262144 <= px <= 262144,
            -262144 <= py <= 262144,
            -65536 <= c <= 65536,
            -65536 <= s <= 65536,
            xd == dx * c - dy * s,
            yd == dx * s + dy * c,
            xp == px * c - py * s,
            yp == px * s + py * c;
    lemma_trunc_prod_err(xd, xp, 34359738368);
    lemma_trunc_prod_err(yd, yp, 34359738368);
    lemma_rot_identity(dx, dy, px, py, c, s);
    assert(0 <= c * c + s * s) by (nonlinear_arith);
    assert(-(65536 * 65536) * t <= (c * c + s * s) * (dx * px + dy * py) <= (65536 * 65536) * t)
        by (nonlinear_arith)
        requires
            0 <= c * c + s * s <= 65536 * 65536,
            0 <= t,
            -t <= dx * px + dy * py <= t;
    assert((nxd * nxp + nyd * nyp) * (65536 * 65536) == (nxd * nxp) * (65536 * 65536) + (nyd
        * nyp) * (65536 * 65536)) by (nonlinear_arith);
    assert(-(t + 32 * 65536 + 2) * (65536 * 65536) <= (nxd * nxp + nyd * nyp) * (65536 * 65536)
        <= (t + 32 * 65536 + 2) * (65536 * 65536));
    assert(-(t + 32 * 65536 + 2) <= nxd * nxp + nyd * nyp <= t + 32 * 65536 + 2)
        by (nonlinear_arith)
        requires
            -(t + 32 * 65536 + 2) * (65536 * 65536) <= (nxd * nxp + nyd * nyp) * (65536 * 65536)
                <= (t + 32 * 65536 + 2) * (65536 * 65536);
    assert(post.dir.x as int == nxd && post.dir.y as int == nyd && post.plane.x as int == nxp
        && post.plane.y as int == nyp);
}

/// Pushing diagonally into a wall that blocks only the x axis slides the
/// pose along y: the y displacement is committed in full while x stays.
pub proof fn lemma_collision_sliding_y(a: AgentState, g: Grid, backward: bool, dt: int)
    requires
        g.spec_solid(
            cell_of(a.pos.x + spec_displacement(a, backward, dt).0),
            cell_of(a.pos.y as int),
        ),
        !g.spec_solid(
            cell_of(a.pos.x as int),
            cell_of(a.pos.y + spec_displacement(a, backward, dt).1),
        ),
    ensures
        spec_move(a, g, backward, dt).0 == a.pos.x,
        spec_move(a, g, backward, dt).1 == a.pos.y + spec_displacement(a, backward, dt).1,
{
}

/// Pushing diagonally into a wall that blocks only the y axis slides the
/// pose along x: the x displacement is committed in full while y stays.
pub proof fn lemma_collision_sliding_x(a: AgentState, g: Grid, backward: bool, dt: int)
    requires
        !g.spec_solid(
            cell_of(a.pos.x + spec_displacement(a, backward, dt).0),
            cell_of(a.pos.y as int),
        ),
        g.spec_solid(
            cell_of(a.pos.x + spec_displacement(a, backward, dt).0),
            cell_of(a.pos.y + spec_displacement(a, backward, dt).1),
        ),
    ensures
        spec_move(a, g, backward, dt).0 == a.pos.x + spec_displacement(a, backward, dt).0,
        spec_move(a, g, backward, dt).1 == a.pos.y,
{
}

} // verus!
