use raydium::agent::{AgentError, AgentState, Intent, Vec2};
use raydium::fixed::{cell_index, mul_fp, FP_ONE};
use raydium::grid::{Grid, GridError};
use raydium::raycast::cast;
use raydium::render::{cam_x_for, clip_span, project, render_column, render_frame};

fn grid3() -> Grid {
    let cells = vec![
        1, 1, 1, //
        1, 0, 1, //
        1, 1, 1,
    ];
    Grid::new(3, 3, cells).unwrap()
}

fn grid4_corner() -> Grid {
    // 4x4 solid border; interior: (1,1) and (1,2) and (2,2) empty, (2,1) a wall.
    let mut cells = vec![0u8; 16];
    for x in 0..4usize {
        for y in 0..4usize {
            if x == 0 || x == 3 || y == 0 || y == 3 {
                cells[x * 4 + y] = 1;
            }
        }
    }
    cells[2 * 4 + 1] = 5;
    Grid::new(4, 4, cells).unwrap()
}

fn agent_center() -> AgentState {
    AgentState::new(
        Vec2 { x: 98304, y: 98304 },
        Vec2 { x: FP_ONE, y: 0 },
        Vec2 { x: 0, y: 43253 },
        FP_ONE,
        FP_ONE,
    )
    .unwrap()
}

#[test]
fn grid_rejects_small_dimensions() {
    let r = Grid::new(2, 3, vec![0; 6]);
    assert_eq!(r.unwrap_err(), GridError::BadDimensions);
}

#[test]
fn grid_rejects_wrong_cell_count() {
    let r = Grid::new(3, 3, vec![1; 8]);
    assert_eq!(r.unwrap_err(), GridError::BadCellCount);
}

#[test]
fn grid_rejects_open_border() {
    let mut cells = vec![1u8; 9];
    cells[3] = 0; // (1, 0) is on the border
    let r = Grid::new(3, 3, cells);
    assert_eq!(r.unwrap_err(), GridError::OpenBorder);
}

#[test]
fn grid_solid_lookups() {
    let g = grid3();
    assert!(g.solid(0, 0));
    assert!(!g.solid(1, 1));
    assert!(g.solid(2, 1));
    // out of bounds counts as solid
    assert!(g.solid(-1, 1));
    assert!(g.solid(1, 3));
    assert!(g.solid(100, 100));
}

#[test]
fn agent_rejects_out_of_range() {
    let r = AgentState::new(
        Vec2 { x: -1, y: 0 },
        Vec2 { x: FP_ONE, y: 0 },
        Vec2 { x: 0, y: 43253 },
        FP_ONE,
        FP_ONE,
    );
    assert_eq!(r.unwrap_err(), AgentError::OutOfRange);
    let r2 = AgentState::new(
        Vec2 { x: 0, y: 0 },
        Vec2 { x: 10 * FP_ONE, y: 0 },
        Vec2 { x: 0, y: 43253 },
        FP_ONE,
        FP_ONE,
    );
    assert_eq!(r2.unwrap_err(), AgentError::OutOfRange);
}

#[test]
fn fixed_point_multiply_truncates_toward_zero() {
    assert_eq!(mul_fp(FP_ONE, FP_ONE), FP_ONE);
    assert_eq!(mul_fp(-3 * FP_ONE, 2 * FP_ONE), -6 * FP_ONE);
    assert_eq!(mul_fp(1, 1), 0);
    assert_eq!(mul_fp(-1, 1), 0);
    assert_eq!(mul_fp(FP_ONE / 2, FP_ONE / 2), FP_ONE / 4);
}

#[test]
fn cell_index_floors() {
    assert_eq!(cell_index(0), 0);
    assert_eq!(cell_index(98304), 1);
    assert_eq!(cell_index(131071), 1);
    assert_eq!(cell_index(131072), 2);
    assert_eq!(cell_index(-1), -1);
    assert_eq!(cell_index(-65536), -1);
    assert_eq!(cell_index(-65537), -2);
}

#[test]
fn center_column_offset_is_zero() {
    assert_eq!(cam_x_for(50, 100), 0);
    assert_eq!(cam_x_for(0, 100), -FP_ONE);
    assert!(cam_x_for(99, 100) < FP_ONE);
}

// 3x3 all-solid border, center empty; agent at (1.5, 1.5) facing (1, 0)
// with plane (0, 0.66); column 50 of 100 casts straight ahead and must hit
// cell (2, 1) through a vertical line at perpendicular distance 0.5.
#[test]
fn straight_cast_hits_east_wall_at_half_cell() {
    let g = grid3();
    let a = agent_center();
    let camx = cam_x_for(50, 100);
    assert_eq!(camx, 0);
    let hit = cast(&g, &a, camx).unwrap();
    assert_eq!(hit.cell_x, 2);
    assert_eq!(hit.cell_y, 1);
    assert_eq!(hit.side, 0);
    assert_eq!(hit.perp, FP_ONE / 2);
}

// Same grid, agent rotated 90 degrees: direction becomes (0, 1), plane
// (-0.66, 0); the straight column now hits cell (1, 2) through a
// horizontal line.
#[test]
fn rotated_cast_hits_south_wall() {
    let g = grid3();
    let mut a = agent_center();
    a.rotate(0, FP_ONE);
    assert_eq!(a.dir, Vec2 { x: 0, y: FP_ONE });
    assert_eq!(a.plane, Vec2 { x: -43253, y: 0 });
    let hit = cast(&g, &a, 0).unwrap();
    assert_eq!(hit.cell_x, 1);
    assert_eq!(hit.cell_y, 2);
    assert_eq!(hit.side, 1);
    assert_eq!(hit.perp, FP_ONE / 2);
}

// A ray cast at an angle against a flat wall straight ahead: with the
// view direction along x, every column's perpendicular distance to the
// x = 2 wall is exactly 0.5 whatever the ray's own slant (no fisheye).
#[test]
fn slanted_rays_report_perpendicular_distance() {
    let mut cells = vec![0u8; 25];
    for x in 0..5usize {
        for y in 0..5usize {
            if x == 0 || x == 4 || y == 0 || y == 4 {
                cells[x * 5 + y] = 1;
            }
        }
    }
    // extra wall column at x == 2 so every slanted ray going right hits it
    for y in 0..5usize {
        cells[2 * 5 + y] = 2;
    }
    let g = Grid::new(5, 5, cells).unwrap();
    let a = AgentState::new(
        Vec2 { x: 98304, y: 2 * FP_ONE + FP_ONE / 2 },
        Vec2 { x: FP_ONE, y: 0 },
        Vec2 { x: 0, y: 43253 },
        FP_ONE,
        FP_ONE,
    )
    .unwrap();
    for x in [25i64, 50, 75] {
        let hit = cast(&g, &a, cam_x_for(x, 100)).unwrap();
        assert_eq!(hit.cell_x, 2);
        assert_eq!(hit.side, 0);
        assert_eq!(hit.perp, FP_ONE / 2);
    }
}

// A long walk across an empty 24x24 map: the ray crosses 22 cells and
// stops at the solid border, at the perpendicular distance of that wall.
#[test]
fn cast_crosses_large_map_to_border() {
    let mut cells = vec![0u8; 24 * 24];
    for x in 0..24usize {
        for y in 0..24usize {
            if x == 0 || x == 23 || y == 0 || y == 23 {
                cells[x * 24 + y] = 1;
            }
        }
    }
    let g = Grid::new(24, 24, cells).unwrap();
    let a = AgentState::new(
        Vec2 { x: 22 * FP_ONE + FP_ONE / 2, y: 12 * FP_ONE + FP_ONE / 2 },
        Vec2 { x: -FP_ONE, y: 0 },
        Vec2 { x: 0, y: 43253 },
        25 * FP_ONE,
        35 * FP_ONE,
    )
    .unwrap();
    let hit = cast(&g, &a, 0).unwrap();
    assert_eq!(hit.cell_x, 0);
    assert_eq!(hit.cell_y, 12);
    assert_eq!(hit.side, 0);
    // 21 full cells plus the half cell to the first grid line
    assert_eq!(hit.perp, 21 * FP_ONE + FP_ONE / 2);
}

#[test]
fn rotation_keeps_vectors_orthogonal_within_tolerance() {
    let mut a = agent_center();
    // cos and sin of 45 degrees, rounded toward zero
    let c: i64 = 46340;
    let s: i64 = 46340;
    for _ in 0..8 {
        a.rotate(c, s);
        let dot = a.dir.x * a.plane.x + a.dir.y * a.plane.y;
        assert!(dot.abs() <= 8 * (32 * FP_ONE + 2));
    }
}

#[test]
fn exact_quarter_turns_keep_orthogonality_exact() {
    let mut a = agent_center();
    for _ in 0..4 {
        a.rotate(0, FP_ONE);
        let dot = a.dir.x * a.plane.x + a.dir.y * a.plane.y;
        assert_eq!(dot, 0);
    }
    // four quarter turns are a full turn
    assert_eq!(a.dir, Vec2 { x: FP_ONE, y: 0 });
    assert_eq!(a.plane, Vec2 { x: 0, y: 43253 });
}

// Moving diagonally into the wall at (2, 1): x is blocked, y is free, so
// the move slides along y instead of stopping.
#[test]
fn diagonal_push_slides_along_free_axis() {
    let g = grid4_corner();
    let mut a = AgentState::new(
        Vec2 { x: 98304, y: 98304 },
        Vec2 { x: FP_ONE, y: FP_ONE },
        Vec2 { x: 0, y: 43253 },
        FP_ONE,
        FP_ONE,
    )
    .unwrap();
    a.translate(&g, false, 49152);
    assert_eq!(a.pos, Vec2 { x: 98304, y: 147456 });
}

// Moving forward long enough to reach the wall boundary stops position.x
// at exactly 2.0 minus one fixed-point unit, and a further push never
// exceeds it.
#[test]
fn forward_motion_stops_at_wall_boundary() {
    let g = grid3();
    let mut a = agent_center();
    a.translate(&g, false, 32767);
    assert_eq!(a.pos.x, 2 * FP_ONE - 1);
    assert_eq!(a.pos.y, 98304);
    a.translate(&g, false, FP_ONE);
    assert_eq!(a.pos.x, 2 * FP_ONE - 1);
}

#[test]
fn backward_motion_is_negated_forward() {
    let g = grid3();
    let mut a = agent_center();
    a.translate(&g, true, 16384);
    assert_eq!(a.pos.x, 98304 - 16384);
    assert_eq!(a.pos.y, 98304);
}

#[test]
fn intents_dispatch_to_translation_and_rotation() {
    let g = grid3();
    let mut a = agent_center();
    let mut b = a;
    a.apply_intent(&g, Intent::Forward, 16384, FP_ONE, 0);
    b.translate(&g, false, 16384);
    assert_eq!(a, b);
    let mut c = agent_center();
    let mut d = c;
    c.apply_intent(&g, Intent::RotateRight, 16384, 0, FP_ONE);
    d.rotate(0, -FP_ONE);
    assert_eq!(c, d);
}

#[test]
fn projection_spans() {
    // perpendicular distance 0.5: line height 200 on a 100-pixel screen,
    // clamped to the full screen
    assert_eq!(project(FP_ONE / 2, 100), (0, 99));
    // distance 2: line height 50, centered
    assert_eq!(project(2 * FP_ONE, 100), (25, 75));
    // distance 1: exactly the screen
    assert_eq!(project(FP_ONE, 100), (0, 99));
    // degenerate distances clamp to the smallest positive value
    assert_eq!(project(0, 100), (0, 99));
    assert_eq!(project(-5, 100), (0, 99));
}

#[test]
fn clip_span_orders_and_clips() {
    assert_eq!(clip_span(5, 80, 20, 100, 100), Some((20, 80)));
    assert_eq!(clip_span(5, -10, 150, 100, 100), Some((0, 99)));
    assert_eq!(clip_span(-1, 10, 20, 100, 100), None);
    assert_eq!(clip_span(100, 10, 20, 100, 100), None);
    assert_eq!(clip_span(5, -30, -2, 100, 100), None);
    assert_eq!(clip_span(5, 120, 150, 100, 100), None);
}

#[test]
fn center_column_renders_full_red_slice() {
    let g = grid3();
    let a = agent_center();
    let span = render_column(&g, &a, 50, 100, 100).unwrap();
    assert_eq!(span.y_start, 0);
    assert_eq!(span.y_end, 99);
    assert_eq!(span.color.r, 255);
    assert_eq!(span.color.g, 0);
    assert_eq!(span.color.b, 0);
}

#[test]
fn frame_has_one_span_per_column() {
    let g = grid3();
    let a = agent_center();
    let frame = render_frame(&g, &a, 100, 100);
    assert_eq!(frame.len(), 100);
    for span in &frame {
        assert!(span.is_some());
    }
}

#[test]
fn side_hits_are_shaded() {
    let g = grid3();
    let mut a = agent_center();
    // facing east, the wall is hit through a vertical line: full red
    let east = render_column(&g, &a, 50, 100, 100).unwrap();
    assert_eq!(east.color, raydium::gfx::wall_color(1, 0));
    assert_eq!(east.color.r, 255);
    // facing south, the same wall value is hit through a horizontal
    // line: every channel is half
    a.rotate(0, FP_ONE);
    let south = render_column(&g, &a, 50, 100, 100).unwrap();
    assert_eq!(south.color, raydium::gfx::wall_color(1, 1));
    assert_eq!(south.color.r, 127);
    assert_eq!(south.color.g, 0);
    assert_eq!(south.color.b, 0);
}
