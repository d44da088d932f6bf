use raymarch::space::{rtx, Line, Vec2};

fn v(x: i64, y: i64) -> Vec2 {
    Vec2 { x, y }
}

// The scenarios below use a grid of 1000 units per world unit: a step
// length of 0.01 becomes the vector (10, 0), a maximum range of 2.0
// becomes 2000, and the barrier Line((1,1),(1,-1)) becomes the vertical
// segment from (1000, 1000) to (1000, -1000).

#[test]
fn march_into_vertical_barrier() {
    // Origin (0,0), direction (1,0), one barrier at x=1: the ray travels
    // exactly one world unit.
    let probe = Line(v(0, 0), v(10, 0));
    let barriers = vec![Line(v(1000, 1000), v(1000, -1000))];
    assert_eq!(rtx(probe, &barriers, 2000), 1000);
}

#[test]
fn march_empty_barrier_set_reaches_max() {
    // No barrier present: the result is exactly the maximum distance,
    // whatever the direction.
    let barriers = Vec::new();
    assert_eq!(rtx(Line(v(0, 0), v(10, 0)), &barriers, 2000), 2000);
    assert_eq!(rtx(Line(v(0, 0), v(-7, 3)), &barriers, 2000), 2000);
    assert_eq!(rtx(Line(v(0, 0), v(0, -10)), &barriers, 2000), 2000);
}

#[test]
fn march_parallel_barrier_reaches_max() {
    // A barrier parallel to the ray that is never crossed gives no
    // spurious hit.
    let probe = Line(v(0, 0), v(10, 0));
    let barriers = vec![Line(v(0, 1000), v(2000, 1000))];
    assert_eq!(rtx(probe, &barriers, 2000), 2000);
}

#[test]
fn march_first_step_hit_returns_exact_distance() {
    // The very first probe segment crosses the barrier at distance 5,
    // which is shorter than the step length 10: the result is exactly 5,
    // neither the maximum nor a multiple of the step.
    let probe = Line(v(0, 0), v(10, 0));
    let barriers = vec![Line(v(5, 1000), v(5, -1000))];
    assert_eq!(rtx(probe, &barriers, 2000), 5);
}

#[test]
fn march_range_exceeded_before_barrier() {
    // The barrier sits beyond the travel budget, so the budget wins.
    let probe = Line(v(0, 0), v(10, 0));
    let barriers = vec![Line(v(1000, 1000), v(1000, -1000))];
    assert_eq!(rtx(probe, &barriers, 500), 500);
}

#[test]
fn march_hit_just_past_budget_is_not_clamped() {
    // The step that exhausts the budget also reaches the barrier: the hit
    // branch wins and the exact hit distance is returned, slightly past
    // the maximum.
    let probe = Line(v(0, 0), v(10, 0));
    let barriers = vec![Line(v(505, 1000), v(505, -1000))];
    assert_eq!(rtx(probe, &barriers, 503), 505);
}

#[test]
fn march_diagonal_direction() {
    // Diagonal step (7,7), of floor length 9, against the vertical barrier
    // at x=1000. The segment starting at (994,994) is the first to cross,
    // after 142 steps, at the point (1000,1000), floor distance 8 from the
    // segment's start: each step accumulates its floor length, so the
    // exact grid answer is 142 * 9 + 8.
    let probe = Line(v(0, 0), v(7, 7));
    let barriers = vec![Line(v(1000, 2000), v(1000, -2000))];
    assert_eq!(rtx(probe, &barriers, 3000), 142 * 9 + 8);
}

#[test]
fn march_same_inputs_same_output() {
    let probe = Line(v(0, 0), v(10, 0));
    let barriers = vec![Line(v(1000, 1000), v(1000, -1000))];
    let first = rtx(probe, &barriers, 2000);
    let second = rtx(probe, &barriers, 2000);
    assert_eq!(first, second);
}
