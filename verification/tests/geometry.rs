use raymarch::isqrt::isqrt_u128;
use raymarch::space::{barr_check, intersect, Line, Vec2};

fn v(x: i64, y: i64) -> Vec2 {
    Vec2 { x, y }
}

#[test]
fn isqrt_small_values() {
    assert_eq!(isqrt_u128(0), 0);
    assert_eq!(isqrt_u128(1), 1);
    assert_eq!(isqrt_u128(2), 1);
    assert_eq!(isqrt_u128(15), 3);
    assert_eq!(isqrt_u128(16), 4);
    assert_eq!(isqrt_u128(999_999), 999);
    assert_eq!(isqrt_u128(1_000_000), 1000);
}

#[test]
fn isqrt_large_values() {
    assert_eq!(isqrt_u128(u128::MAX), (1u128 << 64) - 1);
    assert_eq!(isqrt_u128(1u128 << 126), 1u128 << 63);
}

#[test]
fn vec2_componentwise_ops() {
    let a = v(3, -4).add(v(1, 2));
    assert_eq!((a.x, a.y), (4, -2));
    let s = v(3, -4).sub(v(1, 2));
    assert_eq!((s.x, s.y), (2, -6));
    let m = v(3, -4).scale(2);
    assert_eq!((m.x, m.y), (6, -8));
}

#[test]
fn vec2_abs_is_floor_norm() {
    assert_eq!(v(3, 4).abs(), 5);
    assert_eq!(v(-3, 4).abs(), 5);
    assert_eq!(v(0, 0).abs(), 0);
    assert_eq!(v(1, 1).abs(), 1);
    assert_eq!(v(10, 0).abs(), 10);
}

#[test]
fn line_len_is_endpoint_distance() {
    assert_eq!(Line(v(0, 0), v(3, 4)).len(), 5);
    assert_eq!(Line(v(1, 1), v(4, 5)).len(), 5);
    assert_eq!(Line(v(4, 5), v(1, 1)).len(), 5);
}

#[test]
fn intersect_hit_within_step() {
    // Probe from (995,0) to (1005,0) crosses the vertical barrier at x=1000
    // halfway through: distance 5 from the probe origin.
    let probe = Line(v(995, 0), v(1005, 0));
    let barrier = Line(v(1000, 1000), v(1000, -1000));
    assert_eq!(intersect(&probe, &barrier), Some(5));
}

#[test]
fn intersect_symmetric_in_barrier_endpoints() {
    let probe = Line(v(995, 0), v(1005, 0));
    let barrier = Line(v(1000, 1000), v(1000, -1000));
    let swapped = Line(v(1000, -1000), v(1000, 1000));
    assert_eq!(intersect(&probe, &barrier), intersect(&probe, &swapped));
    assert_eq!(intersect(&probe, &swapped), Some(5));
}

#[test]
fn intersect_none_when_barrier_out_of_reach() {
    // The barrier at x=1000 is a hundred step lengths ahead of this short
    // probe, so the forward test rejects it.
    let probe = Line(v(0, 0), v(10, 0));
    let barrier = Line(v(1000, 1000), v(1000, -1000));
    assert_eq!(intersect(&probe, &barrier), None);
}

#[test]
fn intersect_boundary_hit_at_segment_end() {
    // The barrier at x=1000 crosses this probe exactly at its far endpoint:
    // the forward test's sum threshold is met with equality and the hit
    // distance is the full step length. One step earlier, the crossing lies
    // just beyond the endpoint and the test rejects it.
    let barrier = Line(v(1000, 1000), v(1000, -1000));
    assert_eq!(intersect(&Line(v(990, 0), v(1000, 0)), &barrier), Some(10));
    assert_eq!(intersect(&Line(v(980, 0), v(990, 0)), &barrier), None);
}

#[test]
fn intersect_none_when_barrier_behind() {
    let probe = Line(v(0, 0), v(10, 0));
    let barrier = Line(v(-5, 1000), v(-5, -1000));
    assert_eq!(intersect(&probe, &barrier), None);
}

#[test]
fn intersect_none_when_collinear_degenerate() {
    // Barrier endpoints are collinear with the probe origin: the system's
    // denominator vanishes and there is no hit.
    let probe = Line(v(0, 0), v(10, 0));
    let barrier = Line(v(100, 0), v(200, 0));
    assert_eq!(intersect(&probe, &barrier), None);
}

#[test]
fn barr_check_empty_set_is_none() {
    let probe = Line(v(0, 0), v(10, 0));
    assert_eq!(barr_check(&probe, &Vec::new()), None);
}

#[test]
fn barr_check_keeps_nearest_hit() {
    // Two vertical barriers ahead of a long probe; the nearer one wins even
    // when it comes later in the list.
    let probe = Line(v(0, 0), v(1000, 0));
    let barriers = vec![
        Line(v(800, 1000), v(800, -1000)),
        Line(v(500, 1000), v(500, -1000)),
    ];
    assert_eq!(barr_check(&probe, &barriers), Some(500));
}

#[test]
fn barr_check_equal_distances_tie() {
    // Two barriers at the same distance: either may be reported, and both
    // have the same distance, so the result is pinned anyway.
    let probe = Line(v(0, 0), v(1000, 0));
    let barriers = vec![
        Line(v(500, 1000), v(500, -1000)),
        Line(v(500, -1000), v(500, 1000)),
    ];
    assert_eq!(barr_check(&probe, &barriers), Some(500));
}
