//! Plane geometry on the integer grid: vectors, segments, and the exact
//! forward-intersection test between a probe segment and a barrier, plus the
//! step-by-step march of a probe ray through a barrier set.

use vstd::prelude::*;

use crate::isqrt::{isqrt_u128, lemma_sqrt_floor_def, sqrt_floor};

verus! {

/// Every coordinate the engine works with stays within this bound, so that
/// all intermediate products of the intersection arithmetic fit in `i128`
/// and their squares fit in `u128`.
pub const COORD_LIMIT: i64 = 500_000;

/// Componentwise bound up to which `Vec2::abs` is defined; comfortably wider
/// than anything the marching loop produces.
pub const ABS_LIMIT: i64 = 1_000_000_000;

/// A point or displacement of the mathematical plane, unbounded integers.
pub ghost struct Pt {
    pub x: int,
    pub y: int,
}

/// A directed segment of the mathematical plane.
pub ghost struct Seg {
    pub a: Pt,
    pub b: Pt,
}

/// A 2D vector on the fixed-point grid.
#[derive(Debug, Clone, Copy)]
pub struct Vec2 {
    pub x: i64,
    pub y: i64,
}

impl View for Vec2 {
    type V = Pt;

    open spec fn view(&self) -> Pt {
        Pt { x: self.x as int, y: self.y as int }
    }
}

/// A directed line segment: a probe ray (origin towards origin + step) or a
/// fixed barrier edge.
#[derive(Debug, Clone, Copy)]
pub struct Line(pub Vec2, pub Vec2);

impl View for Line {
    type V = Seg;

    open spec fn view(&self) -> Seg {
        Seg { a: self.0@, b: self.1@ }
    }
}

pub open spec fn iabs(x: int) -> int {
    if x < 0 { -x } else { x }
}

pub open spec fn pt_sub(u: Pt, v: Pt) -> Pt {
    Pt { x: u.x - v.x, y: u.y - v.y }
}

/// The direction a segment points in: its endpoint relative to its start.
pub open spec fn seg_dir(s: Seg) -> Pt {
    pt_sub(s.b, s.a)
}

/// The floor of the Euclidean norm of a displacement.
pub open spec fn norm(p: Pt) -> int {
    sqrt_floor(p.x * p.x + p.y * p.y)
}

/// The floor of a segment's Euclidean length.
pub open spec fn seg_len(s: Seg) -> int {
    norm(seg_dir(s))
}

pub open spec fn pt_ok(p: Pt) -> bool {
    &&& -COORD_LIMIT <= p.x <= COORD_LIMIT
    &&& -COORD_LIMIT <= p.y <= COORD_LIMIT
}

pub open spec fn seg_ok(s: Seg) -> bool {
    pt_ok(s.a) && pt_ok(s.b)
}

proof fn lemma_mul_bound(x: int, y: int, m: int, n: int)
    by (nonlinear_arith)
    requires
        -m <= x <= m,
        -n <= y <= n,
        0 <= m,
        0 <= n,
    ensures
        -(m * n) <= x * y <= m * n,
{
}

/// The floor norm is sandwiched between the largest coordinate magnitude and
/// the sum of the two coordinate magnitudes.
pub proof fn lemma_norm_bounds(p: Pt)
    ensures
        0 <= norm(p),
        iabs(p.x) <= norm(p),
        iabs(p.y) <= norm(p),
        norm(p) <= iabs(p.x) + iabs(p.y),
{
    let q = p.x * p.x + p.y * p.y;
    let ax = iabs(p.x);
    let ay = iabs(p.y);
    assert(ax * ax == p.x * p.x && ay * ay == p.y * p.y) by (nonlinear_arith)
        requires
            ax == iabs(p.x),
            ay == iabs(p.y),
    ;
    assert(0 <= ax * ax && 0 <= ay * ay) by (nonlinear_arith);
    lemma_sqrt_floor_def(q);
    let r = norm(p);
    if r < ax {
        assert((r + 1) * (r + 1) <= ax * ax) by (nonlinear_arith)
            requires
                0 <= r,
                r + 1 <= ax,
        ;
    }
    if r < ay {
        assert((r + 1) * (r + 1) <= ay * ay) by (nonlinear_arith)
            requires
                0 <= r,
                r + 1 <= ay,
        ;
    }
    if ax + ay < r {
        assert(r * r > (ax + ay) * (ax + ay)) by (nonlinear_arith)
            requires
                0 <= ax,
                0 <= ay,
                ax + ay < r,
        ;
        assert((ax + ay) * (ax + ay) >= ax * ax + ay * ay) by (nonlinear_arith)
            requires
                0 <= ax,
                0 <= ay,
        ;
    }
}

/// A displacement that is not the zero vector has floor norm at least 1.
pub proof fn lemma_norm_pos(p: Pt)
    requires
        !(p.x == 0 && p.y == 0),
    ensures
        1 <= norm(p),
{
    lemma_norm_bounds(p);
}

impl Vec2 {
    /// Componentwise vector sum.
    pub fn add(self, rhs: Vec2) -> (r: Vec2)
        requires
            i64::MIN <= self@.x + rhs@.x <= i64::MAX,
            i64::MIN <= self@.y + rhs@.y <= i64::MAX,
        ensures
            r@ == (Pt { x: self@.x + rhs@.x, y: self@.y + rhs@.y }),
    {
        Vec2 { x: self.x + rhs.x, y: self.y + rhs.y }
    }

    /// Componentwise vector difference.
    pub fn sub(self, rhs: Vec2) -> (r: Vec2)
        requires
            i64::MIN <= self@.x - rhs@.x <= i64::MAX,
            i64::MIN <= self@.y - rhs@.y <= i64::MAX,
        ensures
            r@ == pt_sub(self@, rhs@),
    {
        Vec2 { x: self.x - rhs.x, y: self.y - rhs.y }
    }

    /// Uniform scaling by an integer factor.
    pub fn scale(self, k: i64) -> (r: Vec2)
        requires
            i64::MIN <= k * self@.x <= i64::MAX,
            i64::MIN <= k * self@.y <= i64::MAX,
        ensures
            r@ == (Pt { x: k * self@.x, y: k * self@.y }),
    {
        Vec2 { x: k * self.x, y: k * self.y }
    }

    /// Euclidean norm of the vector, rounded down to the grid.
    pub fn abs(&self) -> (r: i64)
        requires
            -ABS_LIMIT <= self@.x <= ABS_LIMIT,
            -ABS_LIMIT <= self@.y <= ABS_LIMIT,
        ensures
            r == norm(self@),
            0 <= r <= iabs(self@.x) + iabs(self@.y),
    {
        proof {
            lemma_mul_bound(self@.x, self@.x, ABS_LIMIT as int, ABS_LIMIT as int);
            lemma_mul_bound(self@.y, self@.y, ABS_LIMIT as int, ABS_LIMIT as int);
        }
        let q: i128 = (self.x as i128) * (self.x as i128) + (self.y as i128) * (self.y as i128);
        assert(0 <= q) by (nonlinear_arith)
            requires
                q == self@.x * self@.x + self@.y * self@.y,
        ;
        let r = isqrt_u128(q as u128);
        proof {
            lemma_norm_bounds(self@);
        }
        r as i64
    }
}

/// The 2D cross product of two displacements.
pub open spec fn cross(u: Pt, v: Pt) -> int {
    u.x * v.y - v.x * u.y
}

/// Denominator of the intersection system: the cross product of the two
/// barrier endpoints taken relative to the probe origin.
pub open spec fn inter_den(p: Seg, l: Seg) -> int {
    cross(pt_sub(l.a, p.a), pt_sub(l.b, p.a))
}

/// Numerator of the first barrier coordinate of the intersection.
pub open spec fn inter_nx(p: Seg, l: Seg) -> int {
    cross(seg_dir(p), pt_sub(l.b, p.a))
}

/// Numerator of the second barrier coordinate of the intersection.
pub open spec fn inter_ny(p: Seg, l: Seg) -> int {
    cross(pt_sub(l.a, p.a), seg_dir(p))
}

/// The forward-intersection test: both barrier coordinates of the solution
/// are non-negative and their sum is at least one, stated exactly over the
/// numerators (the inequalities flip with the denominator's sign). A zero
/// denominator is degenerate and never a hit.
pub open spec fn inter_hit(p: Seg, l: Seg) -> bool {
    let den = inter_den(p, l);
    let nx = inter_nx(p, l);
    let ny = inter_ny(p, l);
    if den > 0 {
        nx >= 0 && ny >= 0 && nx + ny >= den
    } else if den < 0 {
        nx <= 0 && ny <= 0 && nx + ny <= den
    } else {
        false
    }
}

/// Numerator of the intersection point's x, relative to the probe origin,
/// over the common denominator `inter_nx + inter_ny`.
pub open spec fn inter_px(p: Seg, l: Seg) -> int {
    inter_nx(p, l) * pt_sub(l.a, p.a).x + inter_ny(p, l) * pt_sub(l.b, p.a).x
}

/// Numerator of the intersection point's y, relative to the probe origin.
pub open spec fn inter_py(p: Seg, l: Seg) -> int {
    inter_nx(p, l) * pt_sub(l.a, p.a).y + inter_ny(p, l) * pt_sub(l.b, p.a).y
}

/// Distance from the probe origin to the intersection point, rounded down
/// to the grid: the floor of `|(px, py)| / |nx + ny|`.
pub open spec fn inter_dist(p: Seg, l: Seg) -> int {
    let s = inter_nx(p, l) + inter_ny(p, l);
    sqrt_floor(inter_px(p, l) * inter_px(p, l) + inter_py(p, l) * inter_py(p, l)) / iabs(s)
}

/// What a single probe-versus-barrier test returns: the forward hit
/// distance, or nothing when the test fails or the system is degenerate.
pub open spec fn intersect_spec(p: Seg, l: Seg) -> Option<int> {
    if inter_hit(p, l) {
        Some(inter_dist(p, l))
    } else {
        None
    }
}

/// On a hit the intersection point is a convex combination of the two
/// barrier endpoints: a weighted sum with same-sign weights stays within
/// the weight total times the coordinate bound.
proof fn lemma_combo_bound(nx: int, ny: int, u: int, w: int, c: int, t: int)
    by (nonlinear_arith)
    requires
        (nx >= 0 && ny >= 0) || (nx <= 0 && ny <= 0),
        -c <= u <= c,
        -c <= w <= c,
        0 <= c,
        t == nx + ny || t == -(nx + ny),
        0 <= t,
    ensures
        -(t * c) <= nx * u + ny * w <= t * c,
        0 <= t * c,
{
}

/// A forward hit within the coordinate box lies within a short multiple of
/// the box size of the probe origin.
pub proof fn lemma_inter_dist_bounds(p: Seg, l: Seg)
    requires
        seg_ok(p),
        seg_ok(l),
        inter_hit(p, l),
    ensures
        0 <= inter_dist(p, l) <= 3 * COORD_LIMIT,
{
    let nx = inter_nx(p, l);
    let ny = inter_ny(p, l);
    let s = nx + ny;
    let sa = iabs(s);
    let qx = inter_px(p, l);
    let qy = inter_py(p, l);
    let q = qx * qx + qy * qy;
    let c = 2 * COORD_LIMIT as int;
    let m = 3 * COORD_LIMIT as int;
    assert(s != 0);
    lemma_combo_bound(nx, ny, pt_sub(l.a, p.a).x, pt_sub(l.b, p.a).x, c, sa);
    lemma_combo_bound(nx, ny, pt_sub(l.a, p.a).y, pt_sub(l.b, p.a).y, c, sa);
    let tc = sa * c;
    assert(qx * qx <= tc * tc && qy * qy <= tc * tc && 0 <= qx * qx && 0 <= qy * qy)
        by (nonlinear_arith)
        requires
            -tc <= qx <= tc,
            -tc <= qy <= tc,
            0 <= tc,
    ;
    let s2 = sa * sa;
    let sm = sa * m;
    assert(tc * tc == 1_000_000_000_000 * s2) by (nonlinear_arith)
        requires
            tc == sa * c,
            c == 1_000_000,
            s2 == sa * sa,
    ;
    assert(sm * sm == 2_250_000_000_000 * s2) by (nonlinear_arith)
        requires
            sm == sa * m,
            m == 1_500_000,
            s2 == sa * sa,
    ;
    assert(s2 >= 1 && sm >= 1) by (nonlinear_arith)
        requires
            s2 == sa * sa,
            sm == sa * m,
            sa >= 1,
            m == 1_500_000,
    ;
    assert(q < sm * sm);
    lemma_sqrt_floor_def(q);
    let rt = sqrt_floor(q);
    assert(rt < sm) by (nonlinear_arith)
        requires
            0 <= rt,
            rt * rt <= q,
            q < sm * sm,
            0 <= sm,
    ;
    vstd::arithmetic::div_mod::lemma_div_pos_is_pos(rt, sa);
    vstd::arithmetic::div_mod::lemma_multiply_divide_lt(rt, sa, m);
}

/// Exact forward intersection of a probe segment with one barrier, the
/// integer counterpart of solving the 2x2 linear system for the two
/// barrier-relative coordinates: `Some` exactly when the forward test
/// accepts, carrying the floor of the Euclidean distance from the probe
/// origin to the intersection point.
pub fn intersect(arrow: &Line, line: &Line) -> (r: Option<i64>)
    requires
        seg_ok(arrow@),
        seg_ok(line@),
    ensures
        r is Some <==> inter_hit(arrow@, line@),
        r matches Some(d) ==> d == inter_dist(arrow@, line@) && 0 <= d <= 3 * COORD_LIMIT,
{
    let ax: i128 = line.0.x as i128 - arrow.0.x as i128;
    let ay: i128 = line.0.y as i128 - arrow.0.y as i128;
    let bx: i128 = line.1.x as i128 - arrow.0.x as i128;
    let by: i128 = line.1.y as i128 - arrow.0.y as i128;
    let vx: i128 = arrow.1.x as i128 - arrow.0.x as i128;
    let vy: i128 = arrow.1.y as i128 - arrow.0.y as i128;
    let ghost c = 2 * COORD_LIMIT as int;
    proof {
        lemma_mul_bound(ax as int, by as int, c, c);
        lemma_mul_bound(bx as int, ay as int, c, c);
        lemma_mul_bound(vx as int, by as int, c, c);
        lemma_mul_bound(bx as int, vy as int, c, c);
        lemma_mul_bound(ax as int, vy as int, c, c);
        lemma_mul_bound(vx as int, ay as int, c, c);
        assert(c * c == 1_000_000_000_000) by (nonlinear_arith)
            requires
                c == 1_000_000,
        ;
    }
    let den: i128 = ax * by - bx * ay;
    let nx: i128 = vx * by - bx * vy;
    let ny: i128 = ax * vy - vx * ay;
    assert(den == inter_den(arrow@, line@));
    assert(nx == inter_nx(arrow@, line@));
    assert(ny == inter_ny(arrow@, line@));
    let hit = if den > 0 {
        nx >= 0 && ny >= 0 && nx + ny >= den
    } else if den < 0 {
        nx <= 0 && ny <= 0 && nx + ny <= den
    } else {
        false
    };
    if !hit {
        return None;
    }
    let s: i128 = nx + ny;
    let sa: i128 = if s < 0 { -s } else { s };
    let ghost n2 = 2_000_000_000_000int;
    proof {
        lemma_mul_bound(nx as int, ax as int, n2, c);
        lemma_mul_bound(ny as int, bx as int, n2, c);
        lemma_mul_bound(nx as int, ay as int, n2, c);
        lemma_mul_bound(ny as int, by as int, n2, c);
        assert(n2 * c == 2_000_000_000_000_000_000) by (nonlinear_arith)
            requires
                n2 == 2_000_000_000_000,
                c == 1_000_000,
        ;
    }
    let qx: i128 = nx * ax + ny * bx;
    let qy: i128 = nx * ay + ny * by;
    assert(qx == inter_px(arrow@, line@));
    assert(qy == inter_py(arrow@, line@));
    let ghost q3 = 4_000_000_000_000_000_000int;
    proof {
        lemma_mul_bound(qx as int, qx as int, q3, q3);
        lemma_mul_bound(qy as int, qy as int, q3, q3);
        assert(q3 * q3 == 16_000_000_000_000_000_000_000_000_000_000_000_000) by (nonlinear_arith)
            requires
                q3 == 4_000_000_000_000_000_000,
        ;
        assert(0 <= qx * qx && 0 <= qy * qy) by (nonlinear_arith);
    }
    let q: i128 = qx * qx + qy * qy;
    let rt: u128 = isqrt_u128(q as u128);
    let d: u128 = rt / (sa as u128);
    proof {
        lemma_inter_dist_bounds(arrow@, line@);
    }
    Some(d as i64)
}

/// The smaller of two optional hit distances; `None` means no hit, and an
/// earlier tie wins, as the fold in the scan keeps the first minimum.
pub open spec fn opt_min(a: Option<int>, b: Option<int>) -> Option<int> {
    match a {
        Option::None => b,
        Option::Some(x) => match b {
            Option::None => a,
            Option::Some(y) => if x <= y {
                a
            } else {
                b
            },
        },
    }
}

/// The nearest forward hit of a probe against an ordered barrier sequence:
/// the minimum over all per-barrier hit distances, or `None` when no
/// barrier is crossed.
pub open spec fn nearest_spec(p: Seg, bs: Seq<Seg>) -> Option<int>
    decreases bs.len(),
{
    if bs.len() == 0 {
        None
    } else {
        opt_min(nearest_spec(p, bs.drop_last()), intersect_spec(p, bs.last()))
    }
}

/// The mathematical segments behind a vector of grid segments.
pub open spec fn seg_views(bs: Seq<Line>) -> Seq<Seg> {
    bs.map_values(|l: Line| l@)
}

pub open spec fn barriers_ok(bs: Seq<Seg>) -> bool {
    forall|i: int| 0 <= i < bs.len() ==> seg_ok(#[trigger] bs[i])
}

/// Nearest barrier hit for one probe segment: evaluates the forward
/// intersection against every barrier and keeps the smallest distance.
/// `Some` exactly when some barrier yields a forward hit.
pub fn barr_check(arrow: &Line, barriers: &Vec<Line>) -> (r: Option<i64>)
    requires
        seg_ok(arrow@),
        barriers_ok(seg_views(barriers@)),
    ensures
        r is Some <==> nearest_spec(arrow@, seg_views(barriers@)) is Some,
        r matches Some(d) ==> nearest_spec(arrow@, seg_views(barriers@)) == Some(d as int) && 0
            <= d <= 3 * COORD_LIMIT,
{
    let ghost bs = seg_views(barriers@);
    let mut best: Option<i64> = None;
    let mut i: usize = 0;
    while i < barriers.len()
        invariant
            i <= barriers@.len(),
            bs == seg_views(barriers@),
            seg_ok(arrow@),
            barriers_ok(bs),
            best is Some <==> nearest_spec(arrow@, bs.take(i as int)) is Some,
            best matches Some(d) ==> nearest_spec(arrow@, bs.take(i as int)) == Some(d as int)
                && 0 <= d <= 3 * COORD_LIMIT,
        decreases barriers@.len() - i,
    {
        proof {
            assert(bs[i as int] == barriers@[i as int]@);
        }
        let cur = intersect(arrow, &barriers[i]);
        proof {
            assert(bs.take(i + 1).drop_last() =~= bs.take(i as int));
            assert(bs.take(i + 1).last() == bs[i as int]);
        }
        match cur {
            None => {},
            Some(d) => {
                match best {
                    None => {
                        best = Some(d);
                    },
                    Some(b) => {
                        if d < b {
                            best = Some(d);
                        }
                    },
                }
            },
        }
        i = i + 1;
    }
    proof {
        assert(bs.take(barriers@.len() as int) =~= bs);
    }
    best
}

/// One marching step: continue in a straight line from the segment's far
/// endpoint, extrapolating forward by doubling.
pub open spec fn advance(s: Seg) -> Seg {
    Seg { a: s.b, b: Pt { x: 2 * s.b.x - s.a.x, y: 2 * s.b.y - s.a.y } }
}

/// Travel budget left to a marching state; the march recursion consumes it.
pub open spec fn march_fuel(dist: int, max: int) -> nat {
    if dist >= max {
        0
    } else {
        (max - dist) as nat
    }
}

/// The march state machine as a mathematical function. From state
/// `(s, dist)`: a nearest hit at distance `d` terminates with `dist + d`;
/// exhausted budget terminates with `max`; otherwise the probe advances one
/// step and accumulates the step's length. Meaningful for probe segments of
/// positive grid length, which is what makes the recursion terminate.
pub open spec fn march_spec(s: Seg, bs: Seq<Seg>, dist: int, max: int) -> int
    decreases march_fuel(dist, max),
        when seg_len(s) >= 1
{
    match nearest_spec(s, bs) {
        Option::Some(d) => dist + d,
        Option::None => if dist >= max {
            max
        } else {
            march_spec(advance(s), bs, dist + seg_len(s), max)
        },
    }
}

/// The marching loop stays inside the coordinate box: the probe origin,
/// the whole travel budget and two extra steps of slack fit within the
/// limit, the step vector is not zero, and every barrier is in the box.
pub open spec fn rtx_pre(s: Seg, bs: Seq<Seg>, max: int) -> bool {
    let v = seg_dir(s);
    &&& barriers_ok(bs)
    &&& 0 <= max
    &&& !(v.x == 0 && v.y == 0)
    &&& iabs(s.a.x) + max + 2 * (iabs(v.x) + iabs(v.y)) <= COORD_LIMIT
    &&& iabs(s.a.y) + max + 2 * (iabs(v.x) + iabs(v.y)) <= COORD_LIMIT
}

/// March one probe ray through the barrier set: advance the probe segment
/// step by step until a barrier is crossed, returning the accumulated
/// distance plus the hit distance, or `max_dist` once the budget is spent.
pub fn rtx(arrow: Line, barriers: &Vec<Line>, max_dist: i64) -> (r: i64)
    requires
        rtx_pre(arrow@, seg_views(barriers@), max_dist as int),
    ensures
        r == march_spec(arrow@, seg_views(barriers@), 0, max_dist as int),
        0 <= r,
{
    let ghost bs = seg_views(barriers@);
    let ghost s0 = arrow@;
    let ghost v = seg_dir(s0);
    let mut arrow = arrow;
    let mut dist: i64 = 0;
    proof {
        lemma_norm_pos(v);
        lemma_norm_bounds(v);
    }
    let mut check = barr_check(&arrow, barriers);
    while check.is_none() && dist < max_dist
        invariant
            bs == seg_views(barriers@),
            barriers_ok(bs),
            0 <= dist <= 2 * COORD_LIMIT,
            0 <= max_dist <= COORD_LIMIT,
            iabs(v.x) + iabs(v.y) <= COORD_LIMIT,
            v == seg_dir(s0),
            seg_dir(arrow@) == v,
            1 <= seg_len(arrow@) <= iabs(v.x) + iabs(v.y),
            iabs(v.x) <= seg_len(arrow@) && iabs(v.y) <= seg_len(arrow@),
            iabs(arrow@.a.x) + (max_dist - dist) + 2 * (iabs(v.x) + iabs(v.y)) <= COORD_LIMIT,
            iabs(arrow@.a.y) + (max_dist - dist) + 2 * (iabs(v.x) + iabs(v.y)) <= COORD_LIMIT,
            seg_ok(arrow@),
            march_spec(s0, bs, 0, max_dist as int) == march_spec(
                arrow@,
                bs,
                dist as int,
                max_dist as int,
            ),
            check is Some <==> nearest_spec(arrow@, bs) is Some,
            check matches Some(d) ==> nearest_spec(arrow@, bs) == Some(d as int) && 0 <= d <= 3
                * COORD_LIMIT,
        decreases march_fuel(dist as int, max_dist as int),
    {
        let ghost prev = arrow@;
        let ghost pdist = dist as int;
        let step = arrow.len();
        dist = dist + step;
        arrow = Line(arrow.1, arrow.1.scale(2).sub(arrow.0));
        proof {
            assert(arrow@ == advance(prev));
            assert(seg_dir(arrow@) == v);
            assert(seg_len(arrow@) == seg_len(prev)) by {
                assert(seg_dir(arrow@) == seg_dir(prev));
            }
            assert(march_spec(prev, bs, pdist, max_dist as int) == march_spec(
                arrow@,
                bs,
                pdist + seg_len(prev),
                max_dist as int,
            ));
        }
        check = barr_check(&arrow, barriers);
    }
    match check {
        Some(add) => dist + add,
        None => max_dist,
    }
}

/// With no barrier present the march spends its whole travel budget and
/// returns exactly the maximum distance, whatever the probe is.
pub proof fn lemma_march_no_barriers(s: Seg, bs: Seq<Seg>, dist: int, max: int)
    requires
        bs.len() == 0,
        1 <= seg_len(s),
    ensures
        march_spec(s, bs, dist, max) == max,
    decreases march_fuel(dist, max),
{
    assert(nearest_spec(s, bs) is None);
    if dist < max {
        assert(seg_dir(advance(s)) == seg_dir(s));
        lemma_march_no_barriers(advance(s), bs, dist + seg_len(s), max);
    }
}

/// If the very first probe segment already crosses some barrier, at
/// nearest distance `d`, the march terminates at once with exactly `d`:
/// no step length or maximum range enters the result.
pub proof fn lemma_march_first_hit(s: Seg, bs: Seq<Seg>, max: int, d: int)
    requires
        nearest_spec(s, bs) == Some(d),
        1 <= seg_len(s),
    ensures
        march_spec(s, bs, 0, max) == d,
{
}

/// A barrier with its endpoints swapped.
pub open spec fn seg_rev(l: Seg) -> Seg {
    Seg { a: l.b, b: l.a }
}

/// Reversing a barrier's endpoint order changes neither the outcome of the
/// forward-intersection test nor the hit distance.
pub proof fn lemma_intersect_symmetric(p: Seg, l: Seg)
    ensures
        intersect_spec(p, seg_rev(l)) == intersect_spec(p, l),
{
    let r = seg_rev(l);
    let nx = inter_nx(p, l);
    let ny = inter_ny(p, l);
    let ax = pt_sub(l.a, p.a).x;
    let ay = pt_sub(l.a, p.a).y;
    let bx = pt_sub(l.b, p.a).x;
    let by = pt_sub(l.b, p.a).y;
    assert(inter_nx(p, r) == -ny && inter_ny(p, r) == -nx);
    assert(inter_den(p, r) == -inter_den(p, l));
    assert(inter_hit(p, r) == inter_hit(p, l));
    if inter_hit(p, l) {
        assert((-ny) * bx == -(ny * bx) && (-nx) * ax == -(nx * ax) && (-ny) * by == -(ny * by)
            && (-nx) * ay == -(nx * ay)) by (nonlinear_arith);
        assert(inter_px(p, r) == -inter_px(p, l));
        assert(inter_py(p, r) == -inter_py(p, l));
        assert(inter_px(p, r) * inter_px(p, r) == inter_px(p, l) * inter_px(p, l))
            by (nonlinear_arith)
            requires
                inter_px(p, r) == -inter_px(p, l),
        ;
        assert(inter_py(p, r) * inter_py(p, r) == inter_py(p, l) * inter_py(p, l))
            by (nonlinear_arith)
            requires
                inter_py(p, r) == -inter_py(p, l),
        ;
        assert(inter_dist(p, r) == inter_dist(p, l));
    }
}

impl Line {
    /// Euclidean length of the segment, rounded down to the grid.
    pub fn len(&self) -> (r: i64)
        requires
            seg_ok(self@),
        ensures
            r == seg_len(self@),
            0 <= r <= iabs(seg_dir(self@).x) + iabs(seg_dir(self@).y),
    {
        let d = self.0.sub(self.1);
        proof {
            let u = pt_sub(self@.a, self@.b);
            let v = seg_dir(self@);
            assert(u.x * u.x == v.x * v.x && u.y * u.y == v.y * v.y) by (nonlinear_arith)
                requires
                    u.x == -v.x,
                    u.y == -v.y,
            ;
        }
        d.abs()
    }
}

} // verus!
