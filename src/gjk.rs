use vstd::prelude::*;

use crate::point::{sym_fits, Point};
use crate::shape::ConvexShape;
use crate::support::{
    average_of, get_average, gjk_get_support_function, is_first_max, sum_of, xs, ys,
};

verus! {

/// Every difference of a vertex of `a` and a vertex of `b` can be negated.
pub open spec fn diffs_negatable(a: Seq<Point>, b: Seq<Point>) -> bool {
    forall|i: int, j: int|
        #![trigger a[i], b[j]]
        0 <= i < a.len() && 0 <= j < b.len() ==> sym_fits(a[i].x - b[j].x) && sym_fits(
            a[i].y - b[j].y,
        )
}

/// `p` is the support point of the Minkowski difference `a - b` in direction `d`: the
/// support point of `a` along `d` minus that of `b` along `-d`.
pub open spec fn is_support_of_difference(a: Seq<Point>, b: Seq<Point>, d: Point, p: Point) -> bool {
    exists|k: int, m: int|
        is_first_max(a, d, k) && is_first_max(b, Point { x: -d.x as i32, y: -d.y as i32 }, m)
            && p.x == a[k].x - b[m].x && p.y == a[k].y - b[m].y
}

/// The support point of the Minkowski difference of two vertex lists in direction `d`.
pub fn minkowski_support(a: &Vec<Point>, b: &Vec<Point>, d: Point) -> (r: Point)
    requires
        a.len() > 0,
        b.len() > 0,
        diffs_negatable(a@, b@),
        d.x != i32::MIN,
        d.y != i32::MIN,
    ensures
        is_support_of_difference(a@, b@, d, r),
        sym_fits(r.x as int),
        sym_fits(r.y as int),
{
    let sa = gjk_get_support_function(a, d);
    let nd = d.negated();
    let sb = gjk_get_support_function(b, nd);
    let ghost k = choose|k: int| is_first_max(a@, d, k) && sa == a[k];
    let ghost m = choose|m: int| is_first_max(b@, nd, m) && sb == b[m];
    assert(sym_fits(a[k].x - b[m].x) && sym_fits(a[k].y - b[m].y));
    sa.minus(sb)
}

/// The first two probes of a GJK search on two shapes.
#[derive(Clone, Copy, Debug, PartialEq, Eq, Structural)]
pub struct GjkProbe {
    /// Average of the first shape's vertices.
    pub centroid_a: Point,
    /// Average of the second shape's vertices.
    pub centroid_b: Point,
    /// Support point of the difference along `centroid_a - centroid_b`.
    pub first: Point,
    /// Support point of the difference along `-first`, toward the origin.
    pub second: Point,
}

proof fn lemma_some_below(t: Seq<int>)
    requires
        t.len() > 0,
    ensures
        exists|k: int| 0 <= k < t.len() && #[trigger] t[k] * t.len() <= sum_of(t),
    decreases t.len(),
{
    let n = t.len() as int;
    let e = t.last();
    if n == 1 {
        assert(sum_of(t.drop_last()) == 0);
        assert(sum_of(t) == t[0]);
        assert(t[0] * t.len() <= sum_of(t)) by (nonlinear_arith)
            requires
                t.len() == 1,
                sum_of(t) == t[0],
        ;
    } else {
        let u = t.drop_last();
        lemma_some_below(u);
        let i = choose|i: int| 0 <= i < u.len() && #[trigger] u[i] * u.len() <= sum_of(u);
        if e * n <= sum_of(t) {
            assert(t[n - 1] * t.len() <= sum_of(t));
        } else {
            let s = sum_of(u);
            let ui = u[i];
            assert(ui * n <= s + e) by (nonlinear_arith)
                requires
                    n > 1,
                    ui * (n - 1) <= s,
                    e * n > s + e,
            ;
            assert(t[i] * t.len() <= sum_of(t));
        }
    }
}

proof fn lemma_some_above(t: Seq<int>)
    requires
        t.len() > 0,
    ensures
        exists|k: int| 0 <= k < t.len() && #[trigger] t[k] * t.len() >= sum_of(t),
    decreases t.len(),
{
    let n = t.len() as int;
    let e = t.last();
    if n == 1 {
        assert(sum_of(t.drop_last()) == 0);
        assert(sum_of(t) == t[0]);
        assert(t[0] * t.len() >= sum_of(t)) by (nonlinear_arith)
            requires
                t.len() == 1,
                sum_of(t) == t[0],
        ;
    } else {
        let u = t.drop_last();
        lemma_some_above(u);
        let i = choose|i: int| 0 <= i < u.len() && #[trigger] u[i] * u.len() >= sum_of(u);
        if e * n >= sum_of(t) {
            assert(t[n - 1] * t.len() >= sum_of(t));
        } else {
            let s = sum_of(u);
            let ui = u[i];
            assert(ui * n >= s + e) by (nonlinear_arith)
                requires
                    n > 1,
                    ui * (n - 1) >= s,
                    e * n < s + e,
            ;
            assert(t[i] * t.len() >= sum_of(t));
        }
    }
}

/// The rounded-down average of a non-empty list lies between two of its elements.
proof fn lemma_average_between(t: Seq<int>)
    requires
        t.len() > 0,
    ensures
        exists|k: int| 0 <= k < t.len() && #[trigger] t[k] <= sum_of(t) / (t.len() as int),
        exists|k: int| 0 <= k < t.len() && sum_of(t) / (t.len() as int) <= #[trigger] t[k],
{
    let n = t.len() as int;
    let v = sum_of(t);
    lemma_some_below(t);
    lemma_some_above(t);
    let k = choose|k: int| 0 <= k < t.len() && #[trigger] t[k] * t.len() <= sum_of(t);
    let m = choose|k: int| 0 <= k < t.len() && #[trigger] t[k] * t.len() >= sum_of(t);
    vstd::arithmetic::div_mod::lemma_fundamental_div_mod(v, n);
    let q = v / n;
    let r = v % n;
    let tk = t[k];
    let tm = t[m];
    assert(tk <= q) by (nonlinear_arith)
        requires
            n > 0,
            v == n * q + r,
            0 <= r < n,
            tk * n <= v,
    ;
    assert(q <= tm) by (nonlinear_arith)
        requires
            n > 0,
            v == n * q + r,
            0 <= r,
            tm * n >= v,
    ;
}

/// The centroids of two shapes are as far apart as some pair of their vertices allows.
proof fn lemma_centroid_difference(a: Seq<Point>, b: Seq<Point>)
    requires
        a.len() > 0,
        b.len() > 0,
        diffs_negatable(a, b),
    ensures
        sym_fits(average_of(a).0 - average_of(b).0),
        sym_fits(average_of(a).1 - average_of(b).1),
{
    lemma_average_between(xs(a));
    lemma_average_between(xs(b));
    lemma_average_between(ys(a));
    lemma_average_between(ys(b));
    let ka = choose|k: int| 0 <= k < xs(a).len() && #[trigger] xs(a)[k] <= sum_of(xs(a)) / (xs(a).len() as int);
    let ma = choose|k: int| 0 <= k < xs(a).len() && sum_of(xs(a)) / (xs(a).len() as int) <= #[trigger] xs(a)[k];
    let kb = choose|k: int| 0 <= k < xs(b).len() && #[trigger] xs(b)[k] <= sum_of(xs(b)) / (xs(b).len() as int);
    let mb = choose|k: int| 0 <= k < xs(b).len() && sum_of(xs(b)) / (xs(b).len() as int) <= #[trigger] xs(b)[k];
    assert(sym_fits(a[ka].x - b[mb].x));
    assert(sym_fits(a[ma].x - b[kb].x));
    let ka = choose|k: int| 0 <= k < ys(a).len() && #[trigger] ys(a)[k] <= sum_of(ys(a)) / (ys(a).len() as int);
    let ma = choose|k: int| 0 <= k < ys(a).len() && sum_of(ys(a)) / (ys(a).len() as int) <= #[trigger] ys(a)[k];
    let kb = choose|k: int| 0 <= k < ys(b).len() && #[trigger] ys(b)[k] <= sum_of(ys(b)) / (ys(b).len() as int);
    let mb = choose|k: int| 0 <= k < ys(b).len() && sum_of(ys(b)) / (ys(b).len() as int) <= #[trigger] ys(b)[k];
    assert(sym_fits(a[ka].y - b[mb].y));
    assert(sym_fits(a[ma].y - b[kb].y));
}

/// One step of a GJK search between `shape` and `other`: the first search direction runs
/// from the centroid of `other` to that of `shape`, and the second from the first support
/// point of the Minkowski difference `shape - other` back toward the origin.
pub fn gjk_probe(shape: &ConvexShape, other: &ConvexShape) -> (r: GjkProbe)
    requires
        shape.vertices.len() > 0,
        other.vertices.len() > 0,
        diffs_negatable(shape.vertices@, other.vertices@),
    ensures
        (r.centroid_a.x as int, r.centroid_a.y as int) == average_of(shape.vertices@),
        (r.centroid_b.x as int, r.centroid_b.y as int) == average_of(other.vertices@),
        is_support_of_difference(
            shape.vertices@,
            other.vertices@,
            Point {
                x: (r.centroid_a.x - r.centroid_b.x) as i32,
                y: (r.centroid_a.y - r.centroid_b.y) as i32,
            },
            r.first,
        ),
        is_support_of_difference(
            shape.vertices@,
            other.vertices@,
            Point { x: -r.first.x as i32, y: -r.first.y as i32 },
            r.second,
        ),
{
    let ca = get_average(&shape.vertices);
    let cb = get_average(&other.vertices);
    proof {
        lemma_centroid_difference(shape.vertices@, other.vertices@);
    }
    let direction = ca.minus(cb);
    let first = minkowski_support(&shape.vertices, &other.vertices, direction);
    let second = minkowski_support(&shape.vertices, &other.vertices, first.negated());
    GjkProbe { centroid_a: ca, centroid_b: cb, first, second }
}

} // verus!
