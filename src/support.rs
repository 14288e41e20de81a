use vstd::prelude::*;

use crate::point::{dot, Point};

verus! {

/// `k` is the first index of `s` whose point lies farthest along `d`.
pub open spec fn is_first_max(s: Seq<Point>, d: Point, k: int) -> bool {
    &&& 0 <= k < s.len()
    &&& forall|j: int| 0 <= j < s.len() ==> dot(#[trigger] s[j], d) <= dot(s[k], d)
    &&& forall|j: int| 0 <= j < k ==> dot(#[trigger] s[j], d) < dot(s[k], d)
}

/// The support point of a vertex list in direction `d`: the vertex with the largest dot
/// product with `d`, the first one among equals.
pub fn gjk_get_support_function(list: &Vec<Point>, direction: Point) -> (r: Point)
    requires
        list.len() > 0,
    ensures
        exists|k: int| is_first_max(list@, direction, k) && r == list[k],
{
    let mut best: usize = 0;
    let mut best_dot: i128 = list[0].dot(direction);
    let mut i: usize = 1;
    while i < list.len()
        invariant
            0 <= best < i <= list.len(),
            best_dot == dot(list[best as int], direction),
            forall|j: int| 0 <= j < i ==> dot(#[trigger] list[j], direction) <= best_dot,
            forall|j: int| 0 <= j < best ==> dot(#[trigger] list[j], direction) < best_dot,
        decreases list.len() - i,
    {
        let d = list[i].dot(direction);
        if d > best_dot {
            best_dot = d;
            best = i;
        }
        i = i + 1;
    }
    assert(is_first_max(list@, direction, best as int));
    list[best]
}

/// The x coordinates of a point list.
pub open spec fn xs(s: Seq<Point>) -> Seq<int> {
    s.map_values(|p: Point| p.x as int)
}

/// The y coordinates of a point list.
pub open spec fn ys(s: Seq<Point>) -> Seq<int> {
    s.map_values(|p: Point| p.y as int)
}

/// The sum of a list of integers.
pub open spec fn sum_of(s: Seq<int>) -> int
    decreases s.len(),
{
    if s.len() == 0 {
        0
    } else {
        sum_of(s.drop_last()) + s.last()
    }
}

/// The average of a non-empty vertex list, each coordinate rounded down.
pub open spec fn average_of(s: Seq<Point>) -> (int, int) {
    (sum_of(xs(s)) / (s.len() as int), sum_of(ys(s)) / (s.len() as int))
}

proof fn lemma_prefix_step(s: Seq<Point>, i: int)
    requires
        0 <= i < s.len(),
    ensures
        sum_of(xs(s.take(i + 1))) == sum_of(xs(s.take(i))) + s[i].x,
        sum_of(ys(s.take(i + 1))) == sum_of(ys(s.take(i))) + s[i].y,
{
    assert(xs(s.take(i + 1)).drop_last() =~= xs(s.take(i)));
    assert(ys(s.take(i + 1)).drop_last() =~= ys(s.take(i)));
}

proof fn lemma_floor_div_in_range(v: int, n: int)
    requires
        n > 0,
        n * (i32::MIN as int) <= v <= n * (i32::MAX as int),
    ensures
        i32::MIN <= v / n <= i32::MAX,
{
    let q = v / n;
    let r = v % n;
    vstd::arithmetic::div_mod::lemma_fundamental_div_mod(v, n);
    assert(i32::MIN <= q <= i32::MAX) by (nonlinear_arith)
        requires
            n > 0,
            v == n * q + r,
            0 <= r < n,
            n * (i32::MIN as int) <= v <= n * (i32::MAX as int),
    ;
}

/// The average of a vertex list, each coordinate rounded down.
pub fn get_average(list: &Vec<Point>) -> (r: Point)
    requires
        list.len() > 0,
    ensures
        (r.x as int, r.y as int) == average_of(list@),
{
    let n = list.len();
    let mut sx: i128 = 0;
    let mut sy: i128 = 0;
    let mut i: usize = 0;
    while i < n
        invariant
            n == list.len(),
            i <= n,
            sx == sum_of(xs(list@.take(i as int))),
            sy == sum_of(ys(list@.take(i as int))),
            i * (i32::MIN as int) <= sx <= i * (i32::MAX as int),
            i * (i32::MIN as int) <= sy <= i * (i32::MAX as int),
        decreases n - i,
    {
        proof {
            lemma_prefix_step(list@, i as int);
            assert(i * (i32::MIN as int) <= sx <= i * (i32::MAX as int) ==> (i + 1) * (i32::MIN as int)
                <= sx + list[i as int].x <= (i + 1) * (i32::MAX as int)) by (nonlinear_arith);
            assert(i * (i32::MIN as int) <= sy <= i * (i32::MAX as int) ==> (i + 1) * (i32::MIN as int)
                <= sy + list[i as int].y <= (i + 1) * (i32::MAX as int)) by (nonlinear_arith);
            assert(i < 0x1_0000_0000_0000_0000 ==> -0x1_0000_0000_0000_0000 * 0x8000_0000 <= (i + 1)
                * (i32::MIN as int) && (i + 1) * (i32::MAX as int) <= 0x1_0000_0000_0000_0000
                * 0x8000_0000) by (nonlinear_arith);
        }
        sx = sx + list[i].x as i128;
        sy = sy + list[i].y as i128;
        i = i + 1;
    }
    assert(list@.take(n as int) =~= list@);
    proof {
        lemma_floor_div_in_range(sx as int, n as int);
        lemma_floor_div_in_range(sy as int, n as int);
    }
    let qx = match sx.checked_div_euclid(n as i128) {
        Some(q) => q,
        None => 0,
    };
    let qy = match sy.checked_div_euclid(n as i128) {
        Some(q) => q,
        None => 0,
    };
    Point { x: qx as i32, y: qy as i32 }
}

} // verus!
