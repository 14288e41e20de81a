use vstd::prelude::*;

use crate::point::{can_add, can_sub, Point};

verus! {

/// A polygon given by its vertices in order.
#[derive(Clone, Debug)]
pub struct ConvexShape {
    pub vertices: Vec<Point>,
}

/// Every vertex of `s` can be moved by `t`.
pub open spec fn all_can_add(s: Seq<Point>, t: Point) -> bool {
    forall|i: int| 0 <= i < s.len() ==> can_add(#[trigger] s[i], t)
}

/// Every difference of a vertex of `a` and a vertex of `b` is representable.
pub open spec fn all_can_sub(a: Seq<Point>, b: Seq<Point>) -> bool {
    forall|i: int, j: int|
        0 <= i < a.len() && 0 <= j < b.len() ==> can_sub(#[trigger] a[i], #[trigger] b[j])
}

/// `a - b`, over unbounded integers.
pub open spec fn diff(a: Point, b: Point) -> (int, int) {
    (a.x - b.x, a.y - b.y)
}

/// The list with every point moved by `t`.
pub fn move_verticee_list(list: &Vec<Point>, translate: Point) -> (r: Vec<Point>)
    requires
        all_can_add(list@, translate),
    ensures
        r.len() == list.len(),
        forall|i: int|
            0 <= i < list.len() ==> r[i].x == list[i].x + translate.x && r[i].y == list[i].y
                + translate.y,
{
    let mut newlist: Vec<Point> = Vec::new();
    let mut i: usize = 0;
    while i < list.len()
        invariant
            i <= list.len(),
            all_can_add(list@, translate),
            newlist.len() == i,
            forall|k: int|
                0 <= k < i ==> newlist[k].x == list[k].x + translate.x && newlist[k].y
                    == list[k].y + translate.y,
        decreases list.len() - i,
    {
        assert(can_add(list@[i as int], translate));
        newlist.push(list[i].plus(translate));
        i = i + 1;
    }
    newlist
}

proof fn lemma_flat_index(i: int, j: int, n1: int, n2: int)
    requires
        0 <= i < n1,
        0 <= j < n2,
    ensures
        0 <= i * n2 + j < n1 * n2,
        (i * n2 + j) / n2 == i,
        (i * n2 + j) % n2 == j,
{
    assert(0 <= i * n2 + j < n1 * n2) by (nonlinear_arith)
        requires
            0 <= i < n1,
            0 <= j < n2,
    ;
    vstd::arithmetic::div_mod::lemma_fundamental_div_mod_converse(i * n2 + j, n2, i, j);
}

/// Every difference `a - b` of a vertex `a` of `shape1` and a vertex `b` of `shape2`, the
/// vertices of `shape1` in the outer order and those of `shape2` in the inner one.
pub fn make_minkowsky_sum(shape1: &ConvexShape, shape2: &ConvexShape) -> (r: Vec<Point>)
    requires
        all_can_sub(shape1.vertices@, shape2.vertices@),
        shape1.vertices.len() * shape2.vertices.len() <= usize::MAX,
    ensures
        r.len() == shape1.vertices.len() * shape2.vertices.len(),
        forall|i: int, j: int|
            0 <= i < shape1.vertices.len() && 0 <= j < shape2.vertices.len() ==> {
                let p = #[trigger] r[i * shape2.vertices.len() + j];
                (p.x as int, p.y as int) == diff(shape1.vertices[i], shape2.vertices[j])
            },
{
    let a = &shape1.vertices;
    let b = &shape2.vertices;
    let n2 = b.len();
    let mut newlist: Vec<Point> = Vec::new();
    let mut i: usize = 0;
    while i < a.len()
        invariant
            a == shape1.vertices,
            b == shape2.vertices,
            n2 == b.len(),
            i <= a.len(),
            all_can_sub(a@, b@),
            newlist.len() == i * n2,
            forall|k: int, j: int|
                0 <= k < i && 0 <= j < n2 ==> {
                    let p = #[trigger] newlist[k * n2 + j];
                    (p.x as int, p.y as int) == diff(a[k], b[j])
                },
        decreases a.len() - i,
    {
        let mut j: usize = 0;
        while j < n2
            invariant
                a == shape1.vertices,
                b == shape2.vertices,
                n2 == b.len(),
                i < a.len(),
                j <= n2,
                all_can_sub(a@, b@),
                newlist.len() == i * n2 + j,
                forall|k: int, l: int|
                    0 <= k < i && 0 <= l < n2 ==> {
                        let p = #[trigger] newlist[k * n2 + l];
                        (p.x as int, p.y as int) == diff(a[k], b[l])
                    },
                forall|l: int|
                    0 <= l < j ==> {
                        let p = #[trigger] newlist[i * n2 + l];
                        (p.x as int, p.y as int) == diff(a[i as int], b[l])
                    },
            decreases n2 - j,
        {
            assert(can_sub(a@[i as int], b@[j as int]));
            let d = a[i].minus(b[j]);
            proof {
                lemma_flat_index(i as int, j as int, a.len() as int, n2 as int);
            }
            let ghost before = newlist@;
            newlist.push(d);
            proof {
                assert forall|k: int, l: int| 0 <= k < i && 0 <= l < n2 implies {
                    let p = #[trigger] newlist[k * n2 + l];
                    (p.x as int, p.y as int) == diff(a[k], b[l])
                } by {
                    lemma_flat_index(k, l, i as int, n2 as int);
                    assert(newlist[k * n2 + l] == before[k * n2 + l]);
                }
            }
            j = j + 1;
        }
        proof {
            assert(newlist.len() == (i + 1) * n2) by (nonlinear_arith)
                requires
                    newlist.len() == i * n2 + n2,
            ;
        }
        i = i + 1;
    }
    newlist
}

/// The closing segment list of a polygon: segment `i` runs from vertex `i` to the next one,
/// the last one back to the first.
pub fn outline_segments(vertices: &Vec<Point>) -> (r: Vec<(Point, Point)>)
    ensures
        r.len() == vertices.len(),
        forall|i: int|
            0 <= i < vertices.len() ==> #[trigger] r[i] == (vertices[i], vertices[(i + 1)
                % (vertices.len() as int)]),
{
    let n = vertices.len();
    let mut segs: Vec<(Point, Point)> = Vec::new();
    let mut i: usize = 0;
    while i < n
        invariant
            n == vertices.len(),
            i <= n,
            segs.len() == i,
            forall|k: int|
                0 <= k < i ==> #[trigger] segs[k] == (vertices[k], vertices[(k + 1) % (n as int)]),
        decreases n - i,
    {
        let next: usize = if i + 1 == n {
            0
        } else {
            i + 1
        };
        proof {
            if i + 1 == n {
                vstd::arithmetic::div_mod::lemma_mod_self_0(n as int);
            } else {
                vstd::arithmetic::div_mod::lemma_small_mod((i + 1) as nat, n as nat);
            }
        }
        segs.push((vertices[i], vertices[next]));
        i = i + 1;
    }
    segs
}

} // verus!
