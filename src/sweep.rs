use vstd::prelude::*;

use crate::point::Point;

verus! {

/// An axis-aligned rectangle: its top-left corner and its extent.
#[derive(Clone, Copy, Debug, PartialEq, Eq, Structural)]
pub struct Rect {
    pub pos: Point,
    pub size: Point,
}

/// Where a ray first meets a rectangle. The time of impact is the fraction
/// `time_num / time_den` of the ray's direction; the contact point is
/// `(contact_x, contact_y) / contact_den`.
#[derive(Clone, Copy, Debug, PartialEq, Eq, Structural)]
pub struct Hit {
    pub time_num: i128,
    pub time_den: i128,
    pub contact_x: i128,
    pub contact_y: i128,
    pub contact_den: i128,
    pub normal: Point,
}

pub open spec fn abs(v: int) -> int {
    if v < 0 {
        -v
    } else {
        v
    }
}

pub open spec fn min(a: int, b: int) -> int {
    if a <= b {
        a
    } else {
        b
    }
}

pub open spec fn max(a: int, b: int) -> int {
    if a <= b {
        b
    } else {
        a
    }
}

/// Numerator, over `abs(d)`, of the time at which a ray from `o` along `d` reaches `e`.
pub open spec fn time_num(o: int, d: int, e: int) -> int {
    if d > 0 {
        e - o
    } else {
        o - e
    }
}

/// Numerator, over `abs(d)`, of the time at which a ray enters the slab between `p` and
/// `p + w`: the earlier of the times at which it reaches the two edges.
pub open spec fn entry_num(o: int, d: int, p: int, w: int) -> int {
    min(time_num(o, d, p), time_num(o, d, p + w))
}

/// Numerator, over `abs(d)`, of the time at which a ray leaves the slab between `p` and
/// `p + w`: the later of the times at which it reaches the two edges.
pub open spec fn exit_num(o: int, d: int, p: int, w: int) -> int {
    max(time_num(o, d, p), time_num(o, d, p + w))
}

/// A ray parallel to a slab meets it only when it starts strictly inside.
pub open spec fn axis_admits(o: int, d: int, p: int, w: int) -> bool {
    d != 0 || (min(p, p + w) < o && o < max(p, p + w))
}

/// The slab test of a ray from `(ox, oy)` along `(dx, dy)` against the rectangle at
/// `(px, py)` of extent `(w, h)`: the time of impact as `(num, den)` and the contact normal,
/// when the ray enters the rectangle at a time in `[0, 1)`. The entry time is the later of
/// the two axes' entry times; the normal lies on that axis and points against the ray, and
/// it is zero where both axes are entered at once.
pub open spec fn slab_hit(
    ox: int,
    oy: int,
    dx: int,
    dy: int,
    px: int,
    py: int,
    w: int,
    h: int,
) -> Option<(int, int, int, int)> {
    if !axis_admits(ox, dx, px, w) || !axis_admits(oy, dy, py, h) || (dx == 0 && dy == 0) {
        None
    } else {
        let ax = abs(dx);
        let ay = abs(dy);
        let nx = entry_num(ox, dx, px, w);
        let fx = exit_num(ox, dx, px, w);
        let ny = entry_num(oy, dy, py, h);
        let fy = exit_num(oy, dy, py, h);
        let overlap = dx == 0 || dy == 0 || (nx * ay <= fy * ax && ny * ax <= fx * ay);
        let x_later = dy == 0 || (dx != 0 && nx * ay >= ny * ax);
        let num = if x_later {
            nx
        } else {
            ny
        };
        let den = if x_later {
            ax
        } else {
            ay
        };
        let normal = if dy == 0 || (dx != 0 && nx * ay > ny * ax) {
            (if dx < 0 {
                1int
            } else {
                -1int
            }, 0int)
        } else if dx == 0 || nx * ay < ny * ax {
            (0int, if dy < 0 {
                1int
            } else {
                -1int
            })
        } else {
            (0int, 0int)
        };
        if overlap && 0 <= num && num < den {
            Some((num, den, normal.0, normal.1))
        } else {
            None
        }
    }
}

/// Coordinates that the slab test handles without overflow.
pub open spec fn in_slab_range(v: int) -> bool {
    -0x4_0000_0000 <= v <= 0x4_0000_0000
}

/// `h` is the hit that `slab_hit` describes for the ray from `(ox, oy)` along `(dx, dy)`,
/// its contact point `(ox, oy) + t * (dx, dy)` given in units of `1 / scale`.
pub open spec fn hit_matches(
    h: Hit,
    s: (int, int, int, int),
    ox: int,
    oy: int,
    dx: int,
    dy: int,
    scale: int,
) -> bool {
    &&& h.time_num == s.0
    &&& h.time_den == s.1
    &&& h.normal.x == s.2
    &&& h.normal.y == s.3
    &&& h.contact_x == ox * s.1 + s.0 * dx
    &&& h.contact_y == oy * s.1 + s.0 * dy
    &&& h.contact_den == scale * s.1
}

/// Entry and exit numerators of a ray against one slab, the earlier first.
fn slab_times(o: i64, d: i64, p: i64, w: i64) -> (r: (i128, i128))
    requires
        in_slab_range(o as int) && in_slab_range(d as int),
        in_slab_range(p as int) && in_slab_range(w as int),
    ensures
        r.0 == entry_num(o as int, d as int, p as int, w as int),
        r.1 == exit_num(o as int, d as int, p as int, w as int),
        -0x10_0000_0000 <= r.0 <= 0x10_0000_0000,
        -0x10_0000_0000 <= r.1 <= 0x10_0000_0000,
{
    let t1: i128 = if d > 0 { (p - o) as i128 } else { (o - p) as i128 };
    let t2: i128 = if d > 0 { (p + w - o) as i128 } else { (o - p - w) as i128 };
    if t1 <= t2 {
        (t1, t2)
    } else {
        (t2, t1)
    }
}

/// The slab test on coordinates in `1 / scale` units.
fn slab_test(
    ox: i64,
    oy: i64,
    dx: i64,
    dy: i64,
    px: i64,
    py: i64,
    w: i64,
    h: i64,
    scale: i64,
) -> (r: Option<Hit>)
    requires
        in_slab_range(ox as int) && in_slab_range(oy as int),
        in_slab_range(dx as int) && in_slab_range(dy as int),
        in_slab_range(px as int) && in_slab_range(py as int),
        in_slab_range(w as int) && in_slab_range(h as int),
        1 <= scale <= 2,
    ensures
        r is Some == slab_hit(
            ox as int,
            oy as int,
            dx as int,
            dy as int,
            px as int,
            py as int,
            w as int,
            h as int,
        ) is Some,
        r is Some ==> hit_matches(
            r->0,
            slab_hit(
                ox as int,
                oy as int,
                dx as int,
                dy as int,
                px as int,
                py as int,
                w as int,
                h as int,
            )->0,
            ox as int,
            oy as int,
            dx as int,
            dy as int,
            scale as int,
        ),
        r is Some ==> time_in_range(r->0),
{
    let x_ok = dx != 0 || (px < ox && ox < px + w) || (px + w < ox && ox < px);
    let y_ok = dy != 0 || (py < oy && oy < py + h) || (py + h < oy && oy < py);
    if !x_ok || !y_ok || (dx == 0 && dy == 0) {
        return None;
    }
    let ax: i128 = if dx < 0 { -(dx as i128) } else { dx as i128 };
    let ay: i128 = if dy < 0 { -(dy as i128) } else { dy as i128 };
    let (nx, fx) = slab_times(ox, dx, px, w);
    let (ny, fy) = slab_times(oy, dy, py, h);
    proof {
        lemma_slab_product_bound(nx as int, ay as int);
        lemma_slab_product_bound(ny as int, ax as int);
        lemma_slab_product_bound(fx as int, ay as int);
        lemma_slab_product_bound(fy as int, ax as int);
    }
    let nx_ay = nx * ay;
    let ny_ax = ny * ax;
    let overlap = dx == 0 || dy == 0 || (nx_ay <= fy * ax && ny_ax <= fx * ay);
    let x_later = dy == 0 || (dx != 0 && nx_ay >= ny_ax);
    let (num, den) = if x_later { (nx, ax) } else { (ny, ay) };
    let normal = if dy == 0 || (dx != 0 && nx_ay > ny_ax) {
        Point { x: if dx < 0 { 1 } else { -1 }, y: 0 }
    } else if dx == 0 || nx_ay < ny_ax {
        Point { x: 0, y: if dy < 0 { 1 } else { -1 } }
    } else {
        Point { x: 0, y: 0 }
    };
    if overlap && 0 <= num && num < den {
        proof {
            lemma_slab_product_bound(ox as int, den as int);
            lemma_slab_product_bound(oy as int, den as int);
            lemma_slab_product_bound(num as int, dx as int);
            lemma_slab_product_bound(num as int, dy as int);
            lemma_slab_product_bound(scale as int, den as int);
        }
        Some(
            Hit {
                time_num: num,
                time_den: den,
                contact_x: (ox as i128) * den + num * (dx as i128),
                contact_y: (oy as i128) * den + num * (dy as i128),
                contact_den: (scale as i128) * den,
                normal,
            },
        )
    } else {
        None
    }
}

/// Where a ray from `origin` along `dir` first enters `target`, when it does so within the
/// length of `dir`.
pub fn ray_vs_rect(origin: Point, dir: Point, target: Rect) -> (r: Option<Hit>)
    ensures
        r is Some == slab_hit(
            origin.x as int,
            origin.y as int,
            dir.x as int,
            dir.y as int,
            target.pos.x as int,
            target.pos.y as int,
            target.size.x as int,
            target.size.y as int,
        ) is Some,
        r is Some ==> hit_matches(
            r->0,
            slab_hit(
                origin.x as int,
                origin.y as int,
                dir.x as int,
                dir.y as int,
                target.pos.x as int,
                target.pos.y as int,
                target.size.x as int,
                target.size.y as int,
            )->0,
            origin.x as int,
            origin.y as int,
            dir.x as int,
            dir.y as int,
            1,
        ),
        r is Some ==> time_in_range(r->0),
{
    slab_test(
        origin.x as i64,
        origin.y as i64,
        dir.x as i64,
        dir.y as i64,
        target.pos.x as i64,
        target.pos.y as i64,
        target.size.x as i64,
        target.size.y as i64,
        1,
    )
}

/// Twice the centre of `r` on the x axis.
pub open spec fn centre2_x(r: Rect) -> int {
    2 * r.pos.x + r.size.x
}

/// Twice the centre of `r` on the y axis.
pub open spec fn centre2_y(r: Rect) -> int {
    2 * r.pos.y + r.size.y
}

/// The swept test of `moving` shifted by `displacement` against the still `target`, in
/// doubled coordinates: the centre of `moving` is cast as a ray against `target` grown by
/// half the extent of `moving` on every side.
pub open spec fn swept_hit(moving: Rect, displacement: Point, target: Rect) -> Option<
    (int, int, int, int),
> {
    slab_hit(
        centre2_x(moving),
        centre2_y(moving),
        2 * displacement.x,
        2 * displacement.y,
        2 * target.pos.x - moving.size.x,
        2 * target.pos.y - moving.size.y,
        2 * target.size.x + 2 * moving.size.x,
        2 * target.size.y + 2 * moving.size.y,
    )
}

/// Where `moving`, shifted by `displacement` over one step, first touches `target`: the time
/// of impact within the step, the contact point of its centre and the contact normal.
pub fn dynamic_rect_vs_rect(moving: Rect, displacement: Point, target: Rect) -> (r: Option<Hit>)
    ensures
        r is Some == swept_hit(moving, displacement, target) is Some,
        r is Some ==> hit_matches(
            r->0,
            swept_hit(moving, displacement, target)->0,
            centre2_x(moving),
            centre2_y(moving),
            2 * displacement.x,
            2 * displacement.y,
            2,
        ),
        r is Some ==> time_in_range(r->0),
{
    let ox = 2 * (moving.pos.x as i64) + moving.size.x as i64;
    let oy = 2 * (moving.pos.y as i64) + moving.size.y as i64;
    let px = 2 * (target.pos.x as i64) - moving.size.x as i64;
    let py = 2 * (target.pos.y as i64) - moving.size.y as i64;
    let w = 2 * (target.size.x as i64) + 2 * (moving.size.x as i64);
    let h = 2 * (target.size.y as i64) + 2 * (moving.size.y as i64);
    slab_test(ox, oy, 2 * (displacement.x as i64), 2 * (displacement.y as i64), px, py, w, h, 2)
}

/// A time of impact with a positive denominator, small enough to compare by
/// cross-multiplication.
pub open spec fn time_in_range(h: Hit) -> bool {
    0 < h.time_den <= i64::MAX && i64::MIN <= h.time_num <= i64::MAX
}

/// `a` comes no later than `b`.
pub open spec fn time_le(a: Hit, b: Hit) -> bool {
    a.time_num * b.time_den <= b.time_num * a.time_den
}

/// `order` lists indices of `hits` by time of impact, equal times by index.
pub open spec fn in_time_order(hits: Seq<Hit>, order: Seq<usize>) -> bool {
    forall|i: int, j: int|
        0 <= i < j < order.len() ==> time_le(hits[#[trigger] order[i] as int], hits[#[trigger] order[j] as int])
            && (time_le(hits[order[j] as int], hits[order[i] as int]) ==> order[i] < order[j])
}

proof fn lemma_time_lt_le(a: Hit, b: Hit, c: Hit)
    requires
        time_in_range(a) && time_in_range(b) && time_in_range(c),
        !time_le(b, a),
        time_le(b, c),
    ensures
        !time_le(c, a),
        time_le(a, c),
{
    let (an, ad, bn, bd, cn, cd) = (
        a.time_num as int,
        a.time_den as int,
        b.time_num as int,
        b.time_den as int,
        c.time_num as int,
        c.time_den as int,
    );
    assert(an * cd < cn * ad) by (nonlinear_arith)
        requires
            ad > 0 && bd > 0 && cd > 0,
            an * bd < bn * ad,
            bn * cd <= cn * bd,
    {
        assert(an * bd * cd < bn * ad * cd);
        assert(bn * cd * ad <= cn * bd * ad);
        assert(bd * (an * cd) < bd * (cn * ad));
    }
}

/// Whether `a` comes no later than `b`.
pub fn comes_no_later(a: Hit, b: Hit) -> (r: bool)
    requires
        time_in_range(a) && time_in_range(b),
    ensures
        r == time_le(a, b),
{
    proof {
        lemma_product_bound(a.time_num as int, b.time_den as int);
        lemma_product_bound(b.time_num as int, a.time_den as int);
    }
    a.time_num * b.time_den <= b.time_num * a.time_den
}

/// The indices of `hits` in the order in which the hits happen: by time of impact, and
/// equal times in the order of the list.
pub fn order_by_time(hits: &Vec<Hit>) -> (r: Vec<usize>)
    requires
        forall|i: int| 0 <= i < hits.len() ==> time_in_range(#[trigger] hits[i]),
    ensures
        r.len() == hits.len(),
        forall|i: int| 0 <= i < r.len() ==> #[trigger] r[i] < hits.len(),
        forall|i: int, j: int| 0 <= i < j < r.len() ==> r[i] != r[j],
        forall|m: usize| m < hits.len() ==> #[trigger] r@.contains(m),
        in_time_order(hits@, r@),
{
    let mut order: Vec<usize> = Vec::new();
    let mut k: usize = 0;
    while k < hits.len()
        invariant
            k <= hits.len(),
            forall|i: int| 0 <= i < hits.len() ==> time_in_range(#[trigger] hits[i]),
            order.len() == k,
            forall|i: int| 0 <= i < order.len() ==> #[trigger] order[i] < k,
            forall|i: int, j: int| 0 <= i < j < order.len() ==> order[i] != order[j],
            forall|m: usize| m < k ==> #[trigger] order@.contains(m),
            in_time_order(hits@, order@),
        decreases hits.len() - k,
    {
        let hk = hits[k];
        let mut pos: usize = 0;
        while pos < order.len() && comes_no_later(hits[order[pos]], hk)
            invariant
                pos <= order.len(),
                forall|i: int| 0 <= i < hits.len() ==> time_in_range(#[trigger] hits[i]),
                forall|i: int| 0 <= i < order.len() ==> #[trigger] order[i] < k,
                k < hits.len(),
                hk == hits[k as int],
                forall|i: int| 0 <= i < pos ==> time_le(hits[#[trigger] order[i] as int], hk),
            decreases order.len() - pos,
        {
            pos = pos + 1;
        }
        let ghost before = order@;
        order.insert(pos, k);
        proof {
            assert forall|i: int, j: int| 0 <= i < j < order.len() implies time_le(
                hits[#[trigger] order[i] as int],
                hits[#[trigger] order[j] as int],
            ) && (time_le(hits[order[j] as int], hits[order[i] as int]) ==> order[i] < order[j]) by {
                if j < pos {
                    assert(order[i] == before[i] && order[j] == before[j]);
                } else if j == pos {
                    assert(order[i] == before[i]);
                } else if i == pos {
                    assert(order[j] == before[j - 1]);
                    lemma_time_lt_le(
                        hk,
                        hits[before[pos as int] as int],
                        hits[before[j - 1] as int],
                    );
                } else if i < pos {
                    assert(order[i] == before[i] && order[j] == before[j - 1]);
                } else {
                    assert(order[i] == before[i - 1] && order[j] == before[j - 1]);
                }
            }
            assert forall|m: usize| m < k + 1 implies #[trigger] order@.contains(m) by {
                if m == k {
                    assert(order@[pos as int] == m);
                } else {
                    assert(before.contains(m));
                    let i = choose|i: int| 0 <= i < before.len() && before[i] == m;
                    if i < pos {
                        assert(order@[i] == m);
                    } else {
                        assert(order@[i + 1] == m);
                    }
                }
            }
        }
        k = k + 1;
    }
    order
}

/// `h` is the hit of `moving`, shifted by `displacement`, against `target`.
pub open spec fn is_swept_hit(moving: Rect, displacement: Point, target: Rect, h: Hit) -> bool {
    &&& swept_hit(moving, displacement, target) is Some
    &&& hit_matches(
        h,
        swept_hit(moving, displacement, target)->0,
        centre2_x(moving),
        centre2_y(moving),
        2 * displacement.x,
        2 * displacement.y,
        2,
    )
}

/// The targets that `moving`, shifted by `displacement`, runs into during the step, each with
/// its hit: every target that it reaches, once, in the order in which it reaches them, and
/// targets reached at the same time in the order of the list.
pub fn collisions_in_order(moving: Rect, displacement: Point, targets: &Vec<Rect>) -> (r: Vec<
    (usize, Hit),
>)
    ensures
        forall|k: int|
            0 <= k < r.len() ==> (#[trigger] r[k]).0 < targets.len() && is_swept_hit(
                moving,
                displacement,
                targets[r[k].0 as int],
                r[k].1,
            ),
        forall|j: int|
            0 <= j < targets.len() && (swept_hit(moving, displacement, #[trigger] targets[j]) is Some)
                ==> exists|k: int| 0 <= k < r.len() && r[k].0 == j,
        forall|k: int, l: int| 0 <= k < l < r.len() ==> (#[trigger] r[k]).0 != (#[trigger] r[l]).0,
        forall|k: int, l: int|
            0 <= k < l < r.len() ==> time_le((#[trigger] r[k]).1, (#[trigger] r[l]).1) && (time_le(
                r[l].1,
                r[k].1,
            ) ==> r[k].0 < r[l].0),
{
    let mut idx: Vec<usize> = Vec::new();
    let mut hits: Vec<Hit> = Vec::new();
    let mut i: usize = 0;
    while i < targets.len()
        invariant
            i <= targets.len(),
            idx.len() == hits.len(),
            forall|k: int|
                0 <= k < idx.len() ==> #[trigger] idx[k] < i && is_swept_hit(
                    moving,
                    displacement,
                    targets[idx[k] as int],
                    hits[k],
                ) && time_in_range(hits[k]),
            forall|k: int, l: int| 0 <= k < l < idx.len() ==> #[trigger] idx[k] < #[trigger] idx[l],
            forall|j: usize|
                j < i && (swept_hit(moving, displacement, targets[j as int]) is Some)
                    ==> #[trigger] idx@.contains(j),
        decreases targets.len() - i,
    {
        let ghost before = idx@;
        match dynamic_rect_vs_rect(moving, displacement, targets[i]) {
            Some(h) => {
                idx.push(i);
                hits.push(h);
            },
            None => {},
        }
        proof {
            assert forall|j: usize|
                j < i + 1 && (swept_hit(moving, displacement, targets[j as int]) is Some)
                implies #[trigger] idx@.contains(j) by {
                if j == i {
                    assert(idx@[idx.len() - 1] == i);
                } else {
                    assert(before.contains(j));
                    let w = choose|w: int| 0 <= w < before.len() && before[w] == j;
                    assert(idx@[w] == j);
                }
            }
        }
        i = i + 1;
    }
    assert forall|m: int| 0 <= m < hits.len() implies time_in_range(#[trigger] hits[m]) by {
        assert(idx[m] < i);
    }
    let order = order_by_time(&hits);
    let mut r: Vec<(usize, Hit)> = Vec::new();
    let mut k: usize = 0;
    while k < order.len()
        invariant
            k <= order.len(),
            order.len() == hits.len() == idx.len(),
            forall|m: int| 0 <= m < order.len() ==> #[trigger] order[m] < hits.len(),
            r.len() == k,
            forall|m: int| 0 <= m < k ==> #[trigger] r[m] == (idx[order[m] as int], hits[order[m] as int]),
        decreases order.len() - k,
    {
        r.push((idx[order[k]], hits[order[k]]));
        k = k + 1;
    }
    proof {
        assert forall|k: int| 0 <= k < r.len() implies (#[trigger] r[k]).0 < targets.len()
            && is_swept_hit(moving, displacement, targets[r[k].0 as int], r[k].1) by {
            assert(idx[order[k] as int] < targets.len());
        }
        assert forall|j: int|
            0 <= j < targets.len() && (swept_hit(moving, displacement, #[trigger] targets[j]) is Some)
            implies exists|k: int| 0 <= k < r.len() && r[k].0 == j by {
            assert(idx@.contains(j as usize));
            let m = choose|m: int| 0 <= m < idx.len() && idx[m] == j;
            assert(order@.contains(m as usize));
            let k = choose|k: int| 0 <= k < order.len() && order[k] == m;
            assert(r[k].0 == j);
        }
        assert forall|k: int, l: int| 0 <= k < l < r.len() implies (#[trigger] r[k]).0
            != (#[trigger] r[l]).0 by {
            let (a, b) = (order[k] as int, order[l] as int);
            if a < b {
                assert(idx[a] < idx[b]);
            } else {
                assert(idx[b] < idx[a]);
            }
        }
        assert forall|k: int, l: int| 0 <= k < l < r.len() implies time_le(
            (#[trigger] r[k]).1,
            (#[trigger] r[l]).1,
        ) && (time_le(r[l].1, r[k].1) ==> r[k].0 < r[l].0) by {
            let (a, b) = (order[k] as int, order[l] as int);
            assert(time_le(hits[order[k] as int], hits[order[l] as int]));
            if time_le(r[l].1, r[k].1) {
                assert(a < b);
                assert(idx[a] < idx[b]);
            }
        }
    }
    r
}

proof fn lemma_slab_product_bound(a: int, b: int)
    requires
        -0x10_0000_0000 <= a <= 0x10_0000_0000,
        -0x10_0000_0000 <= b <= 0x10_0000_0000,
    ensures
        -0x100_0000_0000_0000_0000 <= a * b <= 0x100_0000_0000_0000_0000,
{
    assert(-0x100_0000_0000_0000_0000 <= a * b <= 0x100_0000_0000_0000_0000) by (nonlinear_arith)
        requires
            -0x10_0000_0000 <= a <= 0x10_0000_0000,
            -0x10_0000_0000 <= b <= 0x10_0000_0000,
    ;
}

proof fn lemma_product_bound(a: int, b: int)
    requires
        i64::MIN <= a <= i64::MAX,
        i64::MIN <= b <= i64::MAX,
    ensures
        -0x4000_0000_0000_0000_0000_0000_0000_0000 <= a * b <= 0x4000_0000_0000_0000_0000_0000_0000_0000,
{
    assert(-0x4000_0000_0000_0000_0000_0000_0000_0000 <= a * b <= 0x4000_0000_0000_0000_0000_0000_0000_0000) by (nonlinear_arith)
        requires
            -0x8000_0000_0000_0000 <= a <= 0x7fff_ffff_ffff_ffff,
            -0x8000_0000_0000_0000 <= b <= 0x7fff_ffff_ffff_ffff,
    ;
}

} // verus!
