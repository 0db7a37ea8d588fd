//! Built-in `DataPoint` adapters for fixed-arity integer coordinate tuples.
//!
//! Unsigned adapters take the absolute difference before squaring to avoid
//! underflow; signed adapters widen to a wider signed intermediate before
//! subtracting to avoid overflow. The mean is the coordinate-wise
//! arithmetic mean computed in wide intermediate precision and truncated to
//! the coordinate type.

use vstd::prelude::*;
use vstd::arithmetic::div_mod::lemma_div_basics;
use vstd::arithmetic::div_mod::lemma_div_pos_is_pos;
use crate::model;
use crate::types::DataPoint;

verus! {

/// Absolute difference of two integers.
pub open spec fn abs_diff(a: int, b: int) -> int {
    if a >= b {
        a - b
    } else {
        b - a
    }
}

/// Division truncating toward zero, as machine signed division does.
pub open spec fn div_trunc(a: int, n: int) -> int {
    if a >= 0 {
        a / n
    } else {
        -((-a) / n)
    }
}

proof fn lemma_sq_bounds(d: int, hi: int)
    requires
        0 <= d <= hi,
    ensures
        0 <= d * d <= hi * hi,
    decreases 0int,
{
    assert(0 <= d * d <= hi * hi) by (nonlinear_arith)
        requires 0 <= d <= hi;
}

proof fn lemma_sq_zero(d: int)
    requires
        d >= 0,
    ensures
        (d * d == 0) <==> (d == 0),
{
    assert((d * d == 0) <==> (d == 0)) by (nonlinear_arith)
        requires d >= 0;
}

proof fn lemma_sum_int_singleton(v: int)
    ensures
        model::sum_int(seq![v]) == v,
{
    assert(seq![v].drop_first() =~= Seq::<int>::empty());
    assert(model::sum_int(Seq::<int>::empty()) == 0);
    assert(seq![v].first() == v);
}

proof fn lemma_div_trunc_by_one(v: int)
    ensures
        div_trunc(v, 1) == v,
{
    lemma_div_basics(v);
    if v < 0 {
        lemma_div_basics(-v);
    }
}

impl DataPoint for (u8, u8) {
    open spec fn dist_sq_spec(self, other: Self) -> int {
        let dx = abs_diff(self.0 as int, other.0 as int);
        let dy = abs_diff(self.1 as int, other.1 as int);
        dx * dx + dy * dy
    }

    open spec fn mean_spec(ps: Seq<Self>) -> Self {
        let n = ps.len() as int;
        let sx = model::sum_int(ps.map_values(|p: (u8, u8)| p.0 as int));
        let sy = model::sum_int(ps.map_values(|p: (u8, u8)| p.1 as int));
        (((sx / n) as u8), ((sy / n) as u8))
    }

    proof fn lemma_dist_sq_bounds(a: Self, b: Self) {
        lemma_sq_bounds(abs_diff(a.0 as int, b.0 as int), 255);
        lemma_sq_bounds(abs_diff(a.1 as int, b.1 as int), 255);
    }

    proof fn lemma_dist_sq_symmetric(a: Self, b: Self) {
    }

    proof fn lemma_dist_sq_zero(a: Self, b: Self) {
        lemma_sq_zero(abs_diff(a.0 as int, b.0 as int));
        lemma_sq_zero(abs_diff(a.1 as int, b.1 as int));
    }

    proof fn lemma_mean_singleton(p: Self) {
        let s = seq![p];
        assert(s.map_values(|q: (u8, u8)| q.0 as int) =~= seq![p.0 as int]);
        assert(s.map_values(|q: (u8, u8)| q.1 as int) =~= seq![p.1 as int]);
        lemma_sum_int_singleton(p.0 as int);
        lemma_sum_int_singleton(p.1 as int);
        lemma_div_basics(p.0 as int);
        lemma_div_basics(p.1 as int);
    }

    fn dist_sq(&self, other: &Self) -> (r: u64) {
        let dx: u64 = if self.0 >= other.0 {
            (self.0 - other.0) as u64
        } else {
            (other.0 - self.0) as u64
        };
        let dy: u64 = if self.1 >= other.1 {
            (self.1 - other.1) as u64
        } else {
            (other.1 - self.1) as u64
        };
        proof {
            lemma_sq_bounds(dx as int, 255);
            lemma_sq_bounds(dy as int, 255);
        }
        dx * dx + dy * dy
    }

    fn mean(ps: &Vec<Self>) -> (r: Self) {
        let ghost xs = ps@.map_values(|p: (u8, u8)| p.0 as int);
        let ghost ys = ps@.map_values(|p: (u8, u8)| p.1 as int);
        let mut sx: u128 = 0;
        let mut sy: u128 = 0;
        let mut i: usize = 0;
        while i < ps.len()
            invariant
                xs == ps@.map_values(|p: (u8, u8)| p.0 as int),
                ys == ps@.map_values(|p: (u8, u8)| p.1 as int),
                i <= ps@.len(),
                sx as int == model::sum_int(xs.take(i as int)),
                sy as int == model::sum_int(ys.take(i as int)),
                sx as int <= 255 * i as int,
                sy as int <= 255 * i as int,
            decreases ps@.len() - i,
        {
            proof {
                model::lemma_sum_int_take_step(xs, i as int);
                model::lemma_sum_int_take_step(ys, i as int);
            }
            sx = sx + (ps[i].0 as u128);
            sy = sy + (ps[i].1 as u128);
            i = i + 1;
        }
        proof {
            model::lemma_sum_int_take_all(xs);
            model::lemma_sum_int_take_all(ys);
        }
        let n = ps.len() as u128;
        ((sx / n) as u8, (sy / n) as u8)
    }

    fn eq_point(&self, other: &Self) -> (r: bool) {
        self.0 == other.0 && self.1 == other.1
    }

    fn copy_point(&self) -> (r: Self) {
        (self.0, self.1)
    }
}

impl DataPoint for (i16, i16) {
    open spec fn dist_sq_spec(self, other: Self) -> int {
        let dx = abs_diff(self.0 as int, other.0 as int);
        let dy = abs_diff(self.1 as int, other.1 as int);
        dx * dx + dy * dy
    }

    open spec fn mean_spec(ps: Seq<Self>) -> Self {
        let n = ps.len() as int;
        let sx = model::sum_int(ps.map_values(|p: (i16, i16)| p.0 as int));
        let sy = model::sum_int(ps.map_values(|p: (i16, i16)| p.1 as int));
        ((div_trunc(sx, n) as i16), (div_trunc(sy, n) as i16))
    }

    proof fn lemma_dist_sq_bounds(a: Self, b: Self) {
        lemma_sq_bounds(abs_diff(a.0 as int, b.0 as int), 65535);
        lemma_sq_bounds(abs_diff(a.1 as int, b.1 as int), 65535);
    }

    proof fn lemma_dist_sq_symmetric(a: Self, b: Self) {
    }

    proof fn lemma_dist_sq_zero(a: Self, b: Self) {
        lemma_sq_zero(abs_diff(a.0 as int, b.0 as int));
        lemma_sq_zero(abs_diff(a.1 as int, b.1 as int));
    }

    proof fn lemma_mean_singleton(p: Self) {
        let s = seq![p];
        assert(s.map_values(|q: (i16, i16)| q.0 as int) =~= seq![p.0 as int]);
        assert(s.map_values(|q: (i16, i16)| q.1 as int) =~= seq![p.1 as int]);
        lemma_sum_int_singleton(p.0 as int);
        lemma_sum_int_singleton(p.1 as int);
        lemma_div_trunc_by_one(p.0 as int);
        lemma_div_trunc_by_one(p.1 as int);
    }

    fn dist_sq(&self, other: &Self) -> (r: u64) {
        let dxw: i32 = self.0 as i32 - other.0 as i32;
        let dyw: i32 = self.1 as i32 - other.1 as i32;
        let dx: u64 = if dxw >= 0 {
            dxw as u64
        } else {
            (-dxw) as u64
        };
        let dy: u64 = if dyw >= 0 {
            dyw as u64
        } else {
            (-dyw) as u64
        };
        proof {
            lemma_sq_bounds(dx as int, 65535);
            lemma_sq_bounds(dy as int, 65535);
        }
        dx * dx + dy * dy
    }

    fn mean(ps: &Vec<Self>) -> (r: Self) {
        let ghost xs = ps@.map_values(|p: (i16, i16)| p.0 as int);
        let ghost ys = ps@.map_values(|p: (i16, i16)| p.1 as int);
        let mut sx: i128 = 0;
        let mut sy: i128 = 0;
        let mut i: usize = 0;
        while i < ps.len()
            invariant
                xs == ps@.map_values(|p: (i16, i16)| p.0 as int),
                ys == ps@.map_values(|p: (i16, i16)| p.1 as int),
                i <= ps@.len(),
                sx as int == model::sum_int(xs.take(i as int)),
                sy as int == model::sum_int(ys.take(i as int)),
                -32768 * i as int <= sx as int <= 32767 * i as int,
                -32768 * i as int <= sy as int <= 32767 * i as int,
            decreases ps@.len() - i,
        {
            proof {
                model::lemma_sum_int_take_step(xs, i as int);
                model::lemma_sum_int_take_step(ys, i as int);
            }
            sx = sx + (ps[i].0 as i128);
            sy = sy + (ps[i].1 as i128);
            i = i + 1;
        }
        proof {
            model::lemma_sum_int_take_all(xs);
            model::lemma_sum_int_take_all(ys);
        }
        let n = ps.len() as u128;
        let mx = signed_mean_coord(sx, n);
        let my = signed_mean_coord(sy, n);
        (mx, my)
    }

    fn eq_point(&self, other: &Self) -> (r: bool) {
        self.0 == other.0 && self.1 == other.1
    }

    fn copy_point(&self) -> (r: Self) {
        (self.0, self.1)
    }
}

/// One coordinate of a truncating signed mean: the quotient of `s` by
/// `n`, truncated toward zero as machine signed division would.
fn signed_mean_coord(s: i128, n: u128) -> (r: i16)
    requires
        n > 0,
        -(i128::MAX as int) <= s as int <= i128::MAX as int,
    ensures
        r as int == div_trunc(s as int, n as int) as i16 as int,
{
    if s >= 0 {
        ((s as u128) / n) as i16
    } else {
        let q = ((-s) as u128) / n;
        proof {
            lemma_div_pos_is_pos((-s) as int, n as int);
            vstd::arithmetic::div_mod::lemma_div_nonincreasing((-s) as int, n as int);
        }
        (-(q as i128)) as i16
    }
}

impl DataPoint for (u16, u16, u16) {
    open spec fn dist_sq_spec(self, other: Self) -> int {
        let dx = abs_diff(self.0 as int, other.0 as int);
        let dy = abs_diff(self.1 as int, other.1 as int);
        let dz = abs_diff(self.2 as int, other.2 as int);
        dx * dx + dy * dy + dz * dz
    }

    open spec fn mean_spec(ps: Seq<Self>) -> Self {
        let n = ps.len() as int;
        let sx = model::sum_int(ps.map_values(|p: (u16, u16, u16)| p.0 as int));
        let sy = model::sum_int(ps.map_values(|p: (u16, u16, u16)| p.1 as int));
        let sz = model::sum_int(ps.map_values(|p: (u16, u16, u16)| p.2 as int));
        (((sx / n) as u16), ((sy / n) as u16), ((sz / n) as u16))
    }

    proof fn lemma_dist_sq_bounds(a: Self, b: Self) {
        lemma_sq_bounds(abs_diff(a.0 as int, b.0 as int), 65535);
        lemma_sq_bounds(abs_diff(a.1 as int, b.1 as int), 65535);
        lemma_sq_bounds(abs_diff(a.2 as int, b.2 as int), 65535);
    }

    proof fn lemma_dist_sq_symmetric(a: Self, b: Self) {
    }

    proof fn lemma_dist_sq_zero(a: Self, b: Self) {
        lemma_sq_zero(abs_diff(a.0 as int, b.0 as int));
        lemma_sq_zero(abs_diff(a.1 as int, b.1 as int));
        lemma_sq_zero(abs_diff(a.2 as int, b.2 as int));
    }

    proof fn lemma_mean_singleton(p: Self) {
        let s = seq![p];
        assert(s.map_values(|q: (u16, u16, u16)| q.0 as int) =~= seq![p.0 as int]);
        assert(s.map_values(|q: (u16, u16, u16)| q.1 as int) =~= seq![p.1 as int]);
        assert(s.map_values(|q: (u16, u16, u16)| q.2 as int) =~= seq![p.2 as int]);
        lemma_sum_int_singleton(p.0 as int);
        lemma_sum_int_singleton(p.1 as int);
        lemma_sum_int_singleton(p.2 as int);
        lemma_div_basics(p.0 as int);
        lemma_div_basics(p.1 as int);
        lemma_div_basics(p.2 as int);
    }

    fn dist_sq(&self, other: &Self) -> (r: u64) {
        let dx: u64 = if self.0 >= other.0 {
            (self.0 - other.0) as u64
        } else {
            (other.0 - self.0) as u64
        };
        let dy: u64 = if self.1 >= other.1 {
            (self.1 - other.1) as u64
        } else {
            (other.1 - self.1) as u64
        };
        let dz: u64 = if self.2 >= other.2 {
            (self.2 - other.2) as u64
        } else {
            (other.2 - self.2) as u64
        };
        proof {
            lemma_sq_bounds(dx as int, 65535);
            lemma_sq_bounds(dy as int, 65535);
            lemma_sq_bounds(dz as int, 65535);
        }
        dx * dx + dy * dy + dz * dz
    }

    fn mean(ps: &Vec<Self>) -> (r: Self) {
        let ghost xs = ps@.map_values(|p: (u16, u16, u16)| p.0 as int);
        let ghost ys = ps@.map_values(|p: (u16, u16, u16)| p.1 as int);
        let ghost zs = ps@.map_values(|p: (u16, u16, u16)| p.2 as int);
        let mut sx: u128 = 0;
        let mut sy: u128 = 0;
        let mut sz: u128 = 0;
        let mut i: usize = 0;
        while i < ps.len()
            invariant
                xs == ps@.map_values(|p: (u16, u16, u16)| p.0 as int),
                ys == ps@.map_values(|p: (u16, u16, u16)| p.1 as int),
                zs == ps@.map_values(|p: (u16, u16, u16)| p.2 as int),
                i <= ps@.len(),
                sx as int == model::sum_int(xs.take(i as int)),
                sy as int == model::sum_int(ys.take(i as int)),
                sz as int == model::sum_int(zs.take(i as int)),
                sx as int <= 65535 * i as int,
                sy as int <= 65535 * i as int,
                sz as int <= 65535 * i as int,
            decreases ps@.len() - i,
        {
            proof {
                model::lemma_sum_int_take_step(xs, i as int);
                model::lemma_sum_int_take_step(ys, i as int);
                model::lemma_sum_int_take_step(zs, i as int);
            }
            sx = sx + (ps[i].0 as u128);
            sy = sy + (ps[i].1 as u128);
            sz = sz + (ps[i].2 as u128);
            i = i + 1;
        }
        proof {
            model::lemma_sum_int_take_all(xs);
            model::lemma_sum_int_take_all(ys);
            model::lemma_sum_int_take_all(zs);
        }
        let n = ps.len() as u128;
        ((sx / n) as u16, (sy / n) as u16, (sz / n) as u16)
    }

    fn eq_point(&self, other: &Self) -> (r: bool) {
        self.0 == other.0 && self.1 == other.1 && self.2 == other.2
    }

    fn copy_point(&self) -> (r: Self) {
        (self.0, self.1, self.2)
    }
}

impl DataPoint for (i8, i8, i8, i8) {
    open spec fn dist_sq_spec(self, other: Self) -> int {
        let dx = abs_diff(self.0 as int, other.0 as int);
        let dy = abs_diff(self.1 as int, other.1 as int);
        let dz = abs_diff(self.2 as int, other.2 as int);
        let dw = abs_diff(self.3 as int, other.3 as int);
        dx * dx + dy * dy + dz * dz + dw * dw
    }

    open spec fn mean_spec(ps: Seq<Self>) -> Self {
        let n = ps.len() as int;
        let sx = model::sum_int(ps.map_values(|p: (i8, i8, i8, i8)| p.0 as int));
        let sy = model::sum_int(ps.map_values(|p: (i8, i8, i8, i8)| p.1 as int));
        let sz = model::sum_int(ps.map_values(|p: (i8, i8, i8, i8)| p.2 as int));
        let sw = model::sum_int(ps.map_values(|p: (i8, i8, i8, i8)| p.3 as int));
        (
            (div_trunc(sx, n) as i8),
            (div_trunc(sy, n) as i8),
            (div_trunc(sz, n) as i8),
            (div_trunc(sw, n) as i8),
        )
    }

    proof fn lemma_dist_sq_bounds(a: Self, b: Self) {
        lemma_sq_bounds(abs_diff(a.0 as int, b.0 as int), 255);
        lemma_sq_bounds(abs_diff(a.1 as int, b.1 as int), 255);
        lemma_sq_bounds(abs_diff(a.2 as int, b.2 as int), 255);
        lemma_sq_bounds(abs_diff(a.3 as int, b.3 as int), 255);
    }

    proof fn lemma_dist_sq_symmetric(a: Self, b: Self) {
    }

    proof fn lemma_dist_sq_zero(a: Self, b: Self) {
        lemma_sq_zero(abs_diff(a.0 as int, b.0 as int));
        lemma_sq_zero(abs_diff(a.1 as int, b.1 as int));
        lemma_sq_zero(abs_diff(a.2 as int, b.2 as int));
        lemma_sq_zero(abs_diff(a.3 as int, b.3 as int));
    }

    proof fn lemma_mean_singleton(p: Self) {
        let s = seq![p];
        assert(s.map_values(|q: (i8, i8, i8, i8)| q.0 as int) =~= seq![p.0 as int]);
        assert(s.map_values(|q: (i8, i8, i8, i8)| q.1 as int) =~= seq![p.1 as int]);
        assert(s.map_values(|q: (i8, i8, i8, i8)| q.2 as int) =~= seq![p.2 as int]);
        assert(s.map_values(|q: (i8, i8, i8, i8)| q.3 as int) =~= seq![p.3 as int]);
        lemma_sum_int_singleton(p.0 as int);
        lemma_sum_int_singleton(p.1 as int);
        lemma_sum_int_singleton(p.2 as int);
        lemma_sum_int_singleton(p.3 as int);
        lemma_div_trunc_by_one(p.0 as int);
        lemma_div_trunc_by_one(p.1 as int);
        lemma_div_trunc_by_one(p.2 as int);
        lemma_div_trunc_by_one(p.3 as int);
    }

    fn dist_sq(&self, other: &Self) -> (r: u64) {
        let dxw: i16 = self.0 as i16 - other.0 as i16;
        let dyw: i16 = self.1 as i16 - other.1 as i16;
        let dzw: i16 = self.2 as i16 - other.2 as i16;
        let dww: i16 = self.3 as i16 - other.3 as i16;
        let dx: u64 = if dxw >= 0 {
            dxw as u64
        } else {
            (-dxw) as u64
        };
        let dy: u64 = if dyw >= 0 {
            dyw as u64
        } else {
            (-dyw) as u64
        };
        let dz: u64 = if dzw >= 0 {
            dzw as u64
        } else {
            (-dzw) as u64
        };
        let dw: u64 = if dww >= 0 {
            dww as u64
        } else {
            (-dww) as u64
        };
        proof {
            lemma_sq_bounds(dx as int, 255);
            lemma_sq_bounds(dy as int, 255);
            lemma_sq_bounds(dz as int, 255);
            lemma_sq_bounds(dw as int, 255);
        }
        dx * dx + dy * dy + dz * dz + dw * dw
    }

    fn mean(ps: &Vec<Self>) -> (r: Self) {
        let ghost xs = ps@.map_values(|p: (i8, i8, i8, i8)| p.0 as int);
        let ghost ys = ps@.map_values(|p: (i8, i8, i8, i8)| p.1 as int);
        let ghost zs = ps@.map_values(|p: (i8, i8, i8, i8)| p.2 as int);
        let ghost ws = ps@.map_values(|p: (i8, i8, i8, i8)| p.3 as int);
        let mut sx: i128 = 0;
        let mut sy: i128 = 0;
        let mut sz: i128 = 0;
        let mut sw: i128 = 0;
        let mut i: usize = 0;
        while i < ps.len()
            invariant
                xs == ps@.map_values(|p: (i8, i8, i8, i8)| p.0 as int),
                ys == ps@.map_values(|p: (i8, i8, i8, i8)| p.1 as int),
                zs == ps@.map_values(|p: (i8, i8, i8, i8)| p.2 as int),
                ws == ps@.map_values(|p: (i8, i8, i8, i8)| p.3 as int),
                i <= ps@.len(),
                sx as int == model::sum_int(xs.take(i as int)),
                sy as int == model::sum_int(ys.take(i as int)),
                sz as int == model::sum_int(zs.take(i as int)),
                sw as int == model::sum_int(ws.take(i as int)),
                -128 * i as int <= sx as int <= 127 * i as int,
                -128 * i as int <= sy as int <= 127 * i as int,
                -128 * i as int <= sz as int <= 127 * i as int,
                -128 * i as int <= sw as int <= 127 * i as int,
            decreases ps@.len() - i,
        {
            proof {
                model::lemma_sum_int_take_step(xs, i as int);
                model::lemma_sum_int_take_step(ys, i as int);
                model::lemma_sum_int_take_step(zs, i as int);
                model::lemma_sum_int_take_step(ws, i as int);
            }
            sx = sx + (ps[i].0 as i128);
            sy = sy + (ps[i].1 as i128);
            sz = sz + (ps[i].2 as i128);
            sw = sw + (ps[i].3 as i128);
            i = i + 1;
        }
        proof {
            model::lemma_sum_int_take_all(xs);
            model::lemma_sum_int_take_all(ys);
            model::lemma_sum_int_take_all(zs);
            model::lemma_sum_int_take_all(ws);
        }
        let n = ps.len() as u128;
        let mx = signed_mean_coord_i8(sx, n);
        let my = signed_mean_coord_i8(sy, n);
        let mz = signed_mean_coord_i8(sz, n);
        let mw = signed_mean_coord_i8(sw, n);
        (mx, my, mz, mw)
    }

    fn eq_point(&self, other: &Self) -> (r: bool) {
        self.0 == other.0 && self.1 == other.1 && self.2 == other.2 && self.3 == other.3
    }

    fn copy_point(&self) -> (r: Self) {
        (self.0, self.1, self.2, self.3)
    }
}

/// One coordinate of a truncating signed mean, narrowed to `i8`.
fn signed_mean_coord_i8(s: i128, n: u128) -> (r: i8)
    requires
        n > 0,
        -(i128::MAX as int) <= s as int <= i128::MAX as int,
    ensures
        r as int == div_trunc(s as int, n as int) as i8 as int,
{
    if s >= 0 {
        ((s as u128) / n) as i8
    } else {
        let q = ((-s) as u128) / n;
        proof {
            lemma_div_pos_is_pos((-s) as int, n as int);
            vstd::arithmetic::div_mod::lemma_div_nonincreasing((-s) as int, n as int);
        }
        (-(q as i128)) as i8
    }
}

impl DataPoint for (i16, i16, i16) {
    open spec fn dist_sq_spec(self, other: Self) -> int {
        let dx = abs_diff(self.0 as int, other.0 as int);
        let dy = abs_diff(self.1 as int, other.1 as int);
        let dz = abs_diff(self.2 as int, other.2 as int);
        dx * dx + dy * dy + dz * dz
    }

    open spec fn mean_spec(ps: Seq<Self>) -> Self {
        let n = ps.len() as int;
        let sx = model::sum_int(ps.map_values(|p: (i16, i16, i16)| p.0 as int));
        let sy = model::sum_int(ps.map_values(|p: (i16, i16, i16)| p.1 as int));
        let sz = model::sum_int(ps.map_values(|p: (i16, i16, i16)| p.2 as int));
        (
            (div_trunc(sx, n) as i16),
            (div_trunc(sy, n) as i16),
            (div_trunc(sz, n) as i16),
        )
    }

    proof fn lemma_dist_sq_bounds(a: Self, b: Self) {
        lemma_sq_bounds(abs_diff(a.0 as int, b.0 as int), 65535);
        lemma_sq_bounds(abs_diff(a.1 as int, b.1 as int), 65535);
        lemma_sq_bounds(abs_diff(a.2 as int, b.2 as int), 65535);
    }

    proof fn lemma_dist_sq_symmetric(a: Self, b: Self) {
    }

    proof fn lemma_dist_sq_zero(a: Self, b: Self) {
        lemma_sq_zero(abs_diff(a.0 as int, b.0 as int));
        lemma_sq_zero(abs_diff(a.1 as int, b.1 as int));
        lemma_sq_zero(abs_diff(a.2 as int, b.2 as int));
    }

    proof fn lemma_mean_singleton(p: Self) {
        let s = seq![p];
        assert(s.map_values(|q: (i16, i16, i16)| q.0 as int) =~= seq![p.0 as int]);
        assert(s.map_values(|q: (i16, i16, i16)| q.1 as int) =~= seq![p.1 as int]);
        assert(s.map_values(|q: (i16, i16, i16)| q.2 as int) =~= seq![p.2 as int]);
        lemma_sum_int_singleton(p.0 as int);
        lemma_sum_int_singleton(p.1 as int);
        lemma_sum_int_singleton(p.2 as int);
        lemma_div_trunc_by_one(p.0 as int);
        lemma_div_trunc_by_one(p.1 as int);
        lemma_div_trunc_by_one(p.2 as int);
    }

    fn dist_sq(&self, other: &Self) -> (r: u64) {
        let dxw: i32 = self.0 as i32 - other.0 as i32;
        let dyw: i32 = self.1 as i32 - other.1 as i32;
        let dzw: i32 = self.2 as i32 - other.2 as i32;
        let dx: u64 = if dxw >= 0 {
            dxw as u64
        } else {
            (-dxw) as u64
        };
        let dy: u64 = if dyw >= 0 {
            dyw as u64
        } else {
            (-dyw) as u64
        };
        let dz: u64 = if dzw >= 0 {
            dzw as u64
        } else {
            (-dzw) as u64
        };
        proof {
            lemma_sq_bounds(dx as int, 65535);
            lemma_sq_bounds(dy as int, 65535);
            lemma_sq_bounds(dz as int, 65535);
        }
        dx * dx + dy * dy + dz * dz
    }

    fn mean(ps: &Vec<Self>) -> (r: Self) {
        let ghost xs = ps@.map_values(|p: (i16, i16, i16)| p.0 as int);
        let ghost ys = ps@.map_values(|p: (i16, i16, i16)| p.1 as int);
        let ghost zs = ps@.map_values(|p: (i16, i16, i16)| p.2 as int);
        let mut sx: i128 = 0;
        let mut sy: i128 = 0;
        let mut sz: i128 = 0;
        let mut i: usize = 0;
        while i < ps.len()
            invariant
                xs == ps@.map_values(|p: (i16, i16, i16)| p.0 as int),
                ys == ps@.map_values(|p: (i16, i16, i16)| p.1 as int),
                zs == ps@.map_values(|p: (i16, i16, i16)| p.2 as int),
                i <= ps@.len(),
                sx as int == model::sum_int(xs.take(i as int)),
                sy as int == model::sum_int(ys.take(i as int)),
                sz as int == model::sum_int(zs.take(i as int)),
                -32768 * i as int <= sx as int <= 32767 * i as int,
                -32768 * i as int <= sy as int <= 32767 * i as int,
                -32768 * i as int <= sz as int <= 32767 * i as int,
            decreases ps@.len() - i,
        {
            proof {
                model::lemma_sum_int_take_step(xs, i as int);
                model::lemma_sum_int_take_step(ys, i as int);
                model::lemma_sum_int_take_step(zs, i as int);
            }
            sx = sx + (ps[i].0 as i128);
            sy = sy + (ps[i].1 as i128);
            sz = sz + (ps[i].2 as i128);
            i = i + 1;
        }
        proof {
            model::lemma_sum_int_take_all(xs);
            model::lemma_sum_int_take_all(ys);
            model::lemma_sum_int_take_all(zs);
        }
        let n = ps.len() as u128;
        let mx = signed_mean_coord(sx, n);
        let my = signed_mean_coord(sy, n);
        let mz = signed_mean_coord(sz, n);
        (mx, my, mz)
    }

    fn eq_point(&self, other: &Self) -> (r: bool) {
        self.0 == other.0 && self.1 == other.1 && self.2 == other.2
    }

    fn copy_point(&self) -> (r: Self) {
        (self.0, self.1, self.2)
    }
}

impl DataPoint for (u16, u16, u16, u16) {
    open spec fn dist_sq_spec(self, other: Self) -> int {
        let dx = abs_diff(self.0 as int, other.0 as int);
        let dy = abs_diff(self.1 as int, other.1 as int);
        let dz = abs_diff(self.2 as int, other.2 as int);
        let dw = abs_diff(self.3 as int, other.3 as int);
        dx * dx + dy * dy + dz * dz + dw * dw
    }

    open spec fn mean_spec(ps: Seq<Self>) -> Self {
        let n = ps.len() as int;
        let sx = model::sum_int(ps.map_values(|p: (u16, u16, u16, u16)| p.0 as int));
        let sy = model::sum_int(ps.map_values(|p: (u16, u16, u16, u16)| p.1 as int));
        let sz = model::sum_int(ps.map_values(|p: (u16, u16, u16, u16)| p.2 as int));
        let sw = model::sum_int(ps.map_values(|p: (u16, u16, u16, u16)| p.3 as int));
        (((sx / n) as u16), ((sy / n) as u16), ((sz / n) as u16), ((sw / n) as u16))
    }

    proof fn lemma_dist_sq_bounds(a: Self, b: Self) {
        lemma_sq_bounds(abs_diff(a.0 as int, b.0 as int), 65535);
        lemma_sq_bounds(abs_diff(a.1 as int, b.1 as int), 65535);
        lemma_sq_bounds(abs_diff(a.2 as int, b.2 as int), 65535);
        lemma_sq_bounds(abs_diff(a.3 as int, b.3 as int), 65535);
    }

    proof fn lemma_dist_sq_symmetric(a: Self, b: Self) {
    }

    proof fn lemma_dist_sq_zero(a: Self, b: Self) {
        lemma_sq_zero(abs_diff(a.0 as int, b.0 as int));
        lemma_sq_zero(abs_diff(a.1 as int, b.1 as int));
        lemma_sq_zero(abs_diff(a.2 as int, b.2 as int));
        lemma_sq_zero(abs_diff(a.3 as int, b.3 as int));
    }

    proof fn lemma_mean_singleton(p: Self) {
        let s = seq![p];
        assert(s.map_values(|q: (u16, u16, u16, u16)| q.0 as int) =~= seq![p.0 as int]);
        assert(s.map_values(|q: (u16, u16, u16, u16)| q.1 as int) =~= seq![p.1 as int]);
        assert(s.map_values(|q: (u16, u16, u16, u16)| q.2 as int) =~= seq![p.2 as int]);
        assert(s.map_values(|q: (u16, u16, u16, u16)| q.3 as int) =~= seq![p.3 as int]);
        lemma_sum_int_singleton(p.0 as int);
        lemma_sum_int_singleton(p.1 as int);
        lemma_sum_int_singleton(p.2 as int);
        lemma_sum_int_singleton(p.3 as int);
        lemma_div_basics(p.0 as int);
        lemma_div_basics(p.1 as int);
        lemma_div_basics(p.2 as int);
        lemma_div_basics(p.3 as int);
    }

    fn dist_sq(&self, other: &Self) -> (r: u64) {
        let dx: u64 = if self.0 >= other.0 {
            (self.0 - other.0) as u64
        } else {
            (other.0 - self.0) as u64
        };
        let dy: u64 = if self.1 >= other.1 {
            (self.1 - other.1) as u64
        } else {
            (other.1 - self.1) as u64
        };
        let dz: u64 = if self.2 >= other.2 {
            (self.2 - other.2) as u64
        } else {
            (other.2 - self.2) as u64
        };
        let dw: u64 = if self.3 >= other.3 {
            (self.3 - other.3) as u64
        } else {
            (other.3 - self.3) as u64
        };
        proof {
            lemma_sq_bounds(dx as int, 65535);
            lemma_sq_bounds(dy as int, 65535);
            lemma_sq_bounds(dz as int, 65535);
            lemma_sq_bounds(dw as int, 65535);
        }
        dx * dx + dy * dy + dz * dz + dw * dw
    }

    fn mean(ps: &Vec<Self>) -> (r: Self) {
        let ghost xs = ps@.map_values(|p: (u16, u16, u16, u16)| p.0 as int);
        let ghost ys = ps@.map_values(|p: (u16, u16, u16, u16)| p.1 as int);
        let ghost zs = ps@.map_values(|p: (u16, u16, u16, u16)| p.2 as int);
        let ghost ws = ps@.map_values(|p: (u16, u16, u16, u16)| p.3 as int);
        let mut sx: u128 = 0;
        let mut sy: u128 = 0;
        let mut sz: u128 = 0;
        let mut sw: u128 = 0;
        let mut i: usize = 0;
        while i < ps.len()
            invariant
                xs == ps@.map_values(|p: (u16, u16, u16, u16)| p.0 as int),
                ys == ps@.map_values(|p: (u16, u16, u16, u16)| p.1 as int),
                zs == ps@.map_values(|p: (u16, u16, u16, u16)| p.2 as int),
                ws == ps@.map_values(|p: (u16, u16, u16, u16)| p.3 as int),
                i <= ps@.len(),
                sx as int == model::sum_int(xs.take(i as int)),
                sy as int == model::sum_int(ys.take(i as int)),
                sz as int == model::sum_int(zs.take(i as int)),
                sw as int == model::sum_int(ws.take(i as int)),
                sx as int <= 65535 * i as int,
                sy as int <= 65535 * i as int,
                sz as int <= 65535 * i as int,
                sw as int <= 65535 * i as int,
            decreases ps@.len() - i,
        {
            proof {
                model::lemma_sum_int_take_step(xs, i as int);
                model::lemma_sum_int_take_step(ys, i as int);
                model::lemma_sum_int_take_step(zs, i as int);
                model::lemma_sum_int_take_step(ws, i as int);
            }
            sx = sx + (ps[i].0 as u128);
            sy = sy + (ps[i].1 as u128);
            sz = sz + (ps[i].2 as u128);
            sw = sw + (ps[i].3 as u128);
            i = i + 1;
        }
        proof {
            model::lemma_sum_int_take_all(xs);
            model::lemma_sum_int_take_all(ys);
            model::lemma_sum_int_take_all(zs);
            model::lemma_sum_int_take_all(ws);
        }
        let n = ps.len() as u128;
        ((sx / n) as u16, (sy / n) as u16, (sz / n) as u16, (sw / n) as u16)
    }

    fn eq_point(&self, other: &Self) -> (r: bool) {
        self.0 == other.0 && self.1 == other.1 && self.2 == other.2 && self.3 == other.3
    }

    fn copy_point(&self) -> (r: Self) {
        (self.0, self.1, self.2, self.3)
    }
}

} // verus!
