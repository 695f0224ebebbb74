//! The mathematical model of a bucket layout: which bucket a value falls
//! into, and which values a bucket covers.

use vstd::arithmetic::div_mod::{lemma_fundamental_div_mod, lemma_fundamental_div_mod_converse};
use vstd::arithmetic::power2::{
    lemma2_to64, lemma_pow2_adds, lemma_pow2_pos, lemma_pow2_strictly_increases,
    lemma_pow2_unfold, pow2,
};
use vstd::prelude::*;

verus! {

/// The position of the highest set bit of `v`: the `e` with
/// `2^e <= v < 2^(e + 1)`. Zero for `v == 0`.
pub open spec fn floor_log2(v: nat) -> nat
    decreases v,
{
    if v <= 1 {
        0
    } else {
        1 + floor_log2(v / 2)
    }
}

/// The three parameters of a bucket layout, as natural numbers.
pub struct Layout {
    /// log2 of the width of a bucket in the linear region.
    pub a: nat,
    /// log2 of the number of buckets in the linear region and in each
    /// power-of-two band of the logarithmic region.
    pub b: nat,
    /// log2 of one past the largest representable value.
    pub n: nat,
}

impl Layout {
    /// The parameters describe a layout.
    pub open spec fn valid(self) -> bool {
        self.n <= 64 && self.a + self.b < self.n
    }

    /// Number of buckets in the linear region.
    pub open spec fn linear_bins(self) -> nat {
        pow2(self.b)
    }

    /// The first value of the logarithmic region.
    pub open spec fn threshold(self) -> nat {
        pow2(self.a + self.b)
    }

    /// Number of buckets in the logarithmic region.
    pub open spec fn log_bins(self) -> nat {
        ((self.n - self.a - self.b) * pow2(self.b)) as nat
    }

    /// Number of buckets in all.
    pub open spec fn total_bins(self) -> nat {
        self.linear_bins() + self.log_bins()
    }

    /// One past the largest representable value.
    pub open spec fn limit(self) -> nat {
        pow2(self.n)
    }

    /// The index of the bucket that holds `v`.
    pub open spec fn index_of(self, v: nat) -> nat {
        if v < self.threshold() {
            v / pow2(self.a)
        } else {
            let e = floor_log2(v);
            let offset = ((v - pow2(e)) / (pow2((e - self.b) as nat) as int)) as nat;
            (self.linear_bins() + (e - (self.a + self.b)) * pow2(self.b) + offset) as nat
        }
    }

    /// The power-of-two band of a bucket in the logarithmic region: the
    /// position of the highest set bit of every value in it.
    pub open spec fn exponent(self, index: nat) -> nat {
        self.a + self.b + ((index - self.linear_bins()) / (pow2(self.b) as int)) as nat
    }

    /// The position of a bucket of the logarithmic region within its band.
    pub open spec fn offset(self, index: nat) -> nat {
        ((index - self.linear_bins()) % (pow2(self.b) as int)) as nat
    }

    /// The number of values that the bucket covers.
    pub open spec fn width(self, index: nat) -> nat {
        if index < self.linear_bins() {
            pow2(self.a)
        } else {
            pow2((self.exponent(index) - self.b) as nat)
        }
    }

    /// The smallest value of the bucket.
    pub open spec fn lower_bound(self, index: nat) -> nat {
        if index < self.linear_bins() {
            index * pow2(self.a)
        } else {
            pow2(self.exponent(index)) + self.offset(index) * self.width(index)
        }
    }

    /// The largest value of the bucket.
    pub open spec fn upper_bound(self, index: nat) -> nat {
        (self.lower_bound(index) + self.width(index) - 1) as nat
    }
}

/// A positive value lies between the power of two at its highest set bit
/// and the next one.
pub proof fn lemma_floor_log2_bounds(v: nat)
    requires
        v > 0,
    ensures
        pow2(floor_log2(v)) <= v < pow2(floor_log2(v) + 1),
    decreases v,
{
    lemma_pow2_unfold(floor_log2(v) + 1);
    if v <= 1 {
        lemma2_to64();
    } else {
        lemma_floor_log2_bounds(v / 2);
        lemma_pow2_unfold(floor_log2(v));
    }
}

/// The highest set bit grows with the value.
pub proof fn lemma_floor_log2_range(v: nat, lo: nat, hi: nat)
    requires
        pow2(lo) <= v < pow2(hi),
    ensures
        lo <= floor_log2(v) < hi,
{
    lemma_pow2_pos(lo);
    lemma_floor_log2_bounds(v);
    let e = floor_log2(v);
    if e < lo {
        lemma_pow2_strictly_increases(e + 1, lo);
        if e + 1 < lo {
        }
    }
    if e >= hi {
        if e > hi {
            lemma_pow2_strictly_increases(hi, e);
        }
    }
}

/// A quotient and a remainder determine the number they were taken from.
proof fn lemma_div_mod_of_parts(d: nat, q: nat, r: nat)
    requires
        r < d,
    ensures
        (q * d + r) as int / (d as int) == q,
        (q * d + r) as int % (d as int) == r,
{
    lemma_fundamental_div_mod_converse((q * d + r) as int, d as int, q as int, r as int);
}

/// A divisor splits a number into a multiple of it and a rest below it.
proof fn lemma_div_mod_parts(x: nat, d: nat)
    requires
        d > 0,
    ensures
        x == (x / d) * d + x % d,
        0 <= x % d < d,
        0 <= x / d,
{
    lemma_fundamental_div_mod(x as int, d as int);
    assert((x / d) * d == d * (x / d)) by (nonlinear_arith);
    assert(0 <= x / d) by (nonlinear_arith)
        requires
            d > 0,
            x >= 0,
    ;
}

/// `q * d <= x < (q + 1) * d` says that `q` is the quotient of `x` by `d`.
proof fn lemma_quotient_bounds(x: nat, d: nat, q: nat)
    requires
        d > 0,
        q == x / d,
    ensures
        q * d <= x < q * d + d,
{
    lemma_div_mod_parts(x, d);
}

impl Layout {
    /// A bucket of the logarithmic region, given by its band and its
    /// position in the band.
    pub open spec fn log_index(self, band: nat, offset: nat) -> nat {
        self.linear_bins() + band * pow2(self.b) + offset
    }

    /// Band and position give the bucket back.
    pub proof fn lemma_log_index_parts(self, band: nat, offset: nat)
        requires
            offset < pow2(self.b),
        ensures
            self.log_index(band, offset) >= self.linear_bins(),
            self.exponent(self.log_index(band, offset)) == self.a + self.b + band,
            self.offset(self.log_index(band, offset)) == offset,
            band < self.n - self.a - self.b ==> self.log_index(band, offset) < self.total_bins(),
    {
        let d = pow2(self.b);
        lemma_div_mod_of_parts(d, band, offset);
        assert(band * d >= 0) by (nonlinear_arith)
            requires
                band >= 0,
                d >= 0,
        ;
        if band < self.n - self.a - self.b {
            assert(band * d + d <= (self.n - self.a - self.b) * d) by (nonlinear_arith)
                requires
                    band + 1 <= self.n - self.a - self.b,
                    d >= 0,
            ;
        }
    }

    /// Every bucket of the logarithmic region has a band below `n - a - b`
    /// and a position below `2^b`.
    pub proof fn lemma_log_parts_of_index(self, index: nat)
        requires
            self.valid(),
            self.linear_bins() <= index < self.total_bins(),
        ensures
            index == self.log_index(
                (self.exponent(index) - self.a - self.b) as nat,
                self.offset(index),
            ),
            self.a + self.b <= self.exponent(index) < self.n,
            self.offset(index) < pow2(self.b),
    {
        let d = pow2(self.b);
        lemma_pow2_pos(self.b);
        let j = (index - d) as nat;
        lemma_div_mod_parts(j, d);
        let q = j / d;
        let span = (self.n - self.a - self.b) as nat;
        if q >= span {
            assert(q * d >= span * d) by (nonlinear_arith)
                requires
                    q >= span,
                    d >= 0,
            ;
        }
    }

    /// A representable value lies within the bounds of its bucket, and that
    /// bucket exists.
    pub proof fn lemma_value_in_bucket(self, v: nat)
        requires
            self.valid(),
            v < self.limit(),
        ensures
            self.index_of(v) < self.total_bins(),
            self.lower_bound(self.index_of(v)) <= v <= self.upper_bound(self.index_of(v)),
    {
        let w = pow2(self.a);
        let d = pow2(self.b);
        lemma_pow2_pos(self.a);
        lemma_pow2_pos(self.b);
        lemma_pow2_adds(self.a, self.b);
        let span = (self.n - self.a - self.b) as nat;
        assert(span * d >= 0) by (nonlinear_arith)
            requires
                span >= 0,
                d >= 0,
        ;
        if v < self.threshold() {
            let i = v / w;
            lemma_quotient_bounds(v, w, i);
            if i >= d {
                assert(i * w >= d * w) by (nonlinear_arith)
                    requires
                        i >= d,
                        w >= 0,
                ;
                assert(d * w == w * d) by (nonlinear_arith);
            }
        } else {
            lemma_pow2_pos(self.a + self.b);
            lemma_floor_log2_bounds(v);
            lemma_floor_log2_range(v, self.a + self.b, self.n);
            let e = floor_log2(v);
            let step = pow2((e - self.b) as nat);
            lemma_pow2_pos((e - self.b) as nat);
            lemma_pow2_adds((e - self.b) as nat, self.b);
            lemma_pow2_unfold(e + 1);
            let rest = (v - pow2(e)) as nat;
            let off = rest / step;
            lemma_quotient_bounds(rest, step, off);
            if off >= d {
                assert(off * step >= d * step) by (nonlinear_arith)
                    requires
                        off >= d,
                        step >= 0,
                ;
                assert(d * step == step * d) by (nonlinear_arith);
            }
            let band = (e - self.a - self.b) as nat;
            self.lemma_log_index_parts(band, off);
            assert(self.index_of(v) == self.log_index(band, off));
        }
    }

    /// The bucket of a value exists where the value is representable.
    pub proof fn lemma_value_in_bucket_if(self, v: nat)
        requires
            self.valid(),
        ensures
            v < self.limit() ==> self.index_of(v) < self.total_bins(),
    {
        if v < self.limit() {
            self.lemma_value_in_bucket(v);
        }
    }

    /// Consecutive buckets are contiguous: each starts one past the end of
    /// the bucket before it.
    pub proof fn lemma_buckets_contiguous(self, index: nat)
        requires
            self.valid(),
            index + 1 < self.total_bins(),
        ensures
            self.upper_bound(index) + 1 == self.lower_bound(index + 1),
    {
        let w = pow2(self.a);
        let d = pow2(self.b);
        lemma_pow2_pos(self.a);
        lemma_pow2_pos(self.b);
        lemma_pow2_adds(self.a, self.b);
        if index + 1 < d {
            assert((index + 1) * w == index * w + w) by (nonlinear_arith);
        } else if index + 1 == d {
            self.lemma_log_index_parts(0, 0);
            assert(self.log_index(0, 0) == d) by (nonlinear_arith)
                requires
                    self.log_index(0, 0) == d + 0 * d + 0,
            ;
            assert(index * w + w == d * w) by (nonlinear_arith)
                requires
                    index + 1 == d,
            ;
            assert(d * w == w * d) by (nonlinear_arith);
            assert(0 * pow2((self.a + self.b + 0 - self.b) as nat) == 0) by (nonlinear_arith);
        } else {
            self.lemma_log_parts_of_index(index);
            let e = self.exponent(index);
            let band = (e - self.a - self.b) as nat;
            let off = self.offset(index);
            let step = pow2((e - self.b) as nat);
            lemma_pow2_pos((e - self.b) as nat);
            lemma_pow2_adds((e - self.b) as nat, self.b);
            assert(self.upper_bound(index) + 1 == pow2(e) + off * step + step);
            if off + 1 < d {
                self.lemma_log_index_parts(band, off + 1);
                assert(self.log_index(band, off + 1) == index + 1);
                assert((off + 1) * step == off * step + step) by (nonlinear_arith);
            } else {
                self.lemma_log_index_parts(band + 1, 0);
                assert(self.log_index(band + 1, 0) == index + 1) by (nonlinear_arith)
                    requires
                        index == d + band * d + off,
                        off + 1 == d,
                        self.log_index(band + 1, 0) == d + (band + 1) * d + 0,
                ;
                lemma_pow2_unfold(e + 1);
                assert(off * step + step == step * d) by (nonlinear_arith)
                    requires
                        off + 1 == d,
                ;
                assert(0 * pow2((e + 1 - self.b) as nat) == 0) by (nonlinear_arith);
            }
        }
    }

    /// The bounds of a bucket are in order and below the limit.
    pub proof fn lemma_bounds_ordered(self, index: nat)
        requires
            self.valid(),
            index < self.total_bins(),
        ensures
            self.lower_bound(index) <= self.upper_bound(index) < self.limit(),
        decreases self.total_bins() - index,
    {
        lemma_pow2_pos(self.a);
        if index >= self.linear_bins() {
            self.lemma_log_parts_of_index(index);
            lemma_pow2_pos((self.exponent(index) - self.b) as nat);
        }
        if index + 1 < self.total_bins() {
            self.lemma_bounds_ordered(index + 1);
            self.lemma_buckets_contiguous(index);
        } else {
            self.lemma_buckets_cover();
        }
    }

    /// Buckets ascend: a later bucket starts above the end of an earlier
    /// one, so that no two buckets overlap.
    pub proof fn lemma_buckets_ascend(self, earlier: nat, later: nat)
        requires
            self.valid(),
            earlier < later < self.total_bins(),
        ensures
            self.upper_bound(earlier) < self.lower_bound(later),
        decreases later - earlier,
    {
        self.lemma_buckets_contiguous(earlier);
        if earlier + 1 < later {
            self.lemma_bounds_ordered(earlier + 1);
            self.lemma_buckets_ascend(earlier + 1, later);
        }
    }

    /// A value lies in no bucket but its own.
    pub proof fn lemma_bucket_unique(self, v: nat, index: nat)
        requires
            self.valid(),
            index < self.total_bins(),
            self.lower_bound(index) <= v <= self.upper_bound(index),
        ensures
            v < self.limit(),
            self.index_of(v) == index,
    {
        self.lemma_bounds_ordered(index);
        self.lemma_value_in_bucket(v);
        let own = self.index_of(v);
        if own < index {
            self.lemma_buckets_ascend(own, index);
        } else if index < own {
            self.lemma_buckets_ascend(index, own);
        }
    }

    /// The first bucket starts at zero and the last one ends at the largest
    /// representable value.
    pub proof fn lemma_buckets_cover(self)
        requires
            self.valid(),
        ensures
            self.total_bins() > 0,
            self.lower_bound(0) == 0,
            self.upper_bound((self.total_bins() - 1) as nat) == self.limit() - 1,
    {
        let d = pow2(self.b);
        lemma_pow2_pos(self.a);
        lemma_pow2_pos(self.b);
        let span = (self.n - self.a - self.b) as nat;
        assert(0 * pow2(self.a) == 0) by (nonlinear_arith);
        let band = (span - 1) as nat;
        let off = (d - 1) as nat;
        self.lemma_log_index_parts(band, off);
        assert(self.log_index(band, off) == self.total_bins() - 1) by (nonlinear_arith)
            requires
                self.log_index(band, off) == d + band * d + off,
                off == d - 1,
                band == span - 1,
                self.total_bins() == d + span * d,
        ;
        let e = (self.n - 1) as nat;
        let step = pow2((e - self.b) as nat);
        lemma_pow2_adds((e - self.b) as nat, self.b);
        lemma_pow2_unfold(self.n);
        lemma_pow2_pos((e - self.b) as nat);
        let last = (self.total_bins() - 1) as nat;
        assert(last >= d);
        assert(self.exponent(last) == e);
        assert(((e - self.b) as nat + self.b) as nat == e);
        assert(pow2(e) == step * d);
        assert(self.upper_bound(last) == pow2(e) + off * step + step - 1);
        assert(off * step + step == step * d) by (nonlinear_arith)
            requires
                off + 1 == d,
        ;
    }
}

} // verus!
