//! The executable bucket layout: construction from its three parameters
//! and the mappings between values and bucket indices.

use crate::errors::{BuildError, Error};
use crate::layout::{floor_log2, lemma_floor_log2_bounds, lemma_floor_log2_range, Layout};
use vstd::arithmetic::power2::{
    lemma2_to64, lemma2_to64_rest, lemma_pow2_adds, lemma_pow2_pos,
    lemma_pow2_strictly_increases, pow2,
};
use vstd::bits::{lemma_u64_shl_is_mul, lemma_u64_shr_is_div, lemma_usize_shl_is_mul};
use vstd::prelude::*;
use vstd::std_specs::bits::u64_leading_zeros;

verus! {

/// The number of leading zero bits of a positive value tells the position
/// of its highest set bit.
proof fn lemma_leading_zeros_is_log2(v: u64)
    requires
        v > 0,
    ensures
        u64_leading_zeros(v) == 63 - floor_log2(v as nat),
    decreases v,
{
    reveal(u64_leading_zeros);
    if v == 1 {
        assert(u64_leading_zeros(0) == 64);
        assert(u64_leading_zeros(1) == u64_leading_zeros(0) - 1);
    } else {
        lemma_leading_zeros_is_log2(v / 2);
    }
}

/// The largest number of buckets that a layout may have on this machine:
/// as many as counters of 64 bits can be allocated at once.
pub open spec fn max_bins() -> nat {
    (isize::MAX / 8) as nat
}

/// A `usize` can hold the index of every bucket of the layout.
pub open spec fn indices_fit(layout: Layout) -> bool {
    layout.total_bins() <= usize::MAX + 1
}

/// No number of bits falls short of the power of two of one bit less.
proof fn lemma_pow2_above(j: nat)
    ensures
        j + 1 <= pow2(j),
    decreases j,
{
    lemma2_to64();
    if j > 0 {
        lemma_pow2_above((j - 1) as nat);
        vstd::arithmetic::power2::lemma_pow2_unfold(j);
    }
}

/// Where a `usize` has 64 bits, it can hold the index of every bucket of
/// every layout.
pub proof fn lemma_indices_fit(layout: Layout)
    requires
        layout.valid(),
        usize::MAX == u64::MAX,
    ensures
        indices_fit(layout),
{
    let j = (64 - layout.b) as nat;
    let d = pow2(layout.b);
    let bands = (layout.n - layout.a - layout.b + 1) as nat;
    lemma_pow2_above(j);
    lemma_pow2_adds(layout.b, j);
    lemma2_to64();
    lemma2_to64_rest();
    lemma_pow2_pos(layout.b);
    assert(layout.total_bins() == d * bands) by (nonlinear_arith)
        requires
            layout.total_bins() == d + (bands - 1) * d,
    ;
    assert(d * bands <= d * pow2(j)) by (nonlinear_arith)
        requires
            bands <= pow2(j),
            d >= 0,
    ;
}

/// A bucket layout: three parameters that passed validation.
#[derive(Clone, Copy, Debug)]
pub struct Config {
    a: u8,
    b: u8,
    n: u8,
}

impl View for Config {
    type V = Layout;

    closed spec fn view(&self) -> Layout {
        Layout { a: self.a as nat, b: self.b as nat, n: self.n as nat }
    }
}

impl Config {
    #[verifier::type_invariant]
    spec fn inv(self) -> bool {
        self@.valid()
    }

    /// What `new` answers for the three parameters.
    pub open spec fn spec_new(a: u8, b: u8, n: u8) -> Result<Layout, BuildError> {
        if n > 64 {
            Err(BuildError::MaxPowerTooHigh)
        } else if a + b >= n {
            Err(BuildError::MaxPowerTooLow)
        } else {
            Ok(Layout { a: a as nat, b: b as nat, n: n as nat })
        }
    }

    /// What a constructor answers that validates the three parameters and
    /// then allocates a counter for every bucket: what `new` answers, and
    /// `TooManyBuckets` for a layout of more than `max_bins()` buckets.
    pub open spec fn spec_counters(a: u8, b: u8, n: u8) -> Result<Layout, BuildError> {
        match Self::spec_new(a, b, n) {
            Err(e) => Err(e),
            Ok(layout) => if layout.total_bins() > max_bins() {
                Err(BuildError::TooManyBuckets)
            } else {
                Ok(layout)
            },
        }
    }

    /// Validates the parameters of a layout.
    ///
    /// * `a` sets the bucket width in the linear region to `2^a`
    /// * `b` sets the number of buckets per power of two to `2^b`
    /// * `n` sets the largest value to `2^n - 1`
    ///
    /// `n` may be 64 at most and must be greater than `a + b`.
    pub fn new(a: u8, b: u8, n: u8) -> (r: Result<Config, BuildError>)
        ensures
            match r {
                Ok(c) => Self::spec_new(a, b, n) == Ok::<Layout, BuildError>(c@),
                Err(e) => Self::spec_new(a, b, n) == Err::<Layout, BuildError>(e),
            },
    {
        if n > 64 {
            return Err(BuildError::MaxPowerTooHigh);
        }
        if a as u16 + b as u16 >= n as u16 {
            return Err(BuildError::MaxPowerTooLow);
        }
        Ok(Config { a, b, n })
    }

    /// The number of buckets of the layout, or `None` for a layout of more
    /// than `max_bins()` buckets: more than counters can be allocated for.
    pub fn checked_total_bins(&self) -> (r: Option<usize>)
        ensures
            self@.total_bins() <= max_bins() <==> r is Some,
            r is Some ==> r->Some_0 == self@.total_bins(),
    {
        proof {
            use_type_invariant(self);
        }
        let b = self.b;
        let ghost layout = self@;
        let bands: usize = (self.n - self.a - self.b) as usize + 1;
        proof {
            lemma2_to64();
            lemma2_to64_rest();
            lemma_pow2_pos(b as nat);
            assert(layout.total_bins() == bands * pow2(b as nat)) by (nonlinear_arith)
                requires
                    layout.total_bins() == pow2(b as nat) + (bands - 1) * pow2(b as nat),
            ;
            assert(bands * pow2(b as nat) >= pow2(b as nat)) by (nonlinear_arith)
                requires
                    bands >= 1,
            ;
        }
        if b as u32 >= usize::BITS {
            proof {
                if b as nat > usize::BITS as nat {
                    lemma_pow2_strictly_increases(usize::BITS as nat, b as nat);
                }
            }
            return None;
        }
        proof {
            if (b as nat) < (usize::BITS - 1) as nat {
                lemma_pow2_strictly_increases(b as nat, (usize::BITS - 1) as nat);
            }
            lemma_usize_shl_is_mul(1usize, b as usize);
        }
        let per_band: usize = 1usize << (b as usize);
        proof {
            assert(per_band * bands == bands * pow2(b as nat)) by (nonlinear_arith)
                requires
                    per_band == pow2(b as nat),
            ;
        }
        match per_band.checked_mul(bands) {
            None => None,
            Some(total) => {
                if total > isize::MAX as usize / 8 {
                    None
                } else {
                    Some(total)
                }
            },
        }
    }

    /// The parameters `(a, b, n)` that the layout was made from.
    pub fn params(&self) -> (r: (u8, u8, u8))
        ensures
            r.0 == self@.a,
            r.1 == self@.b,
            r.2 == self@.n,
            self@.valid(),
    {
        proof {
            use_type_invariant(self);
        }
        (self.a, self.b, self.n)
    }

    /// The number of buckets of a layout that has no more of them than a
    /// `usize` can count.
    pub fn total_bins(&self) -> (r: usize)
        requires
            self@.total_bins() <= usize::MAX,
        ensures
            r == self@.total_bins(),
            r > 0,
    {
        proof {
            use_type_invariant(self);
            self.lemma_shift_facts();
            self.lemma_shift_fits();
            let layout = self@;
            let d = pow2(self.b as nat);
            assert(layout.total_bins() == (self.n - self.a - self.b + 1) * d) by (nonlinear_arith)
                requires
                    layout.total_bins() == d + (self.n - self.a - self.b) * d,
            ;
            lemma_usize_shl_is_mul(((self.n - self.a - self.b) as usize + 1) as usize, self.b as usize);
            layout.lemma_buckets_cover();
        }
        ((self.n - self.a - self.b) as usize + 1) << (self.b as usize)
    }

    /// Powers of two that the layout's arithmetic relies on.
    proof fn lemma_shift_facts(&self)
        requires
            self.inv(),
        ensures
            self.a + self.b <= 63,
            pow2(self.b as nat) <= u64::MAX,
            pow2(self.a as nat) <= u64::MAX,
            pow2((self.a + self.b) as nat) <= u64::MAX,
            self@.total_bins() >= pow2(self.b as nat),
    {
        lemma2_to64();
        lemma2_to64_rest();
        let d = pow2(self.b as nat);
        let span = (self.n - self.a - self.b) as nat;
        assert(span * d >= 0) by (nonlinear_arith)
            requires
                span >= 0,
                d >= 0,
        ;
        lemma_pow2_le_63(self.b as nat);
        lemma_pow2_le_63(self.a as nat);
        lemma_pow2_le_63((self.a + self.b) as nat);
    }

    /// Where a `usize` can count the buckets, it can hold the number of
    /// buckets of a band.
    proof fn lemma_shift_fits(&self)
        requires
            self.inv(),
            self@.total_bins() <= usize::MAX,
        ensures
            self.b < usize::BITS,
            pow2(self.b as nat) <= usize::MAX,
    {
        self.lemma_shift_facts();
        lemma2_to64();
        lemma2_to64_rest();
        if self.b as nat >= usize::BITS as nat {
            if self.b as nat > usize::BITS as nat {
                lemma_pow2_strictly_increases(usize::BITS as nat, self.b as nat);
            }
        }
    }

    /// What `value_to_index` answers for a value.
    pub open spec fn spec_value_to_index(&self, value: u64) -> Result<usize, Error> {
        if value >= self@.limit() {
            Err(Error::OutOfRange)
        } else {
            Ok(self@.index_of(value as nat) as usize)
        }
    }

    /// The index of the bucket that counts `value`, or `OutOfRange` for a
    /// value of `2^n` or more. A `usize` can hold every index of the
    /// layout, as it can for every layout where it has 64 bits.
    pub fn value_to_index(&self, value: u64) -> (r: Result<usize, Error>)
        requires
            indices_fit(self@),
        ensures
            r == self.spec_value_to_index(value),
            r is Ok ==> r->Ok_0 == self@.index_of(value as nat) && r->Ok_0 < self@.total_bins(),
            r is Ok ==> self@.lower_bound(r->Ok_0 as nat) <= value <= self@.upper_bound(
                r->Ok_0 as nat,
            ),
    {
        proof {
            use_type_invariant(self);
            self.lemma_shift_facts();
            lemma2_to64();
            lemma2_to64_rest();
        }
        let a: u64 = self.a as u64;
        let b: u64 = self.b as u64;
        let n: u64 = self.n as u64;
        if n < 64 {
            proof {
                lemma_pow2_le_63(n as nat);
                lemma_u64_shl_is_mul(1u64, n);
            }
            if value >= (1u64 << n) {
                return Err(Error::OutOfRange);
            }
        }
        proof {
            self@.lemma_value_in_bucket(value as nat);
            lemma_u64_shl_is_mul(1u64, (a + b) as u64);
        }
        let cutoff: u64 = 1u64 << (a + b);
        if value < cutoff {
            proof {
                lemma_u64_shr_is_div(value, a);
            }
            let index: u64 = value >> a;
            return Ok(index as usize);
        }
        let zeros: u32 = value.leading_zeros();
        proof {
            lemma_pow2_pos((a + b) as nat);
            lemma_leading_zeros_is_log2(value);
            lemma_floor_log2_bounds(value as nat);
            lemma_floor_log2_range(value as nat, (a + b) as nat, self@.n);
        }
        let e: u64 = 63 - zeros as u64;
        let shift: u64 = e - b;
        proof {
            lemma_pow2_le_63(e as nat);
            lemma_u64_shl_is_mul(1u64, e);
        }
        let rest: u64 = value - (1u64 << e);
        proof {
            lemma_u64_shr_is_div(rest, shift);
        }
        let offset: u64 = rest >> shift;
        let band: u64 = e - (a + b);
        proof {
            let d = pow2(b as nat);
            let total = self@.total_bins();
            assert(self@.index_of(value as nat) == d + band * d + offset);
            assert(band * d >= 0) by (nonlinear_arith)
                requires
                    band >= 0,
                    d >= 0,
            ;
            lemma_u64_shl_is_mul(band, b);
            lemma_u64_shl_is_mul(1u64, b);
        }
        let index: u64 = (1u64 << b) + (band << b) + offset;
        Ok(index as usize)
    }

    /// The smallest value that the bucket at `index` counts.
    pub fn index_to_lower_bound(&self, index: usize) -> (r: u64)
        requires
            index < self@.total_bins(),
        ensures
            r == self@.lower_bound(index as nat),
    {
        proof {
            use_type_invariant(self);
            self.lemma_shift_facts();
            lemma2_to64();
            lemma2_to64_rest();
            lemma_u64_shl_is_mul(1u64, self.b as u64);
            lemma_pow2_adds(self.b as nat, self.a as nat);
        }
        let a: u64 = self.a as u64;
        let b: u64 = self.b as u64;
        let i: u64 = index as u64;
        let per_band: u64 = 1u64 << b;
        if i < per_band {
            proof {
                let w = pow2(a as nat);
                assert(i * w <= per_band * w) by (nonlinear_arith)
                    requires
                        i <= per_band,
                        w >= 0,
                ;
                lemma_u64_shl_is_mul(i, a);
            }
            return i << a;
        }
        let j: u64 = i - per_band;
        proof {
            self@.lemma_log_parts_of_index(index as nat);
            lemma_u64_shr_is_div(j, b);
        }
        let band: u64 = j >> b;
        proof {
            lemma_u64_shl_is_mul(band, b);
            vstd::arithmetic::div_mod::lemma_fundamental_div_mod(j as int, per_band as int);
            assert(band * per_band == per_band * band) by (nonlinear_arith);
        }
        let offset: u64 = j - (band << b);
        let e: u64 = a + b + band;
        let shift: u64 = e - b;
        proof {
            let step = pow2(shift as nat);
            lemma_pow2_le_63(e as nat);
            lemma_pow2_le_63(shift as nat);
            lemma_pow2_adds(shift as nat, b as nat);
            assert((shift + b) as nat == e as nat);
            assert(offset * step <= (per_band - 1) * step) by (nonlinear_arith)
                requires
                    offset <= per_band - 1,
                    step >= 0,
            ;
            assert((per_band - 1) * step == step * per_band - step) by (nonlinear_arith);
            lemma_u64_shl_is_mul(1u64, e);
            lemma_u64_shl_is_mul(offset, shift);
        }
        (1u64 << e) + (offset << shift)
    }

    /// The number of values that the bucket at `index` counts.
    fn index_to_width(&self, index: usize) -> (r: u64)
        requires
            index < self@.total_bins(),
        ensures
            r == self@.width(index as nat),
            r >= 1,
    {
        proof {
            use_type_invariant(self);
            self.lemma_shift_facts();
            lemma_pow2_pos(self.a as nat);
            lemma_u64_shl_is_mul(1u64, self.b as u64);
            lemma_u64_shl_is_mul(1u64, self.a as u64);
        }
        let a: u64 = self.a as u64;
        let b: u64 = self.b as u64;
        let i: u64 = index as u64;
        let per_band: u64 = 1u64 << b;
        if i < per_band {
            return 1u64 << a;
        }
        let j: u64 = i - per_band;
        proof {
            self@.lemma_log_parts_of_index(index as nat);
            lemma_u64_shr_is_div(j, b);
        }
        let band: u64 = j >> b;
        let shift: u64 = a + band;
        proof {
            lemma_pow2_le_63(shift as nat);
            lemma_u64_shl_is_mul(1u64, shift);
        }
        1u64 << shift
    }

    /// The largest value that the bucket at `index` counts.
    pub fn index_to_upper_bound(&self, index: usize) -> (r: u64)
        requires
            index < self@.total_bins(),
        ensures
            r == self@.upper_bound(index as nat),
    {
        proof {
            use_type_invariant(self);
            lemma2_to64();
            lemma2_to64_rest();
            self@.lemma_bounds_ordered(index as nat);
            if self.n < 64 {
                lemma_pow2_strictly_increases(self.n as nat, 64);
            }
        }
        let lower = self.index_to_lower_bound(index);
        let width = self.index_to_width(index);
        lower + (width - 1)
    }
}

/// Powers of two up to `2^63` fit a `u64`.
proof fn lemma_pow2_le_63(e: nat)
    requires
        e <= 63,
    ensures
        0 < pow2(e) <= 0x8000_0000_0000_0000,
{
    lemma2_to64();
    lemma2_to64_rest();
    lemma_pow2_pos(e);
    if e < 63 {
        lemma_pow2_strictly_increases(e, 63);
    }
}

} // verus!
