//! The share of a split that its first side takes.
//!
//! A share is a binary fraction with the precision of a 32-bit floating point number: 24
//! significant bits, rounded to the nearest value and to the even one in a tie. The arithmetic
//! is done on integers, so that every result is exact and the same on every machine.

use vstd::prelude::*;

verus! {

/// How many parts make up the whole.
pub const WHOLE: u64 = 268435456;

/// The parts of one half.
pub const HALF: u64 = 134217728;

/// The smallest share that a side of a split can have: the number nearest to 0.05.
pub const SMALLEST: u64 = 13421773;

/// The largest share that a side of a split can have: the number nearest to 0.95.
pub const LARGEST: u64 = 255013680;

/// One more than the largest number with 24 significant bits.
pub const PRECISION: u64 = 16777216;

/// A share of a split, in parts of [`WHOLE`].
#[derive(Clone, Copy, Debug, PartialEq, Eq, Structural)]
pub struct Ratio {
    pub parts: u64,
}

/// `num / den` rounded to the nearest integer, and to the even one of two that are equally near.
pub open spec fn nearest_even(num: int, den: int) -> int {
    let down = num / den;
    let rest = num % den;
    if 2 * rest < den || (2 * rest == den && down % 2 == 0) {
        down
    } else {
        down + 1
    }
}

/// The distance between neighbouring numbers of 24 significant bits around `n`: the power of two
/// `s` for which `n / s` has at most 24 bits.
pub open spec fn spacing(n: nat) -> nat
    decreases n,
{
    if n < PRECISION {
        1
    } else {
        2 * spacing(n / 2)
    }
}

/// `n` rounded to 24 significant bits.
pub open spec fn rounded(n: nat) -> int {
    nearest_even(n as int, spacing(n) as int) * spacing(n)
}

/// How many of `extent` cells a share of `ratio` is: the product at 24 significant bits, then
/// rounded to the nearest cell, halves up; at least one cell, and at least one is left over.
pub open spec fn share_of(extent: int, ratio: Ratio) -> int {
    let cells = (rounded((extent * ratio.parts) as nat) + HALF) / WHOLE as int;
    if cells < 1 {
        1
    } else if cells > extent - 1 {
        extent - 1
    } else {
        cells
    }
}

/// The distance, in parts, between neighbouring numbers of 24 significant bits around `n / d`,
/// where that fraction is under one and not under one part in 32.
pub open spec fn fraction_spacing(n: int, d: int) -> int {
    if 2 * n >= d {
        16
    } else if 4 * n >= d {
        8
    } else if 8 * n >= d {
        4
    } else if 16 * n >= d {
        2
    } else {
        1
    }
}

/// The share that lies `n` cells into an extent of `d` cells: the quotient at 24 significant
/// bits, kept between the smallest and the largest share.
pub open spec fn fraction_parts(n: int, d: int) -> int {
    let s = fraction_spacing(n, d);
    if n >= d {
        LARGEST as int
    } else {
        clamp_parts(nearest_even(n * WHOLE, d * s) * s)
    }
}

/// `parts` kept between the smallest and the largest share.
pub open spec fn clamp_parts(parts: int) -> int {
    if parts < SMALLEST {
        SMALLEST as int
    } else if parts > LARGEST {
        LARGEST as int
    } else {
        parts
    }
}

proof fn spacing_bounds(n: nat)
    requires
        n < 0x1_0000_0000_0000,
    ensures
        1 <= spacing(n) <= 0x200_0000,
        spacing(n) == 1 || 8388608 * spacing(n) <= n,
    decreases n,
{
    if n >= PRECISION {
        spacing_bounds(n / 2);
    }
}

fn nearest_even_u64(num: u64, den: u64) -> (r: u64)
    requires
        0 < den <= 0x1000_0000_0000,
        num < 0x1000_0000_0000_0000,
    ensures
        r == nearest_even(num as int, den as int),
        r <= num / den + 1,
{
    let down: u64 = num / den;
    let rest: u64 = num % den;
    assert(down <= num) by (nonlinear_arith)
        requires
            down == num / den,
            den > 0,
    ;
    if 2 * rest < den || (2 * rest == den && down % 2 == 0) {
        down
    } else {
        down + 1
    }
}

impl Ratio {
    /// The share is one that a split can have.
    pub open spec fn wf(self) -> bool {
        SMALLEST <= self.parts <= LARGEST
    }

    /// Equal shares for both sides.
    pub fn half() -> (r: Ratio)
        ensures
            r.parts == HALF,
            r.wf(),
    {
        Ratio { parts: HALF }
    }

    /// The share nearest to `self` that a split can have.
    pub fn clamped(self) -> (r: Ratio)
        ensures
            r.parts == clamp_parts(self.parts as int),
            r.wf(),
    {
        if self.parts < SMALLEST {
            Ratio { parts: SMALLEST }
        } else if self.parts > LARGEST {
            Ratio { parts: LARGEST }
        } else {
            self
        }
    }

    /// The share at a point `n` cells into an extent of `d` cells.
    pub fn of(n: u16, d: u16) -> (r: Ratio)
        requires
            d > 0,
        ensures
            r.parts == fraction_parts(n as int, d as int),
            r.wf(),
    {
        if n >= d {
            return Ratio { parts: LARGEST };
        }
        let n64: u64 = n as u64;
        let d64: u64 = d as u64;
        let s: u64 = if 2 * n64 >= d64 {
            16
        } else if 4 * n64 >= d64 {
            8
        } else if 8 * n64 >= d64 {
            4
        } else if 16 * n64 >= d64 {
            2
        } else {
            1
        };
        let num: u64 = n64 * WHOLE;
        let den: u64 = d64 * s;
        assert(num / den <= WHOLE) by (nonlinear_arith)
            requires
                num < d64 * WHOLE,
                den >= d64,
                d64 > 0,
        ;
        let q: u64 = nearest_even_u64(num, den);
        Ratio { parts: q * s }.clamped()
    }

    /// How many of `extent` cells the share is. At least one cell is given to each side.
    pub fn of_extent(self, extent: u16) -> (r: u16)
        requires
            self.wf(),
            extent >= 2,
        ensures
            r == share_of(extent as int, self),
            1 <= r < extent,
    {
        assert(extent * self.parts < 0x1000_0000_0000) by (nonlinear_arith)
            requires
                extent <= 65535,
                self.parts <= 255013680,
        ;
        let product: u64 = extent as u64 * self.parts;
        let mut s: u64 = 1;
        let mut rest: u64 = product;
        proof {
            spacing_bounds(product as nat);
        }
        while rest >= PRECISION
            invariant
                spacing(product as nat) == s * spacing(rest as nat),
                1 <= s <= spacing(product as nat) <= 0x200_0000,
                rest <= product < 0x1000_0000_0000,
            decreases rest,
        {
            let ghost before = rest;
            proof {
                spacing_bounds((rest / 2) as nat);
                assert(s * (2 * spacing((rest / 2) as nat)) == (2 * s) * spacing((rest / 2) as nat))
                    by (nonlinear_arith);
                assert((2 * s) * spacing((rest / 2) as nat) >= 2 * s) by (nonlinear_arith)
                    requires
                        spacing((rest / 2) as nat) >= 1,
                        s >= 1,
                ;
            }
            s = 2 * s;
            rest = rest / 2;
        }
        assert(spacing(rest as nat) == 1);
        assert(s * 1 == s) by (nonlinear_arith);
        let q: u64 = nearest_even_u64(product, s);
        assert(q * s <= product + s) by (nonlinear_arith)
            requires
                q <= product / s + 1,
                s > 0,
        ;
        let cells: u64 = (q * s + HALF) / WHOLE;
        if cells < 1 {
            1
        } else if cells > extent as u64 - 1 {
            extent - 1
        } else {
            cells as u16
        }
    }
}

/// Rounding moves a quotient by at most one half.
proof fn rounding_is_near(num: int, den: int)
    requires
        0 <= num,
        0 < den,
    ensures
        2 * (nearest_even(num, den) * den) <= 2 * num + den,
        2 * (nearest_even(num, den) * den) >= 2 * num - den,
        nearest_even(num, den) >= 0,
{
    let down = num / den;
    let rest = num % den;
    assert(num == den * down + rest && 0 <= rest < den && down >= 0) by (nonlinear_arith)
        requires
            0 <= num,
            0 < den,
            down == num / den,
            rest == num % den,
    ;
    assert(down * den == den * down) by (nonlinear_arith);
    assert((down + 1) * den == den * down + den) by (nonlinear_arith);
}

/// A share keeps what it was made from: the share that lies `n` cells into an extent gives the first
/// side `n` cells of that extent, where the limits of shares allow it.
pub proof fn shares_are_exact(n: u16, d: u16)
    requires
        0 < n < d,
        SMALLEST * d <= n * WHOLE <= LARGEST * d,
    ensures
        share_of(d as int, Ratio { parts: fraction_parts(n as int, d as int) as u64 }) == n,
{
    let s = fraction_spacing(n as int, d as int);
    let den = d * s;
    let q = nearest_even(n * WHOLE, den);
    assert(1 <= s <= 16);
    assert(d <= den <= d * 16) by (nonlinear_arith)
        requires
            den == d * s,
            1 <= s <= 16,
            d > 0,
    ;
    rounding_is_near(n * WHOLE, den);
    let p = q * s;
    assert(q * den == d * p) by (nonlinear_arith)
        requires
            den == d * s,
            p == q * s,
    ;
    assert(p >= SMALLEST) by {
        if p < SMALLEST {
            assert(d * p <= d * (SMALLEST - 1)) by (nonlinear_arith)
                requires
                    p <= SMALLEST - 1,
                    d > 0,
            ;
            assert(d * (SMALLEST - 1) == d * SMALLEST - d) by (nonlinear_arith);
            if s == 1 {
                assert(false);
            } else {
                assert(16 * n >= d);
                assert(d * p * 16 <= d * SMALLEST * 16);
                assert(d * p * 16 >= n * WHOLE * 16 - 128 * d);
                assert(n * WHOLE * 16 >= d * WHOLE);
                assert(d * WHOLE - 128 * d > d * SMALLEST * 16) by (nonlinear_arith)
                    requires
                        d > 0,
                        WHOLE == 268435456,
                        SMALLEST == 13421773,
                ;
            }
        }
    }
    assert(p <= LARGEST) by {
        if p > LARGEST {
            if s == 16 {
                assert(p == q * 16) by (nonlinear_arith)
                    requires
                        p == q * s,
                        s == 16,
                ;
                assert(LARGEST == 15938355 * 16);
                assert(p >= LARGEST + 16);
                assert(d * p >= d * (LARGEST + 16)) by (nonlinear_arith)
                    requires
                        p >= LARGEST + 16,
                        d > 0,
                ;
                assert(d * (LARGEST + 16) == d * LARGEST + 16 * d) by (nonlinear_arith);
            } else {
                assert(2 * n < d);
                assert(d * p >= d * LARGEST) by (nonlinear_arith)
                    requires
                        p >= LARGEST,
                        d > 0,
                ;
            }
        }
    }
    let product = (d * p) as nat;
    assert(d * p < 0x1_0000_0000_0000) by (nonlinear_arith)
        requires
            d <= 0xffff,
            0 <= p <= 255013680,
    ;
    assert(0 <= d * p) by (nonlinear_arith)
        requires
            0 <= p,
    ;
    spacing_bounds(product);
    rounding_is_near(product as int, spacing(product) as int);
    let r = rounded(product);
    assert((r + HALF) / WHOLE as int == n) by (nonlinear_arith)
        requires
            n * WHOLE <= r + HALF < (n + 1) * WHOLE,
            WHOLE == 268435456,
            HALF == 134217728,
    ;
}

/// Equal shares are equal: half of an extent and what it leaves differ by one cell at most.
pub proof fn halves_are_even(extent: u16)
    requires
        2 <= extent,
    ensures
        -1 <= 2 * share_of(extent as int, Ratio { parts: HALF }) - extent <= 1,
{
    let product = (extent * HALF) as nat;
    assert(product < 0x1_0000_0000_0000);
    spacing_bounds(product);
    rounding_is_near(product as int, spacing(product) as int);
    let r = rounded(product);
    let c = (r + HALF) / WHOLE as int;
    assert(c * WHOLE <= r + HALF < (c + 1) * WHOLE) by (nonlinear_arith)
        requires
            c == (r + HALF) / WHOLE as int,
            WHOLE == 268435456,
            HALF == 134217728,
    ;
}

} // verus!
