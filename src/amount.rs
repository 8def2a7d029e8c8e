//! Exact decimal amounts, held as a signed mantissa and a decimal scale.
use std::str::FromStr;
use vstd::prelude::*;
use crate::text::{dec_digits, pad_zeros, padded_digits};

verus! {

/// The largest magnitude a mantissa may have: 96 bits.
pub const MAX_MANTISSA: i128 = 0xffff_ffff_ffff_ffff_ffff_ffff;

/// The largest number of digits after the decimal point.
pub const MAX_SCALE: u32 = 28;

/// An exact decimal number `mantissa / 10^scale`.
#[derive(Clone, Copy, Debug, PartialEq, Eq, Structural)]
pub struct Amount {
    pub mantissa: i128,
    pub scale: u32,
}

/// What `rust_decimal::Decimal::from_str` parses a string to, as (mantissa, scale).
pub uninterp spec fn decimal_parse(s: Seq<char>) -> Option<(int, int)>;

/// Relies on `rust_decimal::Decimal::from_str`, read back through `mantissa` and
/// `scale`: a `Decimal` has a magnitude of at most 96 bits and a scale of at most 28.
#[verifier::external_body]
fn decimal_from_str(s: &str) -> (r: Option<Amount>)
    ensures
        r.is_some() == decimal_parse(s@).is_some(),
        r matches Some(a) ==> decimal_parse(s@) == Some((a.mantissa as int, a.scale as int))
            && a.wf(),
{
    rust_decimal::Decimal::from_str(s).ok().map(|d| Amount { mantissa: d.mantissa(), scale: d.scale() })
}

pub open spec fn abs_int(x: int) -> int {
    if x < 0 {
        -x
    } else {
        x
    }
}

/// The plain decimal text of `m / 10^scale`: a `-` for a negative value, at least one
/// digit before the point, and exactly `scale` digits after it.
pub open spec fn amount_text(m: int, scale: nat) -> Seq<char> {
    let d = pad_zeros(dec_digits(abs_int(m) as nat), scale + 1);
    let body = if scale == 0 {
        d
    } else {
        d.subrange(0, d.len() - scale) + seq!['.'] + d.subrange(d.len() - scale, d.len() as int)
    };
    if m < 0 {
        seq!['-'] + body
    } else {
        body
    }
}

impl Amount {
    /// Mantissa within 96 bits and scale within 28 digits.
    pub open spec fn wf(&self) -> bool {
        -MAX_MANTISSA <= self.mantissa <= MAX_MANTISSA && self.scale <= MAX_SCALE
    }

    pub open spec fn text(&self) -> Seq<char> {
        amount_text(self.mantissa as int, self.scale as nat)
    }

    /// The amount `mantissa / 10^scale`.
    pub fn new(mantissa: i128, scale: u32) -> (r: Amount)
        requires
            -MAX_MANTISSA <= mantissa <= MAX_MANTISSA,
            scale <= MAX_SCALE,
        ensures
            r.mantissa == mantissa,
            r.scale == scale,
            r.wf(),
    {
        Amount { mantissa, scale }
    }

    /// Exact zero.
    pub fn zero() -> (r: Amount)
        ensures
            r.mantissa == 0,
            r.scale == 0,
            r.wf(),
    {
        Amount { mantissa: 0, scale: 0 }
    }

    /// The same magnitude with the opposite sign.
    pub fn negate(&self) -> (r: Amount)
        requires
            self.wf(),
        ensures
            r.mantissa == -self.mantissa,
            r.scale == self.scale,
            r.wf(),
    {
        Amount { mantissa: -self.mantissa, scale: self.scale }
    }

    /// The magnitude.
    pub fn abs(&self) -> (r: Amount)
        requires
            self.wf(),
        ensures
            r.mantissa == abs_int(self.mantissa as int),
            r.scale == self.scale,
            r.wf(),
    {
        if self.mantissa < 0 {
            Amount { mantissa: -self.mantissa, scale: self.scale }
        } else {
            *self
        }
    }

    pub fn is_positive(&self) -> (r: bool)
        ensures
            r == (self.mantissa > 0),
    {
        self.mantissa > 0
    }

    pub fn is_negative(&self) -> (r: bool)
        ensures
            r == (self.mantissa < 0),
    {
        self.mantissa < 0
    }

    /// The plain decimal text of the amount, as in `-4.50` or `1234.56`.
    pub fn to_text(&self) -> (r: String)
        requires
            self.wf(),
        ensures
            r@ == self.text(),
    {
        let mag: u128 = if self.mantissa < 0 {
            (-self.mantissa) as u128
        } else {
            self.mantissa as u128
        };
        let d = padded_digits(mag, self.scale as usize + 1);
        let mut out: Vec<char> = Vec::new();
        if self.mantissa < 0 {
            out.push('-');
        }
        let ghost sign = out@;
        let split: usize = d.len() - self.scale as usize;
        let mut j: usize = 0;
        while j < d.len()
            invariant
                j <= d.len(),
                split <= d.len(),
                split + self.scale == d.len(),
                out@ == sign + (if j <= split {
                    d@.subrange(0, j as int)
                } else {
                    d@.subrange(0, split as int) + seq!['.'] + d@.subrange(split as int, j as int)
                }),
                self.scale == 0 ==> split == d.len(),
            decreases d.len() - j,
        {
            if j == split {
                out.push('.');
            }
            out.push(d[j]);
            j = j + 1;
            proof {
                if j <= split {
                    assert(out@ =~= sign + d@.subrange(0, j as int));
                } else {
                    assert(out@ =~= sign + (d@.subrange(0, split as int) + seq!['.'] + d@.subrange(split as int, j as int)));
                }
            }
        }
        if self.scale == 0 {
            assert(d@.subrange(0, d@.len() as int) =~= d@);
        }
        assert(out@ =~= self.text());
        crate::text::string_of(out.as_slice())
    }

    /// Parse the text of a decimal number.
    pub fn parse_text(s: &str) -> (r: Option<Amount>)
        ensures
            r.is_some() == decimal_parse(s@).is_some(),
            r matches Some(a) ==> decimal_parse(s@) == Some((a.mantissa as int, a.scale as int))
                && a.wf(),
    {
        decimal_from_str(s)
    }
}

} // verus!

verus! {

/// Digits with a comma before every group of three, counted from the right.
pub open spec fn group_thousands(d: Seq<char>) -> Seq<char>
    decreases d.len(),
{
    if d.len() <= 3 {
        d
    } else {
        group_thousands(d.subrange(0, d.len() - 3)) + seq![','] + d.subrange(d.len() - 3, d.len() as int)
    }
}

/// The amount for display: `$`, thousands separators, and exactly two decimals,
/// further digits cut off; `-$` in front of a negative amount.
pub open spec fn display_text(a: Amount) -> Seq<char> {
    let s = a.scale as int;
    let d = pad_zeros(dec_digits(abs_int(a.mantissa as int) as nat), (s + 1) as nat);
    let whole = d.subrange(0, d.len() - s);
    let frac = (d.subrange(d.len() - s, d.len() as int) + seq!['0', '0']).subrange(0, 2);
    (if a.mantissa < 0 {
        seq!['-', '$']
    } else {
        seq!['$']
    }) + group_thousands(whole) + seq!['.'] + frac
}

fn group_prefix(d: &Vec<char>, n: usize) -> (r: Vec<char>)
    requires
        n <= d@.len(),
    ensures
        r@ == group_thousands(d@.subrange(0, n as int)),
    decreases n,
{
    let ghost p = d@.subrange(0, n as int);
    if n <= 3 {
        let mut r: Vec<char> = Vec::new();
        let mut i: usize = 0;
        while i < n
            invariant
                i <= n,
                n <= d@.len(),
                r@ == d@.subrange(0, i as int),
            decreases n - i,
        {
            r.push(d[i]);
            i = i + 1;
            assert(r@ =~= d@.subrange(0, i as int));
        }
        r
    } else {
        let mut r = group_prefix(d, n - 3);
        r.push(',');
        r.push(d[n - 3]);
        r.push(d[n - 2]);
        r.push(d[n - 1]);
        assert(p.subrange(0, p.len() - 3) =~= d@.subrange(0, n - 3));
        assert(r@ =~= group_thousands(p));
        r
    }
}

/// Format an amount for display, as in `-$1,234.56`.
pub fn format_amount(val: Amount) -> (r: String)
    requires
        val.wf(),
    ensures
        r@ == display_text(val),
{
    let mag: u128 = if val.mantissa < 0 {
        (-val.mantissa) as u128
    } else {
        val.mantissa as u128
    };
    let s = val.scale as usize;
    let d = padded_digits(mag, s + 1);
    proof {
        crate::text::lemma_dec_digits(mag as nat);
    }
    let whole_len = d.len() - s;
    let mut out: Vec<char> = Vec::new();
    if val.mantissa < 0 {
        out.push('-');
    }
    out.push('$');
    let mut g = group_prefix(&d, whole_len);
    out.append(&mut g);
    out.push('.');
    let f0 = if s >= 1 {
        d[whole_len]
    } else {
        '0'
    };
    let f1 = if s >= 2 {
        d[whole_len + 1]
    } else {
        '0'
    };
    out.push(f0);
    out.push(f1);
    proof {
        let sd = d@;
        let frac = (sd.subrange(sd.len() - s, sd.len() as int) + seq!['0', '0']);
        assert(frac[0] == f0);
        assert(frac[1] == f1);
        assert(frac.subrange(0, 2) =~= seq![f0, f1]);
    }
    assert(out@ =~= display_text(val));
    crate::text::string_of(out.as_slice())
}

} // verus!
