//! Power values read from text and written back in whole watts.
//!
//! Text is read with the grammar of std's `f64::from_str` (an optional
//! sign; `inf`, `infinity` or `nan` in any letter case; or digits with at
//! most one decimal point and an optional `e` exponent) into an exact
//! decimal value. A value of magnitude `10^309` or more counts as an
//! infinity and a non-zero value below `10^-400` in magnitude as a signed
//! zero. Results are written as whole numbers, rounded half to even, with a
//! `-` for every negative value, `-0` included, and as `inf`, `-inf` and
//! `NaN` for the special values.
//!
//! These exact values are the values `f64` holds only for the whole
//! numbers of [`exact_integer`] and the special values; power values are
//! resolved here only for those, and left to floating point otherwise.
use vstd::prelude::*;

use crate::decimal::{
    add_digits, compare_digits, digits_text, dval, halve_digits, increment_digits, is_digits,
    lemma_dval_append, lemma_dval_bound, lemma_pow10_add, lemma_pow10_mono, lemma_pow10_pos,
    pad_back, pad_front, pow10, round_half_even, sub_digits, zeros,
};
use crate::text::{
    all_digits, chars_eq_str, decimal, digit_of, digits_value, is_digit, is_digit_char, lower,
    lower_ascii,
};

verus! {

/// A number as text describes it: `±n / 10^s`, an infinity, or not a
/// number.
pub enum Num {
    Dec { neg: bool, n: nat, s: nat },
    Inf { neg: bool },
    NaN,
}

/// `±n / 10^s` held in digits.
pub struct Fixed {
    pub neg: bool,
    pub digits: Vec<u8>,
    pub scale: usize,
}

impl Fixed {
    pub open spec fn wf(&self) -> bool {
        is_digits(self.digits@)
    }

    pub open spec fn num(&self) -> Num {
        Num::Dec { neg: self.neg, n: dval(self.digits@), s: self.scale as nat }
    }
}

/// A number read from text.
pub enum Parsed {
    Finite(Fixed),
    Inf(bool),
    NaN,
}

impl Parsed {
    pub open spec fn wf(&self) -> bool {
        match self {
            Parsed::Finite(f) => f.wf(),
            _ => true,
        }
    }

    pub open spec fn num(&self) -> Num {
        match self {
            Parsed::Finite(f) => f.num(),
            Parsed::Inf(neg) => Num::Inf { neg: *neg },
            Parsed::NaN => Num::NaN,
        }
    }
}

// ---------------------------------------------------------------------------
// Order
// ---------------------------------------------------------------------------

pub open spec fn max_nat(a: nat, b: nat) -> nat {
    if a >= b {
        a
    } else {
        b
    }
}

/// `±n` scaled to `10^-t` units.
pub open spec fn signed_at(neg: bool, n: nat, s: nat, t: nat) -> int {
    if neg {
        -((n * pow10((t - s) as nat)) as int)
    } else {
        (n * pow10((t - s) as nat)) as int
    }
}

/// `a < b` for numbers that are not NaN; infinities lie beyond every
/// decimal and the two zeros are equal. Nothing is below or above NaN.
pub open spec fn num_lt(a: Num, b: Num) -> bool {
    match a {
        Num::NaN => false,
        Num::Inf { neg } => neg && (b matches Num::Inf { neg: bn } ==> !bn) && !(b is NaN),
        Num::Dec { neg: an, n: a_n, s: a_s } => match b {
            Num::NaN => false,
            Num::Inf { neg } => !neg,
            Num::Dec { neg: bn, n: b_n, s: b_s } => {
                let t = max_nat(a_s, b_s);
                signed_at(an, a_n, a_s, t) < signed_at(bn, b_n, b_s, t)
            },
        },
    }
}

/// `f64::clamp`: below `lo` gives `lo`, above `hi` gives `hi`.
pub open spec fn clamp(w: Num, lo: Num, hi: Num) -> Num {
    let x = if num_lt(w, lo) {
        lo
    } else {
        w
    };
    if num_lt(hi, x) {
        hi
    } else {
        x
    }
}

/// `f64::clamp` panics unless `lo <= hi`, which fails for a NaN bound.
pub open spec fn clamp_refused(lo: Num, hi: Num) -> bool {
    lo is NaN || hi is NaN || num_lt(hi, lo)
}

/// The limit at and above which a magnitude counts as infinite.
pub open spec fn huge(t: nat) -> nat {
    pow10(309) * pow10(t)
}

/// `(lo + hi) / 2`.
pub open spec fn midpoint(lo: Num, hi: Num) -> Num {
    match lo {
        Num::NaN => Num::NaN,
        Num::Inf { neg: a } => match hi {
            Num::NaN => Num::NaN,
            Num::Inf { neg: b } => if a == b {
                Num::Inf { neg: a }
            } else {
                Num::NaN
            },
            Num::Dec { .. } => Num::Inf { neg: a },
        },
        Num::Dec { neg: an, n: a_n, s: a_s } => match hi {
            Num::NaN => Num::NaN,
            Num::Inf { neg: b } => Num::Inf { neg: b },
            Num::Dec { neg: bn, n: b_n, s: b_s } => {
                let t = max_nat(a_s, b_s);
                let sum = signed_at(an, a_n, a_s, t) + signed_at(bn, b_n, b_s, t);
                let mag: nat = if sum < 0 {
                    (-sum) as nat
                } else {
                    sum as nat
                };
                if mag >= huge(t) {
                    Num::Inf { neg: sum < 0 }
                } else {
                    Num::Dec {
                        neg: if sum < 0 {
                            true
                        } else if sum > 0 {
                            false
                        } else {
                            an && bn
                        },
                        n: 5 * mag,
                        s: t + 1,
                    }
                }
            },
        },
    }
}

/// The text of a number rounded to a whole number (`{:.0}`).
pub open spec fn show(x: Num) -> Seq<char> {
    match x {
        Num::Dec { neg, n, s } => (if neg {
            "-"@
        } else {
            Seq::empty()
        }) + decimal(round_half_even(n, pow10(s))),
        Num::Inf { neg } => if neg {
            "-inf"@
        } else {
            "inf"@
        },
        Num::NaN => "NaN"@,
    }
}

// ---------------------------------------------------------------------------
// Aligning two decimals
// ---------------------------------------------------------------------------

/// Both decimals written with `t` fractional digits and one common digit
/// length.
fn align(a: &Fixed, b: &Fixed) -> (r: (Vec<u8>, Vec<u8>, usize))
    requires
        a.wf(),
        b.wf(),
        a.digits.len() + b.digits.len() + a.scale + b.scale < usize::MAX,
    ensures
        r.2 == max_nat(a.scale as nat, b.scale as nat),
        r.0.len() == r.1.len(),
        is_digits(r.0@),
        is_digits(r.1@),
        dval(r.0@) == dval(a.digits@) * pow10((r.2 - a.scale) as nat),
        dval(r.1@) == dval(b.digits@) * pow10((r.2 - b.scale) as nat),
        r.0.len() <= a.digits.len() + b.digits.len() + a.scale + b.scale,
{
    let t = if a.scale >= b.scale {
        a.scale
    } else {
        b.scale
    };
    let pa = pad_back(&a.digits, t - a.scale);
    let pb = pad_back(&b.digits, t - b.scale);
    if pa.len() >= pb.len() {
        let qb = pad_front(&pb, pa.len() - pb.len());
        (pa, qb, t)
    } else {
        let qa = pad_front(&pa, pb.len() - pa.len());
        (qa, pb, t)
    }
}

/// Compares two decimals: -1, 0 or 1 as `a` is below, equal to or above
/// `b`.
pub fn compare_fixed(a: &Fixed, b: &Fixed) -> (r: i8)
    requires
        a.wf(),
        b.wf(),
        a.digits.len() + b.digits.len() + a.scale + b.scale < usize::MAX,
    ensures
        r == -1 <==> num_lt(a.num(), b.num()),
        r == 1 <==> num_lt(b.num(), a.num()),
        -1 <= r <= 1,
{
    let (x, y, t) = align(a, b);
    let c = compare_digits(&x, &y);
    let zero = vec![0u8; x.len()];
    proof {
        assert(zero@ =~= zeros(x.len() as nat));
        crate::decimal::lemma_dval_zeros(x.len() as nat);
        assert(is_digits(zero@));
    }
    let xz = compare_digits(&x, &zero) == 0;
    let yz = compare_digits(&y, &zero) == 0;
    let ghost ta = signed_at(a.neg, dval(a.digits@), a.scale as nat, t as nat);
    let ghost tb = signed_at(b.neg, dval(b.digits@), b.scale as nat, t as nat);
    proof {
        assert(ta == if a.neg {
            -(dval(x@) as int)
        } else {
            dval(x@) as int
        });
        assert(tb == if b.neg {
            -(dval(y@) as int)
        } else {
            dval(y@) as int
        });
    }
    let sa: i8 = if xz {
        0
    } else if a.neg {
        -1
    } else {
        1
    };
    let sb: i8 = if yz {
        0
    } else if b.neg {
        -1
    } else {
        1
    };
    if sa < sb {
        -1
    } else if sa > sb {
        1
    } else if sa == 0 {
        0
    } else if sa == 1 {
        c
    } else {
        -c
    }
}

// ---------------------------------------------------------------------------
// Rounding and writing
// ---------------------------------------------------------------------------

/// Some digit is not zero.
fn any_nonzero(d: &Vec<u8>, from: usize) -> (r: bool)
    requires
        is_digits(d@),
        from <= d.len(),
    ensures
        r == (dval(d@.subrange(from as int, d.len() as int)) > 0),
{
    let mut i: usize = from;
    while i < d.len()
        invariant
            from <= i <= d.len(),
            is_digits(d@),
            d@.subrange(from as int, i as int) == zeros((i - from) as nat),
        decreases d.len() - i,
    {
        if d[i] != 0 {
            proof {
                let t = d@.subrange(from as int, d.len() as int);
                let k = (i - from) as int;
                assert(t =~= t.take(k + 1) + t.subrange(k + 1, t.len() as int));
                lemma_dval_append(t.take(k + 1), t.subrange(k + 1, t.len() as int));
                lemma_pow10_pos((t.len() - k - 1) as nat);
                assert(t.take(k + 1).drop_last() =~= t.take(k));
                assert(dval(t.take(k + 1)) >= 1);
                assert(dval(t.take(k + 1)) * pow10((t.len() - k - 1) as nat) >= 1)
                    by (nonlinear_arith)
                    requires
                        dval(t.take(k + 1)) >= 1,
                        pow10((t.len() - k - 1) as nat) >= 1,
                ;
            }
            return true;
        }
        proof {
            assert(d@.subrange(from as int, i as int + 1) =~= zeros((i + 1 - from) as nat));
        }
        i = i + 1;
    }
    proof {
        crate::decimal::lemma_dval_zeros((i - from) as nat);
    }
    false
}

/// The value of digits split after index `cut`: the leading part is the
/// quotient by `10^scale` and the trailing part the remainder.
proof fn lemma_split_div(ds: Seq<u8>, cut: int, scale: nat)
    requires
        is_digits(ds),
        0 <= cut,
        cut + scale == ds.len(),
    ensures
        dval(ds) / pow10(scale) == dval(ds.take(cut)),
        dval(ds) % pow10(scale) == dval(ds.skip(cut)),
        dval(ds.skip(cut)) < pow10(scale),
{
    let ip = ds.take(cut);
    let fp = ds.skip(cut);
    assert(ds =~= ip + fp);
    lemma_dval_append(ip, fp);
    assert(is_digits(fp));
    lemma_dval_bound(fp);
    lemma_pow10_pos(scale);
    vstd::arithmetic::div_mod::lemma_fundamental_div_mod_converse(
        dval(ds) as int,
        pow10(scale) as int,
        dval(ip) as int,
        dval(fp) as int,
    );
}

/// Compares twice the digits after `cut` with `10^scale`: -1, 0 or 1.
fn compare_half(ds: &Vec<u8>, cut: usize, scale: usize) -> (r: i8)
    requires
        is_digits(ds@),
        cut + scale == ds.len(),
    ensures
        r == -1 <==> 2 * dval(ds@.skip(cut as int)) < pow10(scale as nat),
        r == 0 <==> 2 * dval(ds@.skip(cut as int)) == pow10(scale as nat),
        r == 1 <==> 2 * dval(ds@.skip(cut as int)) > pow10(scale as nat),
{
    let ghost fp = ds@.skip(cut as int);
    let ghost rv = dval(fp);
    let ghost p = pow10(scale as nat);
    proof {
        lemma_pow10_pos(scale as nat);
    }
    if scale == 0 {
        proof {
            assert(fp.len() == 0);
            assert(rv == 0);
        }
        return -1;
    }
    let f0 = ds[cut];
    let rest_nonzero = any_nonzero(ds, cut + 1);
    proof {
        let rest = ds@.subrange(cut + 1, ds.len() as int);
        assert(fp =~= seq![f0] + rest);
        crate::decimal::lemma_dval_prepend(f0, rest);
        assert(is_digits(rest));
        lemma_dval_bound(rest);
        let u = pow10((scale - 1) as nat);
        assert(p == 10 * u);
        assert(rest.len() == scale - 1);
        assert(rv == (f0 as nat) * u + dval(rest));
        lemma_pow10_pos((scale - 1) as nat);
        if f0 >= 6 {
            assert(2 * rv > p) by (nonlinear_arith)
                requires
                    rv == (f0 as nat) * u + dval(rest),
                    f0 >= 6,
                    p == 10 * u,
                    u >= 1,
            ;
        } else if f0 <= 4 {
            assert(2 * rv < p) by (nonlinear_arith)
                requires
                    rv == (f0 as nat) * u + dval(rest),
                    f0 <= 4,
                    p == 10 * u,
                    dval(rest) < u,
            ;
        } else {
            assert(2 * rv == p + 2 * dval(rest)) by (nonlinear_arith)
                requires
                    rv == (f0 as nat) * u + dval(rest),
                    f0 == 5,
                    p == 10 * u,
            ;
        }
    }
    if f0 > 5 || (f0 == 5 && rest_nonzero) {
        1
    } else if f0 < 5 {
        -1
    } else {
        0
    }
}

/// The digits of `round_half_even(dval(d), 10^scale)`.
fn round_digits(d: &Vec<u8>, scale: usize) -> (r: Vec<u8>)
    requires
        is_digits(d@),
        d.len() + scale + 2 < usize::MAX,
    ensures
        is_digits(r@),
        dval(r@) == round_half_even(dval(d@), pow10(scale as nat)),
{
    let padded = if d.len() > scale {
        pad_front(d, 0)
    } else {
        pad_front(d, scale + 1 - d.len())
    };
    let n = padded.len();
    let cut = n - scale;
    let int_part = crate::text::slice_digits(&padded, 0, cut);
    proof {
        assert(int_part@ =~= padded@.take(cut as int));
        lemma_split_div(padded@, cut as int, scale as nat);
        assert(is_digits(int_part@));
    }
    let half = compare_half(&padded, cut, scale);
    let last = int_part[int_part.len() - 1];
    proof {
        let ip = int_part@;
        assert(ip.last() == last);
        assert(dval(ip) == dval(ip.drop_last()) * 10 + last as nat);
        assert(dval(ip) % 2 == (last as nat) % 2) by (nonlinear_arith)
            requires
                dval(ip) == dval(ip.drop_last()) * 10 + last as nat,
        ;
    }
    let up = half == 1 || (half == 0 && last % 2 == 1);
    if up {
        increment_digits(&int_part)
    } else {
        int_part
    }
}

/// `show` for a decimal.
pub fn show_fixed(f: &Fixed) -> (r: Vec<char>)
    requires
        f.wf(),
        f.digits.len() + f.scale + 2 < usize::MAX,
    ensures
        r@ == show(f.num()),
{
    let rounded = round_digits(&f.digits, f.scale);
    let text = digits_text(&rounded);
    if f.neg {
        let mut r: Vec<char> = Vec::new();
        r.push('-');
        let mut i: usize = 0;
        while i < text.len()
            invariant
                i <= text.len(),
                r@ == seq!['-'] + text@.take(i as int),
            decreases text.len() - i,
        {
            r.push(text[i]);
            proof {
                assert(r@ =~= seq!['-'] + text@.take(i as int + 1));
            }
            i = i + 1;
        }
        proof {
            reveal_strlit("-");
            assert(text@.take(i as int) =~= text@);
            assert("-"@ =~= seq!['-']);
        }
        r
    } else {
        proof {
            assert(Seq::<char>::empty() + text@ =~= text@);
        }
        text
    }
}

/// `show` for any number read from text.
pub fn show_parsed(x: &Parsed) -> (r: Vec<char>)
    requires
        x.wf(),
        x matches Parsed::Finite(f) ==> f.digits.len() + f.scale + 2 < usize::MAX,
    ensures
        r@ == show(x.num()),
{
    match x {
        Parsed::Finite(f) => show_fixed(f),
        Parsed::Inf(neg) => if *neg {
            crate::text::chars_of("-inf")
        } else {
            crate::text::chars_of("inf")
        },
        Parsed::NaN => crate::text::chars_of("NaN"),
    }
}

// ---------------------------------------------------------------------------
// Reading
// ---------------------------------------------------------------------------

pub open spec fn is_e(c: char) -> bool {
    c == 'e' || c == 'E'
}

/// The index of the first exponent mark at or after `i`, or the length.
pub open spec fn first_e(b: Seq<char>, i: int) -> int
    decreases b.len() - i,
{
    if 0 <= i < b.len() {
        if is_e(b[i]) {
            i
        } else {
            first_e(b, i + 1)
        }
    } else {
        b.len() as int
    }
}

/// The index of the first `.` at or after `i`, or the length.
pub open spec fn first_dot(m: Seq<char>, i: int) -> int
    decreases m.len() - i,
{
    if 0 <= i < m.len() {
        if m[i] == '.' {
            i
        } else {
            first_dot(m, i + 1)
        }
    } else {
        m.len() as int
    }
}

pub open spec fn sign_len(s: Seq<char>) -> int {
    if s.len() > 0 && (s[0] == '+' || s[0] == '-') {
        1
    } else {
        0
    }
}

/// The digit values of ASCII digits.
pub open spec fn digit_seq(cs: Seq<char>) -> Seq<u8> {
    cs.map_values(|c: char| digit_of(c) as u8)
}

/// An exponent: an optional sign and one or more digits.
pub open spec fn exponent_value(x: Seq<char>) -> Option<int> {
    let d = x.skip(sign_len(x));
    if d.len() > 0 && all_digits(d) {
        Some(
            if x.len() > 0 && x[0] == '-' {
                -digits_value(d)
            } else {
                digits_value(d)
            },
        )
    } else {
        None
    }
}

/// `±mag * 10^e`, with magnitudes of `10^309` and more infinite and
/// non-zero magnitudes below `10^-400` zero.
pub open spec fn ranged(neg: bool, mag: nat, e: int) -> Num {
    if mag == 0 {
        Num::Dec { neg, n: 0, s: 0 }
    } else if e >= 0 {
        if mag * pow10(e as nat) >= pow10(309) {
            Num::Inf { neg }
        } else {
            Num::Dec { neg, n: mag * pow10(e as nat), s: 0 }
        }
    } else {
        let s = (-e) as nat;
        if mag >= pow10(309 + s) {
            Num::Inf { neg }
        } else if s > 400 && mag < pow10((s - 400) as nat) {
            Num::Dec { neg, n: 0, s: 0 }
        } else {
            Num::Dec { neg, n: mag, s }
        }
    }
}

/// The number that digits with an optional decimal point and exponent
/// describe (the text after the sign).
pub open spec fn decimal_text(b: Seq<char>, neg: bool) -> Option<Num> {
    let k = first_e(b, 0);
    let m = b.take(k);
    let d = first_dot(m, 0);
    let ip = m.take(d);
    let fp = if d < m.len() {
        m.skip(d + 1)
    } else {
        Seq::empty()
    };
    let ex = if k < b.len() {
        exponent_value(b.skip(k + 1))
    } else {
        Some(0)
    };
    if all_digits(ip) && all_digits(fp) && ip.len() + fp.len() > 0 && ex is Some {
        Some(ranged(neg, dval(digit_seq(ip + fp)), ex->0 - fp.len()))
    } else {
        None
    }
}

/// The number a text describes, with the grammar of `f64::from_str`.
pub open spec fn parse_num(s: Seq<char>) -> Option<Num> {
    let neg = s.len() > 0 && s[0] == '-';
    let b = s.skip(sign_len(s));
    let lb = lower(b);
    if lb == "inf"@ || lb == "infinity"@ {
        Some(Num::Inf { neg })
    } else if lb == "nan"@ {
        Some(Num::NaN)
    } else {
        decimal_text(b, neg)
    }
}

/// The saturation bound of exponents: far beyond any exponent that keeps a
/// value finite and non-zero for texts of any length a `usize` can count.
pub const EXP_CAP: u128 = 1_000_000_000_000_000_000_000_000_000_000;

fn find_mark(b: &Vec<char>, dot: bool) -> (r: usize)
    ensures
        r == if dot {
            first_dot(b@, 0)
        } else {
            first_e(b@, 0)
        },
{
    let mut i: usize = 0;
    while i < b.len()
        invariant
            i <= b.len(),
            (if dot {
                first_dot(b@, i as int)
            } else {
                first_e(b@, i as int)
            }) == (if dot {
                first_dot(b@, 0)
            } else {
                first_e(b@, 0)
            }),
        decreases b.len() - i,
    {
        let c = b[i];
        if (dot && c == '.') || (!dot && (c == 'e' || c == 'E')) {
            return i;
        }
        i = i + 1;
    }
    i
}

fn all_digit_chars(v: &Vec<char>) -> (r: bool)
    ensures
        r == all_digits(v@),
{
    let mut i: usize = 0;
    while i < v.len()
        invariant
            i <= v.len(),
            forall|k: int| 0 <= k < i ==> is_digit(#[trigger] v@[k]),
        decreases v.len() - i,
    {
        if !is_digit_char(v[i]) {
            return false;
        }
        i = i + 1;
    }
    true
}

fn digit_values(cs: &Vec<char>) -> (r: Vec<u8>)
    requires
        all_digits(cs@),
    ensures
        r@ == digit_seq(cs@),
        is_digits(r@),
{
    let mut r: Vec<u8> = Vec::new();
    let mut i: usize = 0;
    while i < cs.len()
        invariant
            i <= cs.len(),
            all_digits(cs@),
            r@ == digit_seq(cs@.take(i as int)),
        decreases cs.len() - i,
    {
        let c = cs[i];
        proof {
            assert(is_digit(cs@[i as int]));
        }
        let x: u8 = (c as u32 - 48) as u8;
        r.push(x);
        proof {
            assert(r@ =~= digit_seq(cs@.take(i as int + 1)));
        }
        i = i + 1;
    }
    proof {
        assert(cs@.take(i as int) =~= cs@);
        assert forall|k: int| 0 <= k < r@.len() implies #[trigger] r@[k] < 10 by {
            assert(is_digit(cs@[k]));
        }
    }
    r
}

/// Reads an exponent, its magnitude capped at `EXP_CAP`: `(negative,
/// magnitude)`.
fn read_exponent(x: &Vec<char>) -> (r: Option<(bool, u128)>)
    ensures
        match r {
            None => exponent_value(x@) is None,
            Some((neg, m)) => exponent_value(x@) is Some && {
                let v = exponent_value(x@)->0;
                &&& neg == (v < 0)
                &&& m <= EXP_CAP
                &&& (m < EXP_CAP ==> v == if neg {
                    -(m as int)
                } else {
                    m as int
                })
                &&& (m == EXP_CAP ==> v >= EXP_CAP || v <= -(EXP_CAP as int))
            },
        },
{
    let start: usize = if x.len() > 0 && (x[0] == '+' || x[0] == '-') {
        1
    } else {
        0
    };
    let neg = x.len() > 0 && x[0] == '-';
    let ghost d = x@.skip(start as int);
    if start >= x.len() {
        proof {
            assert(d.len() == 0);
        }
        return None;
    }
    let mut acc: u128 = 0;
    let mut i: usize = start;
    while i < x.len()
        invariant
            start <= i <= x.len(),
            start < x.len(),
            start == sign_len(x@),
            d == x@.skip(start as int),
            all_digits(d.take(i - start)),
            acc <= EXP_CAP,
            acc == if digits_value(d.take(i - start)) >= EXP_CAP {
                EXP_CAP as int
            } else {
                digits_value(d.take(i - start))
            },
        decreases x.len() - i,
    {
        let c = x[i];
        let ghost t = d.take(i - start + 1);
        proof {
            assert(t.drop_last() =~= d.take(i - start));
            assert(t.last() == c);
        }
        if !is_digit_char(c) {
            proof {
                assert(!is_digit(d[i - start]));
                assert(!all_digits(d));
            }
            return None;
        }
        let dv: u128 = (c as u32 - 48) as u128;
        proof {
            assert(all_digits(t));
            crate::text::lemma_digits_value_nonneg(d.take(i - start));
            assert(digits_value(t) == digits_value(d.take(i - start)) * 10 + dv);
        }
        if acc < EXP_CAP {
            let next = acc * 10 + dv;
            acc = if next >= EXP_CAP {
                EXP_CAP
            } else {
                next
            };
        } else {
            proof {
                assert(digits_value(t) >= EXP_CAP) by (nonlinear_arith)
                    requires
                        digits_value(t) == digits_value(d.take(i - start)) * 10 + dv,
                        digits_value(d.take(i - start)) >= EXP_CAP,
                        dv >= 0,
                ;
            }
        }
        i = i + 1;
    }
    proof {
        assert(d.take(i - start) =~= d);
        crate::text::lemma_digits_value_nonneg(d);
        if acc == 0 {
            assert(digits_value(d) == 0);
        }
    }
    Some((neg && acc > 0, acc))
}

proof fn lemma_first_bounds(b: Seq<char>, i: int, dot: bool)
    requires
        0 <= i <= b.len(),
    ensures
        i <= (if dot {
            first_dot(b, i)
        } else {
            first_e(b, i)
        }) <= b.len(),
    decreases b.len() - i,
{
    if i < b.len() {
        lemma_first_bounds(b, i + 1, dot);
    }
}

/// After `z` leading zeros and the first non-zero digit, the value has
/// `len - z` significant digits.
proof fn lemma_significant_digits(d: Seq<u8>, z: nat)
    requires
        is_digits(d),
        z <= d.len(),
        d.take(z as int) == zeros(z),
        z == d.len() || d[z as int] != 0,
    ensures
        z == d.len() ==> dval(d) == 0,
        z < d.len() ==> pow10((d.len() - z - 1) as nat) <= dval(d) < pow10((d.len() - z) as nat),
{
    let rest = d.subrange(z as int, d.len() as int);
    assert(d =~= zeros(z) + rest);
    crate::decimal::lemma_dval_leading_zeros(z, rest);
    assert(is_digits(rest));
    lemma_dval_bound(rest);
    if z == d.len() {
        assert(rest =~= Seq::<u8>::empty());
    } else {
        let tail = rest.subrange(1, rest.len() as int);
        assert(rest =~= seq![rest[0]] + tail);
        crate::decimal::lemma_dval_prepend(rest[0], tail);
        assert(rest[0] >= 1);
        let p = pow10(tail.len());
        assert((rest[0] as nat) * p >= p) by (nonlinear_arith)
            requires
                rest[0] >= 1,
        ;
        assert((d.len() - z - 1) as nat == tail.len());
    }
}

proof fn lemma_scaled_bounds(mag: nat, sig: nat, e: nat)
    requires
        sig >= 1,
        pow10((sig - 1) as nat) <= mag < pow10(sig),
    ensures
        pow10((sig - 1 + e) as nat) <= mag * pow10(e) < pow10(sig + e),
{
    lemma_pow10_add((sig - 1) as nat, e);
    lemma_pow10_add(sig, e);
    lemma_pow10_pos(e);
    assert(pow10((sig - 1) as nat) * pow10(e) <= mag * pow10(e)) by (nonlinear_arith)
        requires
            pow10((sig - 1) as nat) <= mag,
    ;
    assert(mag * pow10(e) < pow10(sig) * pow10(e)) by (nonlinear_arith)
        requires
            mag < pow10(sig),
            pow10(e) >= 1,
    ;
}

proof fn lemma_big_exponent(mag: nat, sig: nat, e: int)
    requires
        sig >= 1,
        pow10((sig - 1) as nat) <= mag < pow10(sig),
        e >= 310,
    ensures
        ranged(false, mag, e) == (Num::Inf { neg: false }),
        ranged(true, mag, e) == (Num::Inf { neg: true }),
{
    lemma_scaled_bounds(mag, sig, e as nat);
    lemma_pow10_mono(309, (sig - 1 + e) as nat);
    lemma_pow10_pos(0);
}

proof fn lemma_tiny_exponent(mag: nat, sig: nat, e: int)
    requires
        sig >= 1,
        pow10((sig - 1) as nat) <= mag < pow10(sig),
        sig + 400 <= -e,
    ensures
        ranged(false, mag, e) == (Num::Dec { neg: false, n: 0, s: 0 }),
        ranged(true, mag, e) == (Num::Dec { neg: true, n: 0, s: 0 }),
{
    let s = (-e) as nat;
    lemma_pow10_mono(sig, (s - 400) as nat);
    lemma_pow10_mono(sig, 309 + s);
    lemma_pow10_pos(0);
}

/// The number `±mag * 10^(ex - fl)` given its mantissa digits and its
/// exponent as read (magnitude capped at `EXP_CAP`).
fn build_number(
    neg: bool,
    mant: Vec<u8>,
    fl: usize,
    eneg: bool,
    emag: u128,
    Ghost(exv): Ghost<int>,
) -> (r: Parsed)
    requires
        is_digits(mant@),
        mant.len() < usize::MAX / 4,
        fl <= mant.len(),
        emag <= EXP_CAP,
        eneg == (exv < 0),
        emag < EXP_CAP ==> exv == if eneg {
            -(emag as int)
        } else {
            emag as int
        },
        emag == EXP_CAP ==> exv >= EXP_CAP || exv <= -(EXP_CAP as int),
    ensures
        r.num() == ranged(neg, dval(mant@), exv - fl),
        r.wf(),
        r matches Parsed::Finite(f) ==> f.digits.len() <= mant.len() + 400 && f.scale
            <= mant.len() + 400,
{
    let ghost mag = dval(mant@);
    let mut z: usize = 0;
    while z < mant.len() && mant[z] == 0
        invariant
            z <= mant.len(),
            mant@.take(z as int) == zeros(z as nat),
        decreases mant.len() - z,
    {
        proof {
            assert(mant@.take(z as int + 1) =~= zeros((z + 1) as nat));
        }
        z = z + 1;
    }
    let sig = mant.len() - z;
    proof {
        lemma_significant_digits(mant@, z as nat);
    }
    if sig == 0 {
        let f = Fixed { neg, digits: Vec::new(), scale: 0 };
        proof {
            assert(dval(f.digits@) == 0);
        }
        return Parsed::Finite(f);
    }
    if emag == EXP_CAP {
        if !eneg {
            proof {
                lemma_big_exponent(mag, sig as nat, exv - fl);
            }
            return Parsed::Inf(neg);
        } else {
            proof {
                lemma_tiny_exponent(mag, sig as nat, exv - fl);
            }
            return Parsed::Finite(Fixed { neg, digits: Vec::new(), scale: 0 });
        }
    }
    let e: i128 = if eneg {
        -(emag as i128) - (fl as i128)
    } else {
        (emag as i128) - (fl as i128)
    };
    if e >= 0 {
        if (sig as i128) - 1 + e >= 309 {
            proof {
                lemma_scaled_bounds(mag, sig as nat, e as nat);
                lemma_pow10_mono(309, (sig - 1 + e) as nat);
            }
            return Parsed::Inf(neg);
        }
        let digits = pad_back(&mant, e as usize);
        proof {
            lemma_scaled_bounds(mag, sig as nat, e as nat);
            lemma_pow10_mono((sig + e) as nat, 309);
        }
        return Parsed::Finite(Fixed { neg, digits, scale: 0 });
    }
    let sc: i128 = -e;
    if (sig as i128) - 1 >= 309 + sc {
        proof {
            lemma_pow10_mono((309 + sc) as nat, (sig - 1) as nat);
        }
        return Parsed::Inf(neg);
    }
    if sc > 400 && (sig as i128) <= sc - 400 {
        proof {
            lemma_pow10_mono(sig as nat, (sc - 400) as nat);
            lemma_pow10_mono(sig as nat, (309 + sc) as nat);
        }
        return Parsed::Finite(Fixed { neg, digits: Vec::new(), scale: 0 });
    }
    proof {
        lemma_pow10_mono(sig as nat, (309 + sc) as nat);
        if sc > 400 {
            lemma_pow10_mono((sc - 400) as nat, (sig - 1) as nat);
        }
    }
    Parsed::Finite(Fixed { neg, digits: mant, scale: sc as usize })
}

/// The characters before the exponent mark split at the first decimal
/// point: the integer digits, the fraction digits, and the index of the
/// exponent mark.
fn mantissa_parts(b: &Vec<char>) -> (r: (Vec<char>, Vec<char>, usize))
    ensures
        r.2 == first_e(b@, 0),
        r.2 <= b.len(),
        r.0.len() + r.1.len() <= r.2,
        ({
            let m = b@.take(r.2 as int);
            let d = first_dot(m, 0);
            &&& r.0@ == m.take(d)
            &&& r.1@ == if d < m.len() {
                m.skip(d + 1)
            } else {
                Seq::empty()
            }
        }),
{
    let k = find_mark(b, false);
    proof {
        lemma_first_bounds(b@, 0, false);
    }
    let m = crate::text::slice_chars(b, 0, k);
    let d = find_mark(&m, true);
    proof {
        lemma_first_bounds(m@, 0, true);
        assert(m@ =~= b@.take(k as int));
    }
    let ip = crate::text::slice_chars(&m, 0, d);
    let fp = if d < m.len() {
        crate::text::slice_chars(&m, d + 1, m.len())
    } else {
        Vec::new()
    };
    proof {
        assert(ip@ =~= m@.take(d as int));
        if d < m.len() {
            assert(fp@ =~= m@.skip(d + 1));
        } else {
            assert(fp@ =~= Seq::<char>::empty());
        }
        assert(ip.len() + fp.len() <= k);
    }
    (ip, fp, k)
}

fn concat_chars(a: &Vec<char>, b: &Vec<char>) -> (r: Vec<char>)
    ensures
        r@ == a@ + b@,
{
    let mut r: Vec<char> = a.clone();
    proof {
        assert(r@ =~= a@);
    }
    let mut j: usize = 0;
    while j < b.len()
        invariant
            j <= b.len(),
            r@ == a@ + b@.take(j as int),
        decreases b.len() - j,
    {
        r.push(b[j]);
        proof {
            assert(r@ =~= a@ + b@.take(j as int + 1));
        }
        j = j + 1;
    }
    proof {
        assert(b@.take(j as int) =~= b@);
    }
    r
}

fn parse_decimal_text(b: &Vec<char>, neg: bool) -> (r: Option<Parsed>)
    requires
        b.len() < usize::MAX / 4,
    ensures
        match r {
            None => decimal_text(b@, neg) is None,
            Some(p) => decimal_text(b@, neg) == Some(p.num()) && p.wf() && (p matches Parsed::Finite(
                f,
            ) ==> f.digits.len() <= b.len() + 400 && f.scale <= b.len() + 400),
        },
{
    let (ip, fp, k) = mantissa_parts(b);
    if !all_digit_chars(&ip) || !all_digit_chars(&fp) || ip.len() + fp.len() == 0 {
        return None;
    }
    let ex = if k < b.len() {
        let x = crate::text::slice_chars(b, k + 1, b.len());
        proof {
            assert(x@ =~= b@.skip(k + 1));
        }
        read_exponent(&x)
    } else {
        Some((false, 0u128))
    };
    let ghost exv: int = if k < b.len() {
        exponent_value(b@.skip(k + 1))->0
    } else {
        0
    };
    match ex {
        None => None,
        Some((eneg, emag)) => {
            let all = concat_chars(&ip, &fp);
            proof {
                assert(all_digits(all@)) by {
                    assert forall|q: int| 0 <= q < all@.len() implies is_digit(
                        #[trigger] all@[q],
                    ) by {
                        if q < ip@.len() {
                            assert(all@[q] == ip@[q]);
                        } else {
                            assert(all@[q] == fp@[q - ip@.len()]);
                        }
                    }
                }
                assert(ip.len() + fp.len() <= k);
            }
            let mant = digit_values(&all);
            Some(build_number(neg, mant, fp.len(), eneg, emag, Ghost(exv)))
        },
    }
}

/// Reads a number with the grammar of `f64::from_str`; `None` when the
/// text is not one.
pub fn parse_number(s: &Vec<char>) -> (r: Option<Parsed>)
    requires
        s.len() < usize::MAX / 4,
    ensures
        match r {
            None => parse_num(s@) is None,
            Some(p) => parse_num(s@) == Some(p.num()) && p.wf() && (p matches Parsed::Finite(f)
                ==> f.digits.len() <= s.len() + 400 && f.scale <= s.len() + 400),
        },
{
    let neg = s.len() > 0 && s[0] == '-';
    let start: usize = if s.len() > 0 && (s[0] == '+' || s[0] == '-') {
        1
    } else {
        0
    };
    let b = crate::text::slice_chars(s, start, s.len());
    proof {
        assert(b@ =~= s@.skip(sign_len(s@)));
    }
    let lb = lower_ascii(&b);
    if chars_eq_str(&lb, "inf") || chars_eq_str(&lb, "infinity") {
        return Some(Parsed::Inf(neg));
    }
    if chars_eq_str(&lb, "nan") {
        return Some(Parsed::NaN);
    }
    parse_decimal_text(&b, neg)
}

// ---------------------------------------------------------------------------
// Clamping and midpoints
// ---------------------------------------------------------------------------

/// Whether `dval(d) >= 10^k`.
fn at_least_pow10(d: &Vec<u8>, k: usize) -> (r: bool)
    requires
        is_digits(d@),
    ensures
        r == (dval(d@) >= pow10(k as nat)),
{
    proof {
        lemma_dval_bound(d@);
    }
    if d.len() <= k {
        proof {
            lemma_pow10_mono(d.len() as nat, k as nat);
        }
        return false;
    }
    let cut = d.len() - k;
    let hi = crate::text::slice_digits(d, 0, cut);
    let ghost lo = d@.subrange(cut as int, d.len() as int);
    proof {
        assert(d@ =~= hi@ + lo);
        lemma_dval_append(hi@, lo);
        assert(is_digits(lo));
        lemma_dval_bound(lo);
        assert(lo.len() == k);
    }
    let nz = any_nonzero(&hi, 0);
    proof {
        assert(hi@.subrange(0, hi.len() as int) =~= hi@);
        let p = pow10(k as nat);
        lemma_pow10_pos(k as nat);
        assert(dval(d@) == dval(hi@) * p + dval(lo));
        assert(dval(lo) < p);
        if nz {
            assert(dval(hi@) >= 1);
            assert(dval(hi@) * p >= p) by (nonlinear_arith)
                requires
                    dval(hi@) >= 1,
            ;
            assert(dval(d@) >= p);
        } else {
            assert(dval(hi@) == 0);
            assert(dval(hi@) * p == 0) by (nonlinear_arith)
                requires
                    dval(hi@) == 0,
            ;
            assert(dval(d@) == dval(lo));
            assert(dval(d@) < p);
        }
    }
    nz
}

/// `num_lt` on numbers read from text.
pub fn less(a: &Parsed, b: &Parsed) -> (r: bool)
    requires
        a.wf(),
        b.wf(),
        a matches Parsed::Finite(f) ==> f.digits.len() + f.scale < usize::MAX / 2,
        b matches Parsed::Finite(f) ==> f.digits.len() + f.scale < usize::MAX / 2,
    ensures
        r == num_lt(a.num(), b.num()),
{
    match a {
        Parsed::NaN => false,
        Parsed::Inf(an) => *an && match b {
            Parsed::Inf(bn) => !*bn,
            Parsed::NaN => false,
            Parsed::Finite(_) => true,
        },
        Parsed::Finite(x) => match b {
            Parsed::NaN => false,
            Parsed::Inf(bn) => !*bn,
            Parsed::Finite(y) => compare_fixed(x, y) == -1,
        },
    }
}

/// The text of `clamp(w, lo, hi)`.
pub fn show_clamped(w: &Parsed, lo: &Parsed, hi: &Parsed) -> (r: Vec<char>)
    requires
        w.wf(),
        lo.wf(),
        hi.wf(),
        w matches Parsed::Finite(f) ==> f.digits.len() + f.scale < usize::MAX / 2,
        lo matches Parsed::Finite(f) ==> f.digits.len() + f.scale < usize::MAX / 2,
        hi matches Parsed::Finite(f) ==> f.digits.len() + f.scale < usize::MAX / 2,
    ensures
        r@ == show(clamp(w.num(), lo.num(), hi.num())),
{
    let x: &Parsed = if less(w, lo) {
        lo
    } else {
        w
    };
    let y: &Parsed = if less(hi, x) {
        hi
    } else {
        x
    };
    show_parsed(y)
}

/// The midpoint of two decimals.
fn midpoint_fixed(a: &Fixed, b: &Fixed) -> (r: Parsed)
    requires
        a.wf(),
        b.wf(),
        a.digits.len() + a.scale < usize::MAX / 8,
        b.digits.len() + b.scale < usize::MAX / 8,
    ensures
        r.num() == midpoint(a.num(), b.num()),
        r.wf(),
        r matches Parsed::Finite(f) ==> f.digits.len() + f.scale + 2 < usize::MAX,
{
    let (x, y, t) = align(a, b);
    let ghost xv = dval(x@);
    let ghost yv = dval(y@);
    let ghost sa = signed_at(a.neg, dval(a.digits@), a.scale as nat, t as nat);
    let ghost sb = signed_at(b.neg, dval(b.digits@), b.scale as nat, t as nat);
    proof {
        assert(sa == if a.neg {
            -(xv as int)
        } else {
            xv as int
        });
        assert(sb == if b.neg {
            -(yv as int)
        } else {
            yv as int
        });
    }
    let mag: Vec<u8>;
    let neg: bool;
    if a.neg == b.neg {
        mag = add_digits(&x, &y);
        neg = a.neg;
    } else {
        let c = compare_digits(&x, &y);
        if c >= 0 {
            mag = sub_digits(&x, &y);
            neg = a.neg && c == 1;
        } else {
            mag = sub_digits(&y, &x);
            neg = b.neg;
        }
    }
    let ghost sum = sa + sb;
    proof {
        let m: nat = if sum < 0 {
            (-sum) as nat
        } else {
            sum as nat
        };
        assert(dval(mag@) == m);
        if sum < 0 {
            assert(neg);
        } else if sum > 0 {
            assert(!neg);
        } else {
            assert(neg == (a.neg && b.neg));
        }
        crate::decimal::lemma_pow10_add(309, t as nat);
        lemma_pow10_pos((309 + t) as nat);
        assert(huge(t as nat) == pow10((309 + t) as nat));
        assert(dval(mag@) >= pow10((309 + t) as nat) ==> sum != 0);
    }
    if at_least_pow10(&mag, 309 + t) {
        return Parsed::Inf(neg);
    }
    let ten = pad_back(&mag, 1);
    proof {
        assert(pow10(1) == 10) by {
            assert(pow10(0) == 1);
        }
        assert(dval(ten@) % 2 == 0) by (nonlinear_arith)
            requires
                dval(ten@) == dval(mag@) * 10,
        ;
    }
    let half = halve_digits(&ten);
    Parsed::Finite(Fixed { neg, digits: half, scale: t + 1 })
}

/// The text of `midpoint(lo, hi)`.
pub fn show_midpoint(lo: &Parsed, hi: &Parsed) -> (r: Vec<char>)
    requires
        lo.wf(),
        hi.wf(),
        lo matches Parsed::Finite(f) ==> f.digits.len() + f.scale < usize::MAX / 8,
        hi matches Parsed::Finite(f) ==> f.digits.len() + f.scale < usize::MAX / 8,
    ensures
        r@ == show(midpoint(lo.num(), hi.num())),
{
    let m: Parsed = match lo {
        Parsed::NaN => Parsed::NaN,
        Parsed::Inf(a) => match hi {
            Parsed::NaN => Parsed::NaN,
            Parsed::Inf(b) => if *a == *b {
                Parsed::Inf(*a)
            } else {
                Parsed::NaN
            },
            Parsed::Finite(_) => Parsed::Inf(*a),
        },
        Parsed::Finite(x) => match hi {
            Parsed::NaN => Parsed::NaN,
            Parsed::Inf(b) => Parsed::Inf(*b),
            Parsed::Finite(y) => midpoint_fixed(x, y),
        },
    };
    show_parsed(&m)
}


// ---------------------------------------------------------------------------
// Exact binary64 values
// ---------------------------------------------------------------------------

/// `2^52`. Every whole number up to `2^53` in magnitude is a binary64
/// value, so whole numbers up to this bound read, add and halve without
/// rounding.
pub const EXACT_LIMIT: u64 = 4_503_599_627_370_496;

/// A whole number of magnitude at most `EXACT_LIMIT`, an infinity or NaN:
/// a number that `f64` holds as it is written, and that halving a sum of
/// two of them keeps exact.
pub open spec fn exact_integer(x: Num) -> bool {
    match x {
        Num::Dec { n, s, .. } => n % pow10(s) == 0 && n / pow10(s) <= EXACT_LIMIT,
        _ => true,
    }
}

proof fn lemma_dval_zero_iff(t: Seq<u8>)
    requires
        is_digits(t),
    ensures
        dval(t) == 0 <==> forall|i: int| 0 <= i < t.len() ==> t[i] == 0,
    decreases t.len(),
{
    if t.len() > 0 {
        let e = t.drop_last();
        lemma_dval_zero_iff(e);
        if dval(t) == 0 {
            assert forall|i: int| 0 <= i < t.len() implies t[i] == 0 by {
                if i < e.len() {
                    assert(e[i] == t[i]);
                }
            }
        }
        if forall|i: int| 0 <= i < t.len() ==> t[i] == 0 {
            assert forall|i: int| 0 <= i < e.len() implies e[i] == 0 by {
                assert(e[i] == t[i]);
            }
            assert(t[t.len() - 1] == 0);
        }
    }
}

/// Whether a number read from text is an [`exact_integer`].
pub fn is_exact_integer(p: &Parsed) -> (r: bool)
    requires
        p.wf(),
    ensures
        r == exact_integer(p.num()),
{
    let f = match p {
        Parsed::Finite(f) => f,
        _ => {
            return true;
        },
    };
    let d = &f.digits;
    let k = d.len();
    let h: usize = if f.scale >= k {
        0
    } else {
        k - f.scale
    };
    let ghost head = d@.take(h as int);
    let ghost tail = d@.skip(h as int);
    proof {
        assert(d@ =~= head + tail);
        lemma_dval_append(head, tail);
        assert(is_digits(tail));
        assert(is_digits(head));
        lemma_dval_bound(tail);
        lemma_dval_bound(head);
        lemma_pow10_mono(tail.len(), f.scale as nat);
        lemma_pow10_pos(f.scale as nat);
        if h == 0 {
            assert(head.len() == 0);
            assert(dval(head) == 0);
        }
        vstd::arithmetic::div_mod::lemma_fundamental_div_mod_converse(
            dval(d@) as int,
            pow10(f.scale as nat) as int,
            dval(head) as int,
            dval(tail) as int,
        );
        lemma_dval_zero_iff(tail);
    }
    let mut acc: u64 = 0;
    let mut big = false;
    let mut i: usize = 0;
    while i < h
        invariant
            i <= h <= d.len(),
            is_digits(d@),
            !big ==> acc == dval(d@.take(i as int)) && acc <= EXACT_LIMIT,
            big ==> dval(d@.take(i as int)) > EXACT_LIMIT,
        decreases h - i,
    {
        proof {
            assert(d@.take(i as int + 1).drop_last() =~= d@.take(i as int));
            assert(d@.take(i as int + 1).last() == d@[i as int]);
        }
        if !big {
            let v: u64 = acc * 10 + d[i] as u64;
            if v > EXACT_LIMIT {
                big = true;
            } else {
                acc = v;
            }
        }
        i = i + 1;
    }
    proof {
        assert(d@.take(h as int) == head);
    }
    if big {
        return false;
    }
    let mut j: usize = h;
    let mut zero = true;
    while j < k
        invariant
            h <= j <= k,
            k == d.len(),
            tail == d@.skip(h as int),
            zero == forall|m: int| 0 <= m < j - h ==> tail[m] == 0,
        decreases k - j,
    {
        proof {
            assert(tail[j - h] == d@[j as int]);
        }
        if d[j] != 0 {
            zero = false;
        }
        j = j + 1;
    }
    zero
}

} // verus!
