//! Arbitrary-length unsigned decimal numbers held as digit vectors (most
//! significant digit first), with comparison, addition, subtraction,
//! halving and rounding to an integer, half to even.
use vstd::prelude::*;

use crate::text::{decimal, digit_char};

verus! {

pub open spec fn pow10(n: nat) -> nat
    decreases n,
{
    if n == 0 {
        1
    } else {
        10 * pow10((n - 1) as nat)
    }
}

/// Every entry is a decimal digit.
pub open spec fn is_digits(d: Seq<u8>) -> bool {
    forall|i: int| 0 <= i < d.len() ==> #[trigger] d[i] < 10
}

/// The value of a digit sequence, most significant digit first.
pub open spec fn dval(d: Seq<u8>) -> nat
    decreases d.len(),
{
    if d.len() == 0 {
        0
    } else {
        dval(d.drop_last()) * 10 + d.last() as nat
    }
}

pub open spec fn zeros(n: nat) -> Seq<u8> {
    Seq::new(n, |i: int| 0u8)
}

/// Rounding of `n / p` to an integer, ties to the even neighbour.
pub open spec fn round_half_even(n: nat, p: nat) -> nat
    recommends
        p > 0,
{
    let q = n / p;
    let r = n % p;
    if 2 * r > p {
        q + 1
    } else if 2 * r < p {
        q
    } else if q % 2 == 0 {
        q
    } else {
        q + 1
    }
}

// ---------------------------------------------------------------------------
// Lemmas
// ---------------------------------------------------------------------------

pub proof fn lemma_pow10_pos(n: nat)
    ensures
        pow10(n) >= 1,
    decreases n,
{
    if n > 0 {
        lemma_pow10_pos((n - 1) as nat);
    }
}

pub proof fn lemma_pow10_add(a: nat, b: nat)
    ensures
        pow10(a + b) == pow10(a) * pow10(b),
    decreases b,
{
    if b == 0 {
        assert(pow10(0) == 1);
        assert(a + b == a);
    } else {
        lemma_pow10_add(a, (b - 1) as nat);
        assert((a + b - 1) as nat == a + (b - 1) as nat);
        assert(pow10(a + b) == 10 * pow10((a + b - 1) as nat));
        assert(pow10(a) * pow10(b) == pow10(a) * (10 * pow10((b - 1) as nat)));
        assert(pow10(a) * (10 * pow10((b - 1) as nat)) == 10 * (pow10(a) * pow10(
            (b - 1) as nat,
        ))) by (nonlinear_arith);
    }
}

pub proof fn lemma_pow10_mono(a: nat, b: nat)
    requires
        a <= b,
    ensures
        pow10(a) <= pow10(b),
    decreases b,
{
    if a < b {
        lemma_pow10_mono(a, (b - 1) as nat);
        lemma_pow10_pos((b - 1) as nat);
    }
}

/// `dval(a + b) == dval(a) * 10^|b| + dval(b)`.
pub proof fn lemma_dval_append(a: Seq<u8>, b: Seq<u8>)
    ensures
        dval(a + b) == dval(a) * pow10(b.len()) + dval(b),
    decreases b.len(),
{
    if b.len() == 0 {
        assert(a + b =~= a);
        assert(pow10(0) == 1);
        assert(dval(b) == 0);
    } else {
        let c = a + b;
        assert(c.drop_last() =~= a + b.drop_last());
        assert(c.last() == b.last());
        lemma_dval_append(a, b.drop_last());
        let p = pow10((b.len() - 1) as nat);
        assert(pow10(b.len()) == 10 * p);
        assert(dval(b) == dval(b.drop_last()) * 10 + b.last() as nat);
        assert(dval(c) == (dval(a) * p + dval(b.drop_last())) * 10 + b.last() as nat);
        assert((dval(a) * p + dval(b.drop_last())) * 10 == dval(a) * (10 * p) + dval(
            b.drop_last(),
        ) * 10) by (nonlinear_arith);
    }
}

pub proof fn lemma_dval_prepend(x: u8, s: Seq<u8>)
    ensures
        dval(seq![x] + s) == (x as nat) * pow10(s.len()) + dval(s),
{
    lemma_dval_append(seq![x], s);
    assert(seq![x].drop_last() =~= Seq::<u8>::empty());
    assert(dval(Seq::<u8>::empty()) == 0);
    assert(dval(seq![x]) == dval(seq![x].drop_last()) * 10 + x as nat);
}

pub proof fn lemma_dval_bound(d: Seq<u8>)
    requires
        is_digits(d),
    ensures
        dval(d) < pow10(d.len()),
    decreases d.len(),
{
    if d.len() > 0 {
        let e = d.drop_last();
        assert(is_digits(e));
        lemma_dval_bound(e);
        assert(d.last() < 10);
        assert(dval(e) * 10 + 9 < pow10(e.len()) * 10) by (nonlinear_arith)
            requires
                dval(e) < pow10(e.len()),
        ;
    }
}

pub proof fn lemma_dval_zeros(n: nat)
    ensures
        dval(zeros(n)) == 0,
    decreases n,
{
    if n > 0 {
        assert(zeros(n).drop_last() =~= zeros((n - 1) as nat));
        lemma_dval_zeros((n - 1) as nat);
    }
}

pub proof fn lemma_dval_leading_zeros(n: nat, d: Seq<u8>)
    ensures
        dval(zeros(n) + d) == dval(d),
{
    lemma_dval_append(zeros(n), d);
    lemma_dval_zeros(n);
}

pub proof fn lemma_dval_trailing_zeros(d: Seq<u8>, n: nat)
    ensures
        dval(d + zeros(n)) == dval(d) * pow10(n),
{
    lemma_dval_append(d, zeros(n));
    lemma_dval_zeros(n);
}

/// Two digit sequences of one length that agree before index `k` and
/// differ at `k` are ordered by their digit at `k`.
pub proof fn lemma_dval_first_difference(a: Seq<u8>, b: Seq<u8>, k: int)
    requires
        is_digits(a),
        is_digits(b),
        a.len() == b.len(),
        0 <= k < a.len(),
        a.take(k) == b.take(k),
        a[k] < b[k],
    ensures
        dval(a) < dval(b),
{
    let n = a.len();
    let ra = a.subrange(k + 1, n as int);
    let rb = b.subrange(k + 1, n as int);
    assert(a =~= a.take(k + 1) + ra);
    assert(b =~= b.take(k + 1) + rb);
    lemma_dval_append(a.take(k + 1), ra);
    lemma_dval_append(b.take(k + 1), rb);
    assert(a.take(k + 1).drop_last() =~= a.take(k));
    assert(b.take(k + 1).drop_last() =~= b.take(k));
    assert(is_digits(ra));
    lemma_dval_bound(ra);
    let p = pow10(ra.len());
    let ha = dval(a.take(k));
    let x = dval(a.take(k + 1));
    let y = dval(b.take(k + 1));
    assert(x == ha * 10 + a[k] as nat);
    assert(y == ha * 10 + b[k] as nat);
    assert(x + 1 <= y);
    assert(x * p + dval(ra) < y * p) by (nonlinear_arith)
        requires
            x + 1 <= y,
            dval(ra) < p,
    ;
}

pub proof fn lemma_dval_is_digits_concat(a: Seq<u8>, b: Seq<u8>)
    requires
        is_digits(a),
        is_digits(b),
    ensures
        is_digits(a + b),
{
    assert forall|i: int| 0 <= i < (a + b).len() implies #[trigger] (a + b)[i] < 10 by {
        if i < a.len() {
            assert((a + b)[i] == a[i]);
        } else {
            assert((a + b)[i] == b[i - a.len()]);
        }
    }
}

// ---------------------------------------------------------------------------
// Building digit vectors
// ---------------------------------------------------------------------------

/// `n` zero digits, then `d`.
pub fn pad_front(d: &Vec<u8>, n: usize) -> (r: Vec<u8>)
    requires
        is_digits(d@),
        n + d.len() <= usize::MAX,
    ensures
        r@ == zeros(n as nat) + d@,
        is_digits(r@),
        dval(r@) == dval(d@),
{
    let mut r: Vec<u8> = Vec::new();
    let mut i: usize = 0;
    while i < n
        invariant
            i <= n,
            r@ == zeros(i as nat),
        decreases n - i,
    {
        r.push(0);
        proof {
            assert(r@ =~= zeros((i + 1) as nat));
        }
        i = i + 1;
    }
    let mut k: usize = 0;
    while k < d.len()
        invariant
            k <= d.len(),
            r@ == zeros(n as nat) + d@.take(k as int),
        decreases d.len() - k,
    {
        r.push(d[k]);
        proof {
            assert(r@ =~= zeros(n as nat) + d@.take(k as int + 1));
        }
        k = k + 1;
    }
    proof {
        assert(d@.take(d.len() as int) =~= d@);
        lemma_dval_leading_zeros(n as nat, d@);
        lemma_dval_is_digits_concat(zeros(n as nat), d@);
    }
    r
}

/// `d`, then `n` zero digits.
pub fn pad_back(d: &Vec<u8>, n: usize) -> (r: Vec<u8>)
    requires
        is_digits(d@),
        n + d.len() <= usize::MAX,
    ensures
        r@ == d@ + zeros(n as nat),
        is_digits(r@),
        dval(r@) == dval(d@) * pow10(n as nat),
{
    let mut r: Vec<u8> = Vec::new();
    let mut k: usize = 0;
    while k < d.len()
        invariant
            k <= d.len(),
            r@ == d@.take(k as int),
        decreases d.len() - k,
    {
        r.push(d[k]);
        proof {
            assert(r@ =~= d@.take(k as int + 1));
        }
        k = k + 1;
    }
    let mut i: usize = 0;
    while i < n
        invariant
            i <= n,
            k == d.len(),
            r@ == d@.take(k as int) + zeros(i as nat),
        decreases n - i,
    {
        r.push(0);
        proof {
            assert(r@ =~= d@.take(k as int) + zeros((i + 1) as nat));
        }
        i = i + 1;
    }
    proof {
        assert(d@.take(d.len() as int) =~= d@);
        lemma_dval_trailing_zeros(d@, n as nat);
        lemma_dval_is_digits_concat(d@, zeros(n as nat));
    }
    r
}

// ---------------------------------------------------------------------------
// Arithmetic on equal-length digit vectors
// ---------------------------------------------------------------------------

/// Compares two numbers of one digit length: -1, 0 or 1 as `a` is below,
/// equal to or above `b`.
pub fn compare_digits(a: &Vec<u8>, b: &Vec<u8>) -> (r: i8)
    requires
        is_digits(a@),
        is_digits(b@),
        a.len() == b.len(),
    ensures
        r == -1 <==> dval(a@) < dval(b@),
        r == 0 <==> dval(a@) == dval(b@),
        r == 1 <==> dval(a@) > dval(b@),
{
    let mut i: usize = 0;
    while i < a.len()
        invariant
            i <= a.len(),
            a.len() == b.len(),
            is_digits(a@),
            is_digits(b@),
            a@.take(i as int) == b@.take(i as int),
        decreases a.len() - i,
    {
        if a[i] < b[i] {
            proof {
                lemma_dval_first_difference(a@, b@, i as int);
            }
            return -1;
        }
        if a[i] > b[i] {
            proof {
                lemma_dval_first_difference(b@, a@, i as int);
            }
            return 1;
        }
        proof {
            assert(a@.take(i as int + 1) =~= b@.take(i as int + 1));
        }
        i = i + 1;
    }
    proof {
        assert(a@.take(i as int) =~= a@);
        assert(b@.take(i as int) =~= b@);
    }
    0
}

/// The sum of two numbers of one digit length, one digit longer.
pub fn add_digits(a: &Vec<u8>, b: &Vec<u8>) -> (r: Vec<u8>)
    requires
        is_digits(a@),
        is_digits(b@),
        a.len() == b.len(),
        a.len() < usize::MAX,
    ensures
        r.len() == a.len() + 1,
        is_digits(r@),
        dval(r@) == dval(a@) + dval(b@),
{
    let n = a.len();
    let mut r: Vec<u8> = Vec::new();
    let mut z: usize = 0;
    while z <= n
        invariant
            z <= n + 1,
            n < usize::MAX,
            r@ == zeros(z as nat),
        decreases n + 1 - z,
    {
        r.push(0);
        proof {
            assert(r@ =~= zeros((z + 1) as nat));
        }
        z = z + 1;
    }
    let mut carry: u8 = 0;
    let mut i: usize = n;
    proof {
        assert(a@.subrange(n as int, n as int) =~= Seq::<u8>::empty());
        assert(b@.subrange(n as int, n as int) =~= Seq::<u8>::empty());
        assert(r@.subrange(n + 1, n + 1) =~= Seq::<u8>::empty());
    }
    while i > 0
        invariant
            i <= n,
            n == a.len(),
            n == b.len(),
            r.len() == n + 1,
            carry <= 1,
            is_digits(a@),
            is_digits(b@),
            is_digits(r@),
            dval(a@.subrange(i as int, n as int)) + dval(b@.subrange(i as int, n as int)) == (
            carry as nat) * pow10((n - i) as nat) + dval(r@.subrange(i + 1, n + 1)),
        decreases i,
    {
        let j = i - 1;
        let s: u8 = a[j] + b[j] + carry;
        let digit: u8 = s % 10;
        let next: u8 = s / 10;
        let ghost old_r = r@;
        r.set(i, digit);
        proof {
            let sa = a@.subrange(j as int, n as int);
            let sb = b@.subrange(j as int, n as int);
            let sr = r@.subrange(i as int, n + 1);
            assert(sa =~= seq![a@[j as int]] + a@.subrange(i as int, n as int));
            assert(sb =~= seq![b@[j as int]] + b@.subrange(i as int, n as int));
            assert(sr =~= seq![digit] + old_r.subrange(i + 1, n + 1));
            lemma_dval_prepend(a@[j as int], a@.subrange(i as int, n as int));
            lemma_dval_prepend(b@[j as int], b@.subrange(i as int, n as int));
            lemma_dval_prepend(digit, old_r.subrange(i + 1, n + 1));
            let p = pow10((n - i) as nat);
            assert(pow10((n - j) as nat) == 10 * p);
            assert(s as nat == next as nat * 10 + digit as nat);
            assert((a@[j as int] as nat) * p + (b@[j as int] as nat) * p + (carry as nat) * p == (
            s as nat) * p) by (nonlinear_arith)
                requires
                    s as nat == a@[j as int] as nat + b@[j as int] as nat + carry as nat,
            ;
            assert((s as nat) * p == (next as nat) * (10 * p) + (digit as nat) * p)
                by (nonlinear_arith)
                requires
                    s as nat == next as nat * 10 + digit as nat,
            ;
            assert forall|k: int| 0 <= k < r@.len() implies #[trigger] r@[k] < 10 by {
                if k != i {
                    assert(r@[k] == old_r[k]);
                }
            }
        }
        carry = next;
        i = j;
    }
    let ghost pre = r@;
    r.set(0, carry);
    proof {
        assert(a@.subrange(0, n as int) =~= a@);
        assert(b@.subrange(0, n as int) =~= b@);
        let old_tail = r@.subrange(1, n + 1);
        assert(old_tail =~= pre.subrange(1, n + 1));
        assert((n - 0) as nat == n);
        assert(r@ =~= seq![carry] + old_tail);
        lemma_dval_prepend(carry, old_tail);
        assert forall|k: int| 0 <= k < r@.len() implies #[trigger] r@[k] < 10 by {}
    }
    r
}

/// `a - b` for numbers of one digit length with `a` not below `b`.
pub fn sub_digits(a: &Vec<u8>, b: &Vec<u8>) -> (r: Vec<u8>)
    requires
        is_digits(a@),
        is_digits(b@),
        a.len() == b.len(),
        dval(a@) >= dval(b@),
    ensures
        r.len() == a.len(),
        is_digits(r@),
        dval(r@) == dval(a@) - dval(b@),
{
    let n = a.len();
    let mut r: Vec<u8> = Vec::new();
    let mut z: usize = 0;
    while z < n
        invariant
            z <= n,
            r@ == zeros(z as nat),
        decreases n - z,
    {
        r.push(0);
        proof {
            assert(r@ =~= zeros((z + 1) as nat));
        }
        z = z + 1;
    }
    let mut borrow: u8 = 0;
    let mut i: usize = n;
    proof {
        assert(a@.subrange(n as int, n as int) =~= Seq::<u8>::empty());
        assert(b@.subrange(n as int, n as int) =~= Seq::<u8>::empty());
        assert(r@.subrange(n as int, n as int) =~= Seq::<u8>::empty());
    }
    while i > 0
        invariant
            i <= n,
            n == a.len(),
            n == b.len(),
            r.len() == n,
            borrow <= 1,
            is_digits(a@),
            is_digits(b@),
            is_digits(r@),
            dval(a@.subrange(i as int, n as int)) + (borrow as nat) * pow10((n - i) as nat) == dval(
                b@.subrange(i as int, n as int),
            ) + dval(r@.subrange(i as int, n as int)),
        decreases i,
    {
        let j = i - 1;
        let x: u8 = a[j];
        let y: u8 = b[j] + borrow;
        let digit: u8;
        let next: u8;
        if x >= y {
            digit = x - y;
            next = 0;
        } else {
            digit = x + 10 - y;
            next = 1;
        }
        let ghost old_r = r@;
        r.set(j, digit);
        proof {
            let p = pow10((n - i) as nat);
            assert(pow10((n - j) as nat) == 10 * p);
            assert(a@.subrange(j as int, n as int) =~= seq![x] + a@.subrange(i as int, n as int));
            assert(b@.subrange(j as int, n as int) =~= seq![b@[j as int]] + b@.subrange(
                i as int,
                n as int,
            ));
            assert(r@.subrange(j as int, n as int) =~= seq![digit] + old_r.subrange(
                i as int,
                n as int,
            ));
            lemma_dval_prepend(x, a@.subrange(i as int, n as int));
            lemma_dval_prepend(b@[j as int], b@.subrange(i as int, n as int));
            lemma_dval_prepend(digit, old_r.subrange(i as int, n as int));
            assert(x as nat + 10 * (next as nat) == y as nat + digit as nat);
            assert((x as nat) * p + (next as nat) * (10 * p) == (b@[j as int] as nat) * p + (
            borrow as nat) * p + (digit as nat) * p) by (nonlinear_arith)
                requires
                    x as nat + 10 * (next as nat) == y as nat + digit as nat,
                    y as nat == b@[j as int] as nat + borrow as nat,
            ;
            assert forall|k: int| 0 <= k < r@.len() implies #[trigger] r@[k] < 10 by {
                if k != j {
                    assert(r@[k] == old_r[k]);
                }
            }
        }
        borrow = next;
        i = j;
    }
    proof {
        assert(a@.subrange(0, n as int) =~= a@);
        assert(b@.subrange(0, n as int) =~= b@);
        assert(r@.subrange(0, n as int) =~= r@);
        lemma_dval_bound(r@);
        if borrow == 1 {
            lemma_dval_bound(b@);
        }
    }
    r
}

/// Half of an even number, same digit length.
pub fn halve_digits(a: &Vec<u8>) -> (r: Vec<u8>)
    requires
        is_digits(a@),
        dval(a@) % 2 == 0,
    ensures
        r.len() == a.len(),
        is_digits(r@),
        dval(r@) * 2 == dval(a@),
{
    let mut r: Vec<u8> = Vec::new();
    let mut rem: u8 = 0;
    let mut i: usize = 0;
    while i < a.len()
        invariant
            i <= a.len(),
            r.len() == i,
            rem <= 1,
            is_digits(a@),
            is_digits(r@),
            dval(a@.take(i as int)) == 2 * dval(r@) + rem as nat,
        decreases a.len() - i,
    {
        let cur: u8 = rem * 10 + a[i];
        let q: u8 = cur / 2;
        let ghost old_r = r@;
        r.push(q);
        proof {
            assert(a@.take(i as int + 1).drop_last() =~= a@.take(i as int));
            assert(r@.drop_last() =~= old_r);
            let nr = (cur % 2) as nat;
            assert(dval(a@.take(i as int + 1)) == dval(a@.take(i as int)) * 10 + a@[i as int] as nat);
            assert(dval(r@) == dval(old_r) * 10 + q as nat);
            assert(cur as nat == 2 * (q as nat) + nr);
            assert((2 * dval(old_r) + rem as nat) * 10 + a@[i as int] as nat == 2 * (dval(old_r)
                * 10 + q as nat) + nr) by (nonlinear_arith)
                requires
                    cur as nat == 2 * (q as nat) + nr,
                    cur as nat == rem as nat * 10 + a@[i as int] as nat,
            ;
            assert forall|k: int| 0 <= k < r@.len() implies #[trigger] r@[k] < 10 by {
                if k < i {
                    assert(r@[k] == old_r[k]);
                }
            }
        }
        rem = cur % 2;
        i = i + 1;
    }
    proof {
        assert(a@.take(a.len() as int) =~= a@);
        assert((2 * dval(r@) + rem as nat) % 2 == rem as nat) by (nonlinear_arith)
            requires
                rem <= 1,
        ;
    }
    r
}

/// One more than `d`, one digit longer.
pub fn increment_digits(d: &Vec<u8>) -> (r: Vec<u8>)
    requires
        is_digits(d@),
        d.len() < usize::MAX,
    ensures
        r.len() == d.len() + 1,
        is_digits(r@),
        dval(r@) == dval(d@) + 1,
{
    let mut one: Vec<u8> = Vec::new();
    let mut z: usize = 0;
    while z + 1 < d.len()
        invariant
            z + 1 <= d.len() || z == 0,
            one@ == zeros(z as nat),
        decreases d.len() - z,
    {
        one.push(0);
        proof {
            assert(one@ =~= zeros((z + 1) as nat));
        }
        z = z + 1;
    }
    if d.len() == 0 {
        let mut r: Vec<u8> = Vec::new();
        r.push(1);
        proof {
            assert(r@.drop_last() =~= Seq::<u8>::empty());
            assert(dval(r@) == dval(r@.drop_last()) * 10 + r@.last() as nat);
            assert(dval(d@) == 0);
        }
        return r;
    }
    one.push(1);
    proof {
        assert(one@.drop_last() =~= zeros(z as nat));
        lemma_dval_zeros(z as nat);
        assert(is_digits(one@));
    }
    add_digits(d, &one)
}

// ---------------------------------------------------------------------------
// Writing
// ---------------------------------------------------------------------------

/// Digits without leading zeros (a lone `0` for zero) turned into text.
proof fn lemma_digit_text(d: Seq<u8>)
    requires
        is_digits(d),
        d.len() >= 1,
        d.len() > 1 ==> d[0] != 0,
    ensures
        d.map_values(|x: u8| digit_char(x as int)) == decimal(dval(d)),
    decreases d.len(),
{
    if d.len() == 1 {
        assert(d.drop_last() =~= Seq::<u8>::empty());
        assert(dval(d) == dval(d.drop_last()) * 10 + d.last() as nat);
        assert(dval(d) == d[0] as nat);
        assert(d[0] < 10);
        assert(decimal(dval(d)) == seq![digit_char(dval(d) as int)]);
        assert(d.map_values(|x: u8| digit_char(x as int)) =~= seq![digit_char(d[0] as int)]);
    } else {
        let e = d.drop_last();
        assert(is_digits(e));
        assert(e[0] == d[0]);
        lemma_digit_text(e);
        lemma_dval_leading_nonzero(e);
        assert(dval(d) == dval(e) * 10 + d.last() as nat);
        assert(dval(d) >= 10);
        assert(dval(d) / 10 == dval(e));
        assert(dval(d) % 10 == d.last() as nat);
        assert(decimal(dval(d)) == decimal(dval(d) / 10).push(digit_char((dval(d) % 10) as int)));
        assert(d.map_values(|x: u8| digit_char(x as int)) =~= e.map_values(
            |x: u8| digit_char(x as int),
        ).push(digit_char(d.last() as int)));
    }
}

proof fn lemma_dval_leading_nonzero(d: Seq<u8>)
    requires
        is_digits(d),
        d.len() >= 1,
        d[0] != 0,
    ensures
        dval(d) >= 1,
    decreases d.len(),
{
    if d.len() > 1 {
        let e = d.drop_last();
        assert(e[0] == d[0]);
        assert(is_digits(e));
        lemma_dval_leading_nonzero(e);
    } else {
        assert(d.drop_last() =~= Seq::<u8>::empty());
    }
}

/// The decimal text of a digit vector's value, without leading zeros.
pub fn digits_text(d: &Vec<u8>) -> (r: Vec<char>)
    requires
        is_digits(d@),
    ensures
        r@ == decimal(dval(d@)),
{
    let mut start: usize = 0;
    while start + 1 < d.len() && d[start] == 0
        invariant
            start <= d.len(),
            start == 0 || start < d.len(),
            d@.take(start as int) == zeros(start as nat),
        decreases d.len() - start,
    {
        proof {
            assert(d@.take(start as int + 1) =~= zeros((start + 1) as nat));
        }
        start = start + 1;
    }
    let mut r: Vec<char> = Vec::new();
    if d.len() == 0 {
        r.push('0');
        proof {
            reveal_with_fuel(decimal, 1);
            assert(r@ =~= decimal(0));
        }
        return r;
    }
    let ghost rest = d@.subrange(start as int, d.len() as int);
    let mut i: usize = start;
    while i < d.len()
        invariant
            start <= i <= d.len(),
            rest == d@.subrange(start as int, d.len() as int),
            is_digits(d@),
            r@ == d@.subrange(start as int, i as int).map_values(|x: u8| digit_char(x as int)),
        decreases d.len() - i,
    {
        let x = d[i];
        let c: char = ((x + 48) as u8) as char;
        r.push(c);
        proof {
            assert(c == digit_char(x as int));
            assert(d@.subrange(start as int, i as int + 1) =~= d@.subrange(start as int, i as int).push(
                x,
            ));
            assert(r@ =~= d@.subrange(start as int, i as int + 1).map_values(
                |x: u8| digit_char(x as int),
            ));
        }
        i = i + 1;
    }
    proof {
        assert(d@ =~= zeros(start as nat) + rest) by {
            assert(d@.take(start as int) == zeros(start as nat));
        }
        lemma_dval_leading_zeros(start as nat, rest);
        assert(is_digits(rest));
        lemma_digit_text(rest);
    }
    r
}

} // verus!
