use vstd::prelude::*;

verus! {

use vstd::arithmetic::power::pow;
use vstd::arithmetic::power::lemma_pow0;
use vstd::arithmetic::power::lemma_pow1;
use vstd::arithmetic::power::lemma_pow_adds;
use vstd::arithmetic::power::lemma_pow_positive;
use vstd::arithmetic::mul::lemma_mul_nonnegative;
use vstd::arithmetic::mul::lemma_mul_inequality;
use vstd::arithmetic::div_mod::lemma_div_is_strictly_smaller;
use vstd::arithmetic::div_mod::lemma_div_pos_is_pos;
use vstd::arithmetic::div_mod::lemma_fundamental_div_mod;
use vstd::arithmetic::div_mod::lemma_fundamental_div_mod_converse;

/// Value of `s` read as a big-endian string of digits in base `b`.
pub open spec fn be_val(s: Seq<u8>, b: int) -> int
    decreases s.len(),
{
    if s.len() == 0 {
        0
    } else {
        be_val(s.drop_last(), b) * b + s.last()
    }
}

/// Value of `s` read as a little-endian string of digits in base `b`.
pub open spec fn le_val(s: Seq<u8>, b: int) -> int
    decreases s.len(),
{
    if s.len() == 0 {
        0
    } else {
        le_val(s.drop_last(), b) + s.last() * pow(b, (s.len() - 1) as nat)
    }
}

/// The canonical big-endian digit string of `n` in base `b`: no leading zero
/// digit, and zero itself is written as the empty string.
pub open spec fn digits_of(n: int, b: int) -> Seq<u8>
    decreases n,
    when n >= 0 && 2 <= b <= 256
{
    if n == 0 {
        Seq::empty()
    } else {
        proof {
            lemma_div_pos_is_pos(n, b);
            lemma_div_is_strictly_smaller(n, b);
        }
        digits_of(n / b, b).push(#[verifier::truncate] ((n % b) as u8))
    }
}

/// How many zero digits `s` starts with.
pub open spec fn leading_zeros(s: Seq<u8>) -> nat
    decreases s.len(),
{
    if s.len() == 0 || s.first() != 0 {
        0
    } else {
        1 + leading_zeros(s.drop_first())
    }
}

/// A digit string that starts with `z` zeros and then either ends or carries a
/// nonzero digit starts with exactly `z` zero digits.
pub proof fn lemma_leading_zeros_exact(s: Seq<u8>, z: int)
    requires
        0 <= z <= s.len(),
        forall|i: int| 0 <= i < z ==> s[i] == 0,
        z < s.len() ==> s[z] != 0,
    ensures
        leading_zeros(s) == z,
    decreases s.len(),
{
    if s.len() == 0 {
    } else if z == 0 {
    } else {
        assert(s.first() == 0);
        let t = s.drop_first();
        assert(forall|i: int| 0 <= i < z - 1 ==> t[i] == 0);
        lemma_leading_zeros_exact(t, z - 1);
    }
}

/// What the leading-zero count says about the digits themselves.
pub proof fn lemma_leading_zeros_props(s: Seq<u8>)
    ensures
        leading_zeros(s) <= s.len(),
        forall|i: int| 0 <= i < leading_zeros(s) ==> s[i] == 0,
        leading_zeros(s) < s.len() ==> s[leading_zeros(s) as int] != 0,
    decreases s.len(),
{
    if s.len() == 0 || s.first() != 0 {
    } else {
        let t = s.drop_first();
        lemma_leading_zeros_props(t);
        assert forall|i: int| 0 <= i < leading_zeros(s) implies s[i] == 0 by {
            if i > 0 {
                assert(t[i - 1] == 0);
            }
        }
    }
}

/// A big-endian value is never negative.
pub proof fn lemma_be_val_nonneg(s: Seq<u8>, b: int)
    requires
        b >= 0,
    ensures
        be_val(s, b) >= 0,
    decreases s.len(),
{
    if s.len() > 0 {
        lemma_be_val_nonneg(s.drop_last(), b);
        lemma_mul_nonnegative(be_val(s.drop_last(), b), b);
    }
}

/// A string of zero digits has value zero.
pub proof fn lemma_be_val_all_zero(s: Seq<u8>, b: int)
    requires
        forall|i: int| 0 <= i < s.len() ==> s[i] == 0,
    ensures
        be_val(s, b) == 0,
    decreases s.len(),
{
    if s.len() > 0 {
        lemma_be_val_all_zero(s.drop_last(), b);
    }
}

/// Conversely, a digit string of value zero holds only zero digits.
pub proof fn lemma_be_val_zero_digits(s: Seq<u8>, b: int)
    requires
        b >= 1,
        be_val(s, b) == 0,
    ensures
        forall|i: int| 0 <= i < s.len() ==> s[i] == 0,
    decreases s.len(),
{
    if s.len() > 0 {
        let t = s.drop_last();
        lemma_be_val_nonneg(t, b);
        lemma_mul_nonnegative(be_val(t, b), b);
        assert(be_val(t, b) * b >= 0);
        assert(s.last() == 0);
        if be_val(t, b) > 0 {
            lemma_mul_inequality(1, be_val(t, b), b);
            assert(be_val(t, b) * b >= 1 * b);
            assert(false);
        }
        lemma_be_val_zero_digits(t, b);
        assert forall|i: int| 0 <= i < s.len() implies s[i] == 0 by {
            if i < s.len() - 1 {
                assert(s[i] == t[i]);
            }
        }
    }
}

/// A digit string headed by a nonzero digit is worth at least that digit times
/// the weight of its position.
pub proof fn lemma_be_val_first_lower(s: Seq<u8>, b: int)
    requires
        b >= 1,
        s.len() > 0,
    ensures
        be_val(s, b) >= s[0] * pow(b, (s.len() - 1) as nat),
    decreases s.len(),
{
    if s.len() == 1 {
        lemma_pow0(b);
        assert(s.drop_last() =~= Seq::<u8>::empty());
        assert(be_val(Seq::<u8>::empty(), b) == 0);
        assert(be_val(s, b) == 0 * b + s.last());
        assert(s.last() == s[0]);
    } else {
        let t = s.drop_last();
        let p2 = pow(b, (s.len() - 2) as nat);
        let p1 = pow(b, (s.len() - 1) as nat);
        lemma_be_val_first_lower(t, b);
        assert(t[0] == s[0]);
        lemma_pow1(b);
        lemma_pow_adds(b, (s.len() - 2) as nat, 1);
        assert(p2 * b == p1);
        lemma_mul_inequality(s[0] * p2, be_val(t, b), b);
        assert(s[0] * p2 * b <= be_val(t, b) * b);
        assert(s[0] * p2 * b == s[0] * (p2 * b)) by (nonlinear_arith);
        assert(s[0] * p1 <= be_val(t, b) * b);
        assert(be_val(s, b) == be_val(t, b) * b + s.last());
        assert(be_val(s, b) >= be_val(t, b) * b);
    }
}

/// Leading zero digits do not change the value of a digit string.
pub proof fn lemma_be_val_skip_zeros(s: Seq<u8>, b: int, z: int)
    requires
        0 <= z <= s.len(),
        forall|i: int| 0 <= i < z ==> s[i] == 0,
    ensures
        be_val(s.subrange(z, s.len() as int), b) == be_val(s, b),
    decreases s.len(),
{
    if z == s.len() {
        lemma_be_val_all_zero(s, b);
        assert(s.subrange(z, s.len() as int) =~= Seq::empty());
    } else {
        let t = s.drop_last();
        lemma_be_val_skip_zeros(t, b, z);
        assert(s.subrange(z, s.len() as int).drop_last() =~= t.subrange(z, t.len() as int));
        assert(s.subrange(z, s.len() as int).last() == s.last());
    }
}

/// The canonical digit string of `n` is worth `n`, all its digits are below
/// the base, and it is empty or headed by a nonzero digit.
pub proof fn lemma_digits_of_val(n: int, b: int)
    requires
        n >= 0,
        2 <= b <= 256,
    ensures
        be_val(digits_of(n, b), b) == n,
        forall|i: int| 0 <= i < digits_of(n, b).len() ==> digits_of(n, b)[i] < b,
        n == 0 ==> digits_of(n, b).len() == 0,
        n > 0 ==> digits_of(n, b).len() > 0 && digits_of(n, b)[0] != 0,
    decreases n,
{
    if n > 0 {
        lemma_div_pos_is_pos(n, b);
        lemma_div_is_strictly_smaller(n, b);
        lemma_digits_of_val(n / b, b);
        lemma_fundamental_div_mod(n, b);
        let d = digits_of(n, b);
        let q = digits_of(n / b, b);
        assert(d =~= q.push((n % b) as u8));
        assert(d.drop_last() =~= q);
        assert(be_val(d, b) == be_val(q, b) * b + n % b);
        if n / b == 0 {
            assert(d =~= seq![(n % b) as u8]);
            assert(d[0] == n % b);
            assert(n % b == n);
        } else {
            assert(d[0] == q[0]);
        }
        assert forall|i: int| 0 <= i < d.len() implies d[i] < b by {
            if i < q.len() {
                assert(d[i] == q[i]);
            }
        }
    }
}

/// A digit string with digits below the base and no leading zero is the
/// canonical string of its own value.
pub proof fn lemma_digits_of_unique(s: Seq<u8>, b: int)
    requires
        2 <= b <= 256,
        forall|i: int| 0 <= i < s.len() ==> s[i] < b,
        s.len() > 0 ==> s[0] != 0,
    ensures
        digits_of(be_val(s, b), b) == s,
    decreases s.len(),
{
    if s.len() == 0 {
    } else {
        let t = s.drop_last();
        let m = be_val(t, b);
        let n = be_val(s, b);
        lemma_be_val_nonneg(t, b);
        lemma_be_val_first_lower(s, b);
        lemma_pow_positive(b, (s.len() - 1) as nat);
        lemma_mul_inequality(1, s[0] as int, pow(b, (s.len() - 1) as nat));
        assert(s[0] * pow(b, (s.len() - 1) as nat) >= 1 * pow(b, (s.len() - 1) as nat));
        assert(n > 0);
        lemma_fundamental_div_mod_converse(n, b, m, s.last() as int);
        assert(n / b == m && n % b == s.last());
        if s.len() == 1 {
            assert(m == 0);
            assert(digits_of(n, b) =~= Seq::<u8>::empty().push((n % b) as u8));
            assert(digits_of(n, b) =~= s);
        } else {
            assert(t[0] == s[0]);
            assert(forall|i: int| 0 <= i < t.len() ==> t[i] < b);
            lemma_digits_of_unique(t, b);
            assert(digits_of(n, b) =~= digits_of(m, b).push((n % b) as u8));
            assert(digits_of(n, b) =~= s);
        }
    }
}

/// Appending a digit on the most-significant end of a little-endian string
/// adds its weighted value.
pub proof fn lemma_le_val_push(s: Seq<u8>, b: int, x: u8)
    ensures
        le_val(s.push(x), b) == le_val(s, b) + x * pow(b, s.len()),
{
    assert(s.push(x).drop_last() =~= s);
    assert(s.push(x).last() == x);
}

/// A little-endian string splits into its lowest digit plus `b` times the
/// rest.
pub proof fn lemma_le_val_first(s: Seq<u8>, b: int)
    requires
        s.len() > 0,
    ensures
        le_val(s, b) == s[0] + b * le_val(s.drop_first(), b),
    decreases s.len(),
{
    if s.len() == 1 {
        lemma_pow0(b);
        assert(s.drop_first() =~= Seq::<u8>::empty());
        assert(s.drop_last() =~= Seq::<u8>::empty());
        assert(le_val(Seq::<u8>::empty(), b) == 0);
        assert(le_val(s, b) == 0 + s.last() * 1);
        assert(s.last() == s[0]);
    } else {
        let t = s.drop_last();
        let u = s.drop_first();
        let p2 = pow(b, (s.len() - 2) as nat);
        let p1 = pow(b, (s.len() - 1) as nat);
        lemma_le_val_first(t, b);
        assert(t[0] == s[0]);
        assert(u.drop_last() =~= t.drop_first());
        assert(u.last() == s.last());
        assert(u.len() == s.len() - 1);
        lemma_pow1(b);
        lemma_pow_adds(b, (s.len() - 2) as nat, 1);
        assert(p2 * b == p1);
        let m = le_val(t.drop_first(), b);
        let x = s.last() as int;
        assert(le_val(u, b) == m + x * p2);
        assert(le_val(t, b) == t[0] + b * m);
        assert(le_val(s, b) == le_val(t, b) + x * p1);
        assert(b * (m + x * p2) == b * m + x * (p2 * b)) by (nonlinear_arith);
        assert(le_val(s, b) == s[0] + b * le_val(u, b));
    }
}

/// A little-endian string whose highest digit is nonzero, read back
/// most-significant first, is the canonical digit string of its value.
pub proof fn lemma_le_val_digits(s: Seq<u8>, b: int)
    requires
        2 <= b <= 256,
        forall|i: int| 0 <= i < s.len() ==> s[i] < b,
        s.len() > 0 ==> s.last() != 0,
    ensures
        le_val(s, b) >= 0,
        digits_of(le_val(s, b), b) == s.reverse(),
    decreases s.len(),
{
    if s.len() == 0 {
        assert(s.reverse() =~= Seq::<u8>::empty());
    } else {
        let t = s.drop_first();
        let m = le_val(t, b);
        let n = le_val(s, b);
        lemma_le_val_first(s, b);
        if t.len() > 0 {
            assert(t.last() == s.last());
        }
        assert(forall|i: int| 0 <= i < t.len() ==> t[i] < b);
        lemma_le_val_digits(t, b);
        lemma_mul_nonnegative(b, m);
        assert(n == s[0] + b * m);
        assert(n >= 0);
        lemma_fundamental_div_mod_converse(n, b, m, s[0] as int);
        assert(n / b == m && n % b == s[0]);
        if s.len() == 1 {
            assert(m == 0);
            assert(n == s[0]);
            assert(n != 0);
            assert(digits_of(n, b) =~= Seq::<u8>::empty().push((n % b) as u8));
            assert(s.reverse() =~= seq![s[0]]);
            assert(digits_of(n, b) =~= s.reverse());
        } else {
            assert(t.len() > 0 && t.last() != 0);
            if m == 0 {
                lemma_be_val_nonneg(t.reverse(), b);
                assert(digits_of(0, b).len() == 0);
                assert(t.reverse().len() > 0);
                assert(false);
            }
            lemma_mul_inequality(1, m, b);
            assert(m * b >= 1 * b);
            assert(b * m == m * b) by (nonlinear_arith);
            assert(n > 0);
            assert(digits_of(n, b) =~= digits_of(m, b).push((n % b) as u8));
            assert(digits_of(m, b) =~= t.reverse());
            assert forall|i: int| 0 <= i < s.len() implies s.reverse()[i] == t.reverse().push(
                s[0],
            )[i] by {
                if i < s.len() - 1 {
                    assert(t.reverse()[i] == t[t.len() - 1 - i]);
                    assert(s.reverse()[i] == s[s.len() - 1 - i]);
                    assert(t[t.len() - 1 - i] == s[s.len() - 1 - i]);
                }
            }
            assert(s.reverse() =~= t.reverse().push(s[0]));
        }
    }
}

/// One step of long division: divide the big-endian base-`base` number held
/// in `number[first_digit..]` by `divisor`, in place, and return the
/// remainder.
pub(crate) fn divmod(number: &mut Vec<u8>, first_digit: usize, base: u32, divisor: u32) -> (
    remainder: u8)
    requires
        first_digit <= old(number)@.len(),
        2 <= base <= 256,
        2 <= divisor <= 256,
        forall|i: int| first_digit <= i < old(number)@.len() ==> old(number)@[i] < base,
    ensures
        final(number)@.len() == old(number)@.len(),
        forall|i: int| 0 <= i < first_digit ==> final(number)@[i] == old(number)@[i],
        forall|i: int| first_digit <= i < final(number)@.len() ==> final(number)@[i] < base,
        remainder < divisor,
        be_val(final(number)@.subrange(first_digit as int, final(number)@.len() as int), base as int)
            * divisor + remainder == be_val(
            old(number)@.subrange(first_digit as int, old(number)@.len() as int),
            base as int,
        ),
{
    let ghost orig = number@;
    let ghost n = number@.len() as int;
    let ghost f = first_digit as int;
    let mut remainder: u32 = 0;
    let mut i: usize = first_digit;
    while i < number.len()
        invariant
            f == first_digit as int,
            first_digit <= i <= n,
            number@.len() == n,
            orig.len() == n,
            2 <= base <= 256,
            2 <= divisor <= 256,
            remainder < divisor,
            forall|j: int| 0 <= j < f ==> number@[j] == orig[j],
            forall|j: int| i <= j < n ==> number@[j] == orig[j],
            forall|j: int| f <= j < n ==> orig[j] < base,
            forall|j: int| f <= j < i ==> number@[j] < base,
            be_val(number@.subrange(f, i as int), base as int) * divisor + remainder == be_val(
                orig.subrange(f, i as int),
                base as int,
            ),
        decreases n - i,
    {
        let ghost pre = number@;
        let ghost rem0 = remainder as int;
        let digit: u32 = number[i] as u32;
        proof {
            assert(orig[i as int] < base);
            assert(digit < base);
            assert(remainder * base + digit < 0x10000) by (nonlinear_arith)
                requires
                    remainder < divisor,
                    divisor <= 256,
                    base <= 256,
                    digit < 256,
            ;
        }
        let temp: u32 = remainder * base + digit;
        let q: u32 = temp / divisor;
        proof {
            assert(rem0 * base + digit < divisor * base) by (nonlinear_arith)
                requires
                    rem0 < divisor,
                    digit < base,
                    rem0 >= 0,
                    digit >= 0,
                    base >= 2,
                    divisor >= 2,
            ;
            lemma_fundamental_div_mod(temp as int, divisor as int);
            assert(q < base) by (nonlinear_arith)
                requires
                    q == temp as int / divisor as int,
                    temp as int == divisor as int * (temp as int / divisor as int) + temp as int
                        % divisor as int,
                    temp as int % divisor as int >= 0,
                    temp < divisor * base,
                    divisor >= 2,
                    base >= 2,
                    q >= 0,
            ;
        }
        number[i] = q as u8;
        remainder = temp % divisor;
        proof {
            let bi = base as int;
            let di = divisor as int;
            let newpre = number@.subrange(f, i + 1);
            let oldpre = orig.subrange(f, i + 1);
            assert(newpre.drop_last() =~= pre.subrange(f, i as int));
            assert(oldpre.drop_last() =~= orig.subrange(f, i as int));
            assert(newpre.last() == q as u8);
            assert(oldpre.last() == orig[i as int]);
            assert(orig[i as int] == digit);
            assert(be_val(newpre, bi) == be_val(pre.subrange(f, i as int), bi) * bi + q);
            assert(be_val(oldpre, bi) == be_val(orig.subrange(f, i as int), bi) * bi + digit);
            let vn = be_val(pre.subrange(f, i as int), bi);
            let vo = be_val(orig.subrange(f, i as int), bi);
            assert(temp == rem0 * bi + digit);
            assert(temp == di * q + remainder);
            assert(di * q == q * di) by (nonlinear_arith);
            assert(temp == q * di + remainder);
            assert(vn * di + rem0 == vo);
            assert((vn * bi + q) * di + remainder == vo * bi + digit) by (nonlinear_arith)
                requires
                    vn * di + rem0 == vo,
                    rem0 * bi + digit == q * di + remainder,
            ;
        }
        i = i + 1;
    }
    proof {
        assert(number@.subrange(f, n) == number@.subrange(f, i as int));
        assert(orig.subrange(f, n) == orig.subrange(f, i as int));
    }
    remainder as u8
}

} // verus!
