use vstd::prelude::*;

verus! {

use vstd::slice::slice_to_vec;
use crate::radix::be_val;
use crate::radix::le_val;
use crate::radix::digits_of;
use crate::radix::leading_zeros;
use crate::radix::divmod;
use crate::radix::lemma_leading_zeros_exact;
use crate::radix::lemma_leading_zeros_props;
use crate::radix::lemma_be_val_nonneg;
use crate::radix::lemma_be_val_zero_digits;
use crate::radix::lemma_be_val_first_lower;
use crate::radix::lemma_be_val_skip_zeros;
use crate::radix::lemma_digits_of_val;
use crate::radix::lemma_digits_of_unique;
use crate::radix::lemma_le_val_push;
use crate::radix::lemma_le_val_digits;
use vstd::arithmetic::power::pow;
use vstd::arithmetic::power::lemma_pow1;
use vstd::arithmetic::power::lemma_pow_adds;
use vstd::arithmetic::power::lemma_pow_positive;
use vstd::arithmetic::mul::lemma_mul_inequality;

// The Base58 alphabet is "123456789ABCDEFGHJKLMNPQRSTUVWXYZabcdefghijkmnopqrstuvwxyz":
// the digits, upper-case and lower-case letters without the visually
// ambiguous 0, O, I and l. It splits into six runs that are contiguous both
// in digit value and in character code, which the functions below exploit.

/// Character code of the alphabet symbol for digit value `d`.
pub open spec fn b58_code(d: int) -> int {
    if 0 <= d <= 8 {
        d + 49  // '1' to '9'
    } else if 9 <= d <= 16 {
        d + 56  // 'A' to 'H'
    } else if 17 <= d <= 21 {
        d + 57  // 'J' to 'N'
    } else if 22 <= d <= 32 {
        d + 58  // 'P' to 'Z'
    } else if 33 <= d <= 43 {
        d + 64  // 'a' to 'k'
    } else if 44 <= d <= 57 {
        d + 65  // 'm' to 'z'
    } else {
        32
    }
}

/// The alphabet symbol for digit value `d`.
pub open spec fn b58_char(d: int) -> char {
    (b58_code(d) as u8) as char
}

/// Digit value of character `c`, or -1 if `c` is not in the alphabet.
pub open spec fn b58_digit(c: char) -> int {
    let x = c as int;
    if 49 <= x <= 57 {
        x - 49
    } else if 65 <= x <= 72 {
        x - 56
    } else if 74 <= x <= 78 {
        x - 57
    } else if 80 <= x <= 90 {
        x - 58
    } else if 97 <= x <= 107 {
        x - 64
    } else if 109 <= x <= 122 {
        x - 65
    } else {
        -1
    }
}

/// Every character of `s` belongs to the Base58 alphabet.
pub open spec fn b58_valid(s: Seq<char>) -> bool {
    forall|i: int| 0 <= i < s.len() ==> b58_digit(s[i]) >= 0
}

/// The digit values of the characters of `s`.
pub open spec fn b58_digit_vals(s: Seq<char>) -> Seq<u8> {
    s.map_values(|c: char| #[verifier::truncate] (b58_digit(c) as u8))
}

/// What `base58_encode` returns: one zero symbol per leading zero byte,
/// then the canonical base-58 digits of the input read as a big-endian
/// integer.
pub open spec fn b58_encode_spec(s: Seq<u8>) -> Seq<char> {
    Seq::new(leading_zeros(s), |i: int| '1') + digits_of(be_val(s, 256), 58).map_values(
        |d: u8| b58_char(d as int),
    )
}

/// What `base58_decode` returns on valid input: one zero byte per leading
/// zero symbol, then the canonical base-256 digits of the string read as a
/// big-endian base-58 integer.
pub open spec fn b58_decode_spec(s: Seq<char>) -> Seq<u8> {
    Seq::new(leading_zeros(b58_digit_vals(s)), |i: int| 0u8) + digits_of(
        be_val(b58_digit_vals(s), 58),
        256,
    )
}

/// The alphabet mapping and its inverse cancel, and only digit zero is
/// written with the zero symbol '1'.
pub proof fn lemma_b58_char_digit(d: int)
    requires
        0 <= d < 58,
    ensures
        b58_digit(b58_char(d)) == d,
        b58_char(d) == '1' <==> d == 0,
{
}

/// The inverse direction: mapping an alphabet character to its digit value
/// and back gives the character again.
pub proof fn lemma_b58_digit_char(c: char)
    requires
        b58_digit(c) >= 0,
    ensures
        b58_digit(c) < 58,
        b58_char(b58_digit(c)) == c,
{
}

/// Relies on `String::push`: appends exactly the given character.
#[verifier::external_body]
fn string_push(s: &mut String, c: char)
    ensures
        final(s)@ == old(s)@.push(c),
{
    s.push(c);
}

/// The alphabet symbol for digit value `d`, as executable code.
fn b58_char_exec(d: u8) -> (c: char)
    requires
        d < 58,
    ensures
        c == b58_char(d as int),
{
    let code: u8 = if d <= 8 {
        d + 49
    } else if d <= 16 {
        d + 56
    } else if d <= 21 {
        d + 57
    } else if d <= 32 {
        d + 58
    } else if d <= 43 {
        d + 64
    } else {
        d + 65
    };
    code as char
}

/// Digit value of character `c`, as executable code.
fn b58_digit_exec(c: char) -> (r: Option<u8>)
    ensures
        match r {
            Some(d) => b58_digit(c) == d as int && d < 58,
            None => b58_digit(c) < 0,
        },
{
    let x = c as u32;
    if 49 <= x && x <= 57 {
        Some((x - 49) as u8)
    } else if 65 <= x && x <= 72 {
        Some((x - 56) as u8)
    } else if 74 <= x && x <= 78 {
        Some((x - 57) as u8)
    } else if 80 <= x && x <= 90 {
        Some((x - 58) as u8)
    } else if 97 <= x && x <= 107 {
        Some((x - 64) as u8)
    } else if 109 <= x && x <= 122 {
        Some((x - 65) as u8)
    } else {
        None
    }
}

/// Rewrite the big-endian number held in `work[start..]` from base `from`
/// to base `to` by repeated long division, destroying `work`, and return
/// its canonical digit string in the new base.
fn convert_radix(work: &mut Vec<u8>, start: usize, from: u32, to: u32) -> (out: Vec<u8>)
    requires
        start <= old(work)@.len(),
        2 <= from <= 256,
        2 <= to <= 256,
        forall|i: int| start <= i < old(work)@.len() ==> old(work)@[i] < from,
    ensures
        out@ == digits_of(
            be_val(old(work)@.subrange(start as int, old(work)@.len() as int), from as int),
            to as int,
        ),
        forall|i: int| 0 <= i < out@.len() ==> out@[i] < to,
{
    let ghost orig = old(work)@;
    let ghost fi = from as int;
    let ghost ti = to as int;
    let n = work.len();
    let ghost val0 = be_val(orig.subrange(start as int, n as int), fi);
    proof {
        lemma_be_val_nonneg(orig.subrange(start as int, n as int), fi);
        vstd::arithmetic::power::lemma_pow0(ti);
        assert(le_val(Seq::<u8>::empty(), ti) == 0);
    }
    let mut lsd: Vec<u8> = Vec::new();
    let mut s: usize = start;
    while s < n
        invariant
            n == work@.len(),
            orig.len() == n,
            start <= s <= n,
            2 <= from <= 256,
            2 <= to <= 256,
            fi == from as int,
            ti == to as int,
            forall|i: int| s <= i < n ==> work@[i] < from,
            forall|i: int| 0 <= i < lsd@.len() ==> lsd@[i] < to,
            val0 >= 0,
            be_val(work@.subrange(s as int, n as int), fi) >= 0,
            be_val(work@.subrange(s as int, n as int), fi) * pow(ti, lsd@.len()) + le_val(
                lsd@,
                ti,
            ) == val0,
        decreases be_val(work@.subrange(s as int, n as int), fi), n - s,
    {
        let ghost k = lsd@.len();
        let ghost vpre = be_val(work@.subrange(s as int, n as int), fi);
        let rem = divmod(work, s, from, to);
        let ghost vpost = be_val(work@.subrange(s as int, n as int), fi);
        proof {
            lemma_be_val_nonneg(work@.subrange(s as int, n as int), fi);
            lemma_le_val_push(lsd@, ti, rem);
            lemma_pow1(ti);
            lemma_pow_adds(ti, k, 1);
            lemma_pow_positive(ti, k);
            assert(vpost * (pow(ti, k) * ti) + (le_val(lsd@, ti) + rem * pow(ti, k)) == (vpost * ti
                + rem) * pow(ti, k) + le_val(lsd@, ti)) by (nonlinear_arith);
            assert((vpost * ti + rem) * pow(ti, k) == vpre * pow(ti, k));
        }
        lsd.push(rem);
        let top = work[s];
        proof {
            assert(vpost <= vpre) by (nonlinear_arith)
                requires
                    vpost * ti + rem == vpre,
                    vpost >= 0,
                    rem >= 0,
                    ti >= 2,
            ;
            if vpost == vpre {
                assert(vpost * ti + rem == vpost);
                assert(vpost * ti >= vpost * 2) by (nonlinear_arith)
                    requires
                        vpost >= 0,
                        ti >= 2,
                ;
                assert(vpost == 0);
            }
            if top == 0 {
                let sub = work@.subrange(s as int, n as int);
                assert(sub[0] == work@[s as int]);
                lemma_be_val_skip_zeros(sub, fi, 1);
                assert(sub.subrange(1, sub.len() as int) =~= work@.subrange(s + 1, n as int));
            } else {
                let sub = work@.subrange(s as int, n as int);
                lemma_be_val_first_lower(sub, fi);
                lemma_pow_positive(fi, (sub.len() - 1) as nat);
                lemma_mul_inequality(1, sub[0] as int, pow(fi, (sub.len() - 1) as nat));
                assert(vpost > 0);
                assert(vpost * ti + rem > vpost) by (nonlinear_arith)
                    requires
                        vpost > 0,
                        ti >= 2,
                        rem >= 0,
                ;
            }
        }
        if top == 0 {
            s = s + 1;
        }
    }
    proof {
        assert(work@.subrange(s as int, n as int) =~= Seq::<u8>::empty());
        assert(be_val(Seq::<u8>::empty(), fi) == 0);
        assert(le_val(lsd@, ti) == val0);
    }
    while lsd.len() > 0 && lsd[lsd.len() - 1] == 0
        invariant
            ti == to as int,
            2 <= to <= 256,
            forall|i: int| 0 <= i < lsd@.len() ==> lsd@[i] < to,
            le_val(lsd@, ti) == val0,
        decreases lsd@.len(),
    {
        let ghost pre = lsd@;
        let _ = lsd.pop();
        proof {
            assert(pre.last() == 0);
            assert(lsd@ =~= pre.drop_last());
            assert(le_val(pre, ti) == le_val(pre.drop_last(), ti) + pre.last() * pow(
                ti,
                (pre.len() - 1) as nat,
            ));
            assert(pre.last() * pow(ti, (pre.len() - 1) as nat) == 0);
            assert(le_val(lsd@, ti) == val0);
        }
    }
    proof {
        lemma_le_val_digits(lsd@, ti);
    }
    let mut out: Vec<u8> = Vec::new();
    let dn = lsd.len();
    let mut j: usize = dn;
    while j > 0
        invariant
            j <= dn,
            dn == lsd@.len(),
            out@.len() == dn - j,
            forall|i: int| 0 <= i < lsd@.len() ==> lsd@[i] < to,
            forall|k: int| 0 <= k < dn - j ==> out@[k] == lsd@[dn - 1 - k],
        decreases j,
    {
        j = j - 1;
        out.push(lsd[j]);
    }
    proof {
        assert(out@ =~= lsd@.reverse());
    }
    out
}

/// Base58-encode a byte buffer: count its leading zero bytes, rewrite the
/// rest from base 256 to base 58 by repeated long division, and spell the
/// result in the alphabet with one leading zero symbol per zero byte.
pub fn base58_encode(input: &[u8]) -> (r: String)
    ensures
        r@ == b58_encode_spec(input@),
{
    let ghost sv = input@;
    let n = input.len();
    let mut zeros: usize = 0;
    while zeros < n && input[zeros] == 0
        invariant
            n == sv.len(),
            input@ == sv,
            zeros <= n,
            forall|i: int| 0 <= i < zeros ==> sv[i] == 0,
        decreases n - zeros,
    {
        zeros = zeros + 1;
    }
    proof {
        lemma_leading_zeros_exact(sv, zeros as int);
        lemma_be_val_skip_zeros(sv, 256, zeros as int);
    }
    let mut work = slice_to_vec(input);
    let digits = convert_radix(&mut work, zeros, 256, 58);
    let ghost dseq = digits_of(be_val(sv, 256), 58);
    let mut out = String::new();
    let mut i: usize = 0;
    while i < zeros
        invariant
            i <= zeros,
            out@.len() == i,
            forall|k: int| 0 <= k < i ==> out@[k] == '1',
        decreases zeros - i,
    {
        string_push(&mut out, '1');
        i = i + 1;
    }
    let dn = digits.len();
    let mut j: usize = 0;
    while j < dn
        invariant
            j <= dn,
            dn == digits@.len(),
            digits@ == dseq,
            forall|k: int| 0 <= k < digits@.len() ==> digits@[k] < 58,
            out@.len() == zeros + j,
            forall|k: int| 0 <= k < zeros ==> out@[k] == '1',
            forall|k: int| 0 <= k < j ==> out@[zeros + k] == b58_char(digits@[k] as int),
        decreases dn - j,
    {
        let c = b58_char_exec(digits[j]);
        string_push(&mut out, c);
        j = j + 1;
    }
    proof {
        assert(out@ =~= b58_encode_spec(sv));
    }
    out
}

/// Base58-decode a string: map each character back to its digit value,
/// failing on any character outside the alphabet, then rewrite from base 58
/// to base 256 with one leading zero byte per leading zero symbol.
pub fn base58_decode(input: &str) -> (r: Result<Vec<u8>, &'static str>)
    ensures
        match r {
            Ok(v) => b58_valid(input@) && v@ == b58_decode_spec(input@),
            Err(e) => !b58_valid(input@) && e@ == "Illegal character"@,
        },
{
    let n = input.unicode_len();
    let mut vals: Vec<u8> = Vec::new();
    let mut i: usize = 0;
    while i < n
        invariant
            i <= n,
            n == input@.len(),
            vals@.len() == i,
            forall|k: int| 0 <= k < i ==> b58_digit(input@[k]) >= 0,
            forall|k: int| 0 <= k < i ==> vals@[k] as int == b58_digit(input@[k]),
            forall|k: int| 0 <= k < i ==> vals@[k] < 58,
        decreases n - i,
    {
        let c = input.get_char(i);
        match b58_digit_exec(c) {
            Some(d) => {
                vals.push(d);
            },
            None => {
                proof {
                    assert(b58_digit(input@[i as int]) < 0);
                }
                return Err("Illegal character");
            },
        }
        i = i + 1;
    }
    let ghost dv = b58_digit_vals(input@);
    proof {
        assert(vals@ =~= dv);
    }
    let vn = vals.len();
    let mut zeros: usize = 0;
    while zeros < vn && vals[zeros] == 0
        invariant
            vn == vals@.len(),
            vals@ == dv,
            zeros <= vn,
            forall|k: int| 0 <= k < zeros ==> dv[k] == 0,
        decreases vn - zeros,
    {
        zeros = zeros + 1;
    }
    proof {
        lemma_leading_zeros_exact(dv, zeros as int);
        lemma_be_val_skip_zeros(dv, 58, zeros as int);
    }
    let mut work = vals;
    let mut bytes = convert_radix(&mut work, zeros, 58, 256);
    let mut out: Vec<u8> = Vec::new();
    let mut z: usize = 0;
    while z < zeros
        invariant
            z <= zeros,
            out@.len() == z,
            forall|k: int| 0 <= k < z ==> out@[k] == 0u8,
        decreases zeros - z,
    {
        out.push(0u8);
        z = z + 1;
    }
    out.append(&mut bytes);
    proof {
        assert(out@ =~= b58_decode_spec(input@));
    }
    Ok(out)
}

#[verifier::external_type_specification]
#[verifier::external_body]
pub struct ExBigUint(num_bigint::BigUint);

/// The unsigned big integer that `num_bigint::BigUint::from_bytes_be` builds
/// from a big-endian byte string.
pub uninterp spec fn biguint_of_be(s: Seq<u8>) -> num_bigint::BigUint;

/// Relies on `num_bigint::BigUint::from_bytes_be`: reads the bytes as one
/// big-endian unsigned integer; the result depends on the bytes alone.
#[verifier::external_body]
fn biguint_from_bytes_be(b: &Vec<u8>) -> (r: num_bigint::BigUint)
    ensures
        r == biguint_of_be(b@),
{
    num_bigint::BigUint::from_bytes_be(b)
}

/// Decode a Base58 string, then read the decoded bytes as one big-endian
/// unsigned integer.
pub fn decode_to_big_integer(input: &str) -> (r: Result<num_bigint::BigUint, &'static str>)
    ensures
        match r {
            Ok(v) => b58_valid(input@) && v == biguint_of_be(b58_decode_spec(input@)),
            Err(e) => !b58_valid(input@) && e@ == "Illegal character"@,
        },
{
    match base58_decode(input) {
        Ok(decoded) => Ok(biguint_from_bytes_be(&decoded)),
        Err(e) => Err(e),
    }
}

/// Round trip: decoding an encoded buffer is always legal and gives back
/// exactly the original bytes, leading zeros included.
pub proof fn lemma_base58_round_trip(b: Seq<u8>)
    ensures
        b58_valid(b58_encode_spec(b)),
        b58_decode_spec(b58_encode_spec(b)) == b,
{
    let z = leading_zeros(b) as int;
    let nval = be_val(b, 256);
    lemma_be_val_nonneg(b, 256);
    lemma_digits_of_val(nval, 58);
    lemma_leading_zeros_props(b);
    let d = digits_of(nval, 58);
    let enc = b58_encode_spec(b);
    assert(enc.len() == z + d.len());
    assert forall|i: int| 0 <= i < enc.len() implies b58_digit(enc[i]) >= 0 by {
        if i < z {
            assert(enc[i] == '1');
            assert(b58_digit('1') == 0);
        } else {
            assert(enc[i] == b58_char(d[i - z] as int));
            lemma_b58_char_digit(d[i - z] as int);
        }
    }
    let cv = b58_digit_vals(enc);
    assert forall|i: int| 0 <= i < cv.len() implies cv[i] == (Seq::new(z as nat, |k: int| 0u8)
        + d)[i] by {
        if i < z {
            assert(enc[i] == '1');
            assert(b58_digit('1') == 0);
        } else {
            lemma_b58_char_digit(d[i - z] as int);
            assert(b58_digit(enc[i]) == d[i - z]);
        }
    }
    assert(cv =~= Seq::new(z as nat, |k: int| 0u8) + d);
    if d.len() > 0 {
        assert(cv[z] == d[0]);
        assert(d[0] != 0);
    }
    lemma_leading_zeros_exact(cv, z);
    lemma_be_val_skip_zeros(cv, 58, z);
    assert(cv.subrange(z, cv.len() as int) =~= d);
    assert(be_val(cv, 58) == nval);
    let bp = b.subrange(z, b.len() as int);
    lemma_be_val_skip_zeros(b, 256, z);
    assert(be_val(bp, 256) == nval);
    lemma_digits_of_unique(bp, 256);
    assert(digits_of(nval, 256) == bp);
    let dec = b58_decode_spec(enc);
    assert(dec =~= Seq::new(z as nat, |k: int| 0u8) + bp);
    assert forall|i: int| 0 <= i < b.len() implies dec[i] == b[i] by {
        if i < z {
            assert(b[i] == 0);
        } else {
            assert(dec[i] == bp[i - z]);
        }
    }
    assert(dec =~= b);
}

/// The codec loses nothing in the other direction either: every string of
/// alphabet characters is the encoding of exactly what it decodes to.
pub proof fn lemma_base58_decode_encode(s: Seq<char>)
    requires
        b58_valid(s),
    ensures
        b58_encode_spec(b58_decode_spec(s)) == s,
{
    let v = b58_digit_vals(s);
    let z = leading_zeros(v) as int;
    let nval = be_val(v, 58);
    assert forall|i: int| 0 <= i < v.len() implies v[i] < 58 by {
        lemma_b58_digit_char(s[i]);
    }
    lemma_be_val_nonneg(v, 58);
    lemma_leading_zeros_props(v);
    lemma_be_val_skip_zeros(v, 58, z);
    lemma_digits_of_val(nval, 256);
    let dec = b58_decode_spec(s);
    let d256 = digits_of(nval, 256);
    assert(dec =~= Seq::new(z as nat, |k: int| 0u8) + d256);
    if nval == 0 {
        lemma_be_val_zero_digits(v, 58);
        if z < v.len() {
            assert(v[z] == 0);
            assert(false);
        }
        assert(dec =~= Seq::new(z as nat, |k: int| 0u8));
    }
    lemma_leading_zeros_exact(dec, z);
    lemma_be_val_skip_zeros(dec, 256, z);
    assert(dec.subrange(z, dec.len() as int) =~= d256);
    assert(be_val(dec, 256) == nval);
    let vtail = v.subrange(z, v.len() as int);
    lemma_digits_of_unique(vtail, 58);
    assert(digits_of(nval, 58) == vtail);
    let enc = b58_encode_spec(dec);
    assert(enc.len() == z + vtail.len());
    assert(enc.len() == s.len());
    assert forall|i: int| 0 <= i < s.len() implies enc[i] == s[i] by {
        if i < z {
            assert(enc[i] == '1');
            assert(v[i] == 0);
            assert(b58_digit(s[i]) == 0);
            lemma_b58_digit_char(s[i]);
        } else {
            assert(enc[i] == b58_char(vtail[i - z] as int));
            assert(vtail[i - z] == v[i]);
            assert(v[i] as int == b58_digit(s[i]));
            lemma_b58_digit_char(s[i]);
        }
    }
    assert(enc =~= s);
}

/// Leading zero bytes map one-to-one to leading zero symbols: the encoding
/// starts with exactly one '1' per leading zero byte of the input.
pub proof fn lemma_encode_leading_zeros(b: Seq<u8>)
    ensures
        b58_encode_spec(b).len() >= leading_zeros(b),
        forall|i: int| 0 <= i < leading_zeros(b) ==> b58_encode_spec(b)[i] == '1',
        leading_zeros(b) < b58_encode_spec(b).len() ==> b58_encode_spec(b)[leading_zeros(
            b,
        ) as int] != '1',
{
    let z = leading_zeros(b) as int;
    let nval = be_val(b, 256);
    lemma_be_val_nonneg(b, 256);
    lemma_digits_of_val(nval, 58);
    let d = digits_of(nval, 58);
    if d.len() > 0 {
        assert(b58_encode_spec(b)[z] == b58_char(d[0] as int));
        lemma_b58_char_digit(d[0] as int);
    }
}

} // verus!
