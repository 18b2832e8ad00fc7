//! Converting a raw decimal fragment to an integer milli-value.
//!
//! A fragment is an optional sign (`+` or `-`) followed by decimal digits
//! with at most one decimal point and at least one digit (`12`, `1.5`,
//! `.25`, `7.`, `-0.0005`).  Its value times 1000, rounded to the nearest
//! integer with ties rounded away from zero, is the milli-value; only the
//! fourth fraction digit can affect the rounding, and the tie `...5` always
//! moves the magnitude up.  A fragment outside this grammar, or one whose
//! milli-value magnitude exceeds `i64::MAX`, yields nothing.

use vstd::arithmetic::div_mod::lemma_fundamental_div_mod_converse;
use vstd::prelude::*;

verus! {

/// `c` is a decimal digit.
pub open spec fn is_digit(c: char) -> bool {
    0x30 <= c as u32 && c as u32 <= 0x39
}

/// The numeric value of a digit character.
pub open spec fn digit_val(c: char) -> int {
    c as u32 - 0x30
}

/// Every character of `s` is a decimal digit.
pub open spec fn all_digits(s: Seq<char>) -> bool {
    forall|k: int| 0 <= k < s.len() ==> is_digit(s[k])
}

/// The value of a digit string read in base 10 (0 when empty).
pub open spec fn digits_val(s: Seq<char>) -> int
    decreases s.len(),
{
    if s.len() == 0 {
        0
    } else {
        digits_val(s.drop_last()) * 10 + digit_val(s.last())
    }
}

/// Ten to the `k`.
pub open spec fn spec_pow10(k: nat) -> int
    decreases k,
{
    if k == 0 {
        1
    } else {
        10 * spec_pow10((k - 1) as nat)
    }
}

/// Position of the first `'.'` in `s`, or `s.len()` when there is none.
pub open spec fn first_dot(s: Seq<char>) -> int
    decreases s.len(),
{
    if s.len() == 0 {
        0
    } else if s[0] == '.' {
        0
    } else {
        1 + first_dot(s.skip(1))
    }
}

/// Length of the sign prefix of `s`: one for a leading `+` or `-`, else zero.
pub open spec fn sign_len(s: Seq<char>) -> int {
    if s.len() > 0 && (s[0] == '-' || s[0] == '+') {
        1
    } else {
        0
    }
}

/// `s` denotes a negative value.
pub open spec fn is_neg(s: Seq<char>) -> bool {
    s.len() > 0 && s[0] == '-'
}

/// `s` with its sign prefix removed.
pub open spec fn unsigned_part(s: Seq<char>) -> Seq<char> {
    s.skip(sign_len(s))
}

/// The digits before the decimal point of an unsigned fragment.
pub open spec fn int_part(u: Seq<char>) -> Seq<char> {
    u.take(first_dot(u))
}

/// The digits after the decimal point of an unsigned fragment.
pub open spec fn frac_part(u: Seq<char>) -> Seq<char> {
    if first_dot(u) == u.len() {
        Seq::<char>::empty()
    } else {
        u.skip(first_dot(u) + 1)
    }
}

/// The unsigned fragment is well-formed: digits around at most one decimal
/// point, and at least one digit in all.
pub open spec fn grammar_ok(u: Seq<char>) -> bool {
    &&& all_digits(int_part(u))
    &&& all_digits(frac_part(u))
    &&& int_part(u).len() + frac_part(u).len() >= 1
}

/// The fraction digits' contribution to the milli-value: the first three
/// fraction digits, padded with zeros, plus one when the fourth digit
/// rounds the magnitude up (it does so exactly when it is five or more,
/// which is rounding ties away from zero).
pub open spec fn frac_milli(f: Seq<char>) -> int {
    if f.len() >= 3 {
        digits_val(f.take(3)) + if f.len() > 3 && digit_val(f[3]) >= 5 {
            1int
        } else {
            0int
        }
    } else {
        digits_val(f) * spec_pow10((3 - f.len()) as nat)
    }
}

/// The magnitude of the milli-value of a well-formed unsigned fragment.
pub open spec fn milli_mag(u: Seq<char>) -> int {
    digits_val(int_part(u)) * 1000 + frac_milli(frac_part(u))
}

/// The milli-value of a fragment: its decimal value times 1000, rounded to
/// the nearest integer with ties away from zero; `None` outside the grammar
/// or when the magnitude exceeds `i64::MAX`.
pub open spec fn spec_milli(s: Seq<char>) -> Option<int> {
    let u = unsigned_part(s);
    if grammar_ok(u) && milli_mag(u) <= i64::MAX {
        Some(
            if is_neg(s) {
                -milli_mag(u)
            } else {
                milli_mag(u)
            },
        )
    } else {
        None
    }
}

/// A digit string's value is not negative.
pub proof fn lemma_digits_val_nonneg(s: Seq<char>)
    requires
        all_digits(s),
    ensures
        digits_val(s) >= 0,
    decreases s.len(),
{
    if s.len() > 0 {
        lemma_digits_val_nonneg(s.drop_last());
    }
}

/// Extending a digit string does not shrink its value.
pub proof fn lemma_digits_val_prefix(s: Seq<char>, k: int)
    requires
        all_digits(s),
        0 <= k <= s.len(),
    ensures
        digits_val(s) >= digits_val(s.take(k)),
    decreases s.len() - k,
{
    if k < s.len() {
        lemma_digits_val_prefix(s, k + 1);
        assert(s.take(k + 1).drop_last() =~= s.take(k));
        assert(s.take(k + 1).last() == s[k]);
        lemma_digits_val_nonneg(s.take(k));
    } else {
        assert(s.take(k) =~= s);
    }
}

/// What `first_dot` returns: a position within bounds, pointing at a `'.'`
/// unless there is none, with no `'.'` before it.
pub proof fn lemma_first_dot_props(s: Seq<char>)
    ensures
        0 <= first_dot(s) <= s.len(),
        first_dot(s) < s.len() ==> s[first_dot(s)] == '.',
        forall|k: int| 0 <= k < first_dot(s) ==> s[k] != '.',
    decreases s.len(),
{
    if s.len() > 0 && s[0] != '.' {
        lemma_first_dot_props(s.skip(1));
        assert forall|k: int| 0 <= k < first_dot(s) implies s[k] != '.' by {
            if k > 0 {
                assert(s.skip(1)[k - 1] == s[k]);
            }
        }
    }
}

/// `first_dot` is pinned by its characterisation.
pub proof fn lemma_first_dot_pin(s: Seq<char>, i: int)
    requires
        0 <= i <= s.len(),
        forall|k: int| 0 <= k < i ==> s[k] != '.',
        i < s.len() ==> s[i] == '.',
    ensures
        first_dot(s) == i,
    decreases i,
{
    if s.len() == 0 {
    } else if i == 0 {
    } else {
        assert(forall|k: int| 0 <= k < i - 1 ==> s.skip(1)[k] != '.');
        lemma_first_dot_pin(s.skip(1), i - 1);
    }
}

/// A digit string's value is below ten to its length.
pub proof fn lemma_digits_val_bound(s: Seq<char>)
    requires
        all_digits(s),
    ensures
        digits_val(s) < spec_pow10(s.len()),
    decreases s.len(),
{
    if s.len() > 0 {
        lemma_digits_val_bound(s.drop_last());
    }
}

/// Ten to a power is at least one.
pub proof fn lemma_pow10_pos(k: nat)
    ensures
        spec_pow10(k) >= 1,
    decreases k,
{
    if k > 0 {
        lemma_pow10_pos((k - 1) as nat);
    }
}

/// Powers of ten multiply by adding exponents.
pub proof fn lemma_pow10_add(a: nat, b: nat)
    ensures
        spec_pow10(a + b) == spec_pow10(a) * spec_pow10(b),
    decreases a,
{
    if a == 0 {
    } else {
        lemma_pow10_add((a - 1) as nat, b);
        assert(spec_pow10((a - 1) as nat + b) == spec_pow10((a - 1) as nat) * spec_pow10(b));
        assert(spec_pow10(a + b) == 10 * (spec_pow10((a - 1) as nat) * spec_pow10(b)));
        assert(10 * (spec_pow10((a - 1) as nat) * spec_pow10(b)) == (10 * spec_pow10(
            (a - 1) as nat,
        )) * spec_pow10(b)) by (nonlinear_arith);
    }
}

/// Reading two digit strings as one: the left part is scaled by ten to the
/// right part's length.
pub proof fn lemma_digits_val_concat(a: Seq<char>, b: Seq<char>)
    ensures
        digits_val(a + b) == digits_val(a) * spec_pow10(b.len()) + digits_val(b),
    decreases b.len(),
{
    if b.len() == 0 {
        assert(a + b =~= a);
        assert(digits_val(b) == 0);
        assert(spec_pow10(b.len()) == 1);
        assert(digits_val(a + b) == digits_val(a) * spec_pow10(b.len()) + digits_val(b));
    } else {
        lemma_digits_val_concat(a, b.drop_last());
        assert((a + b).drop_last() =~= a + b.drop_last());
        assert((a + b).last() == b.last());
        let p = spec_pow10((b.len() - 1) as nat);
        let d = digit_val(b.last());
        assert(spec_pow10(b.len()) == 10 * p);
        assert(digits_val(a + b) == digits_val(a + b.drop_last()) * 10 + d);
        assert(digits_val(a + b.drop_last()) == digits_val(a) * p + digits_val(b.drop_last()));
        assert((digits_val(a) * p + digits_val(b.drop_last())) * 10 == digits_val(a) * (10 * p)
            + digits_val(b.drop_last()) * 10) by (nonlinear_arith);
        assert(digits_val(b) == digits_val(b.drop_last()) * 10 + d);
        assert(digits_val(a + b) == digits_val(a) * (10 * p) + digits_val(b));
    }
}

/// The fraction contribution is not negative.
proof fn lemma_frac_milli_nonneg(f: Seq<char>)
    requires
        all_digits(f),
    ensures
        frac_milli(f) >= 0,
{
    assert(spec_pow10(0) == 1);
    assert(spec_pow10(1) == 10);
    assert(spec_pow10(2) == 100);
    assert(spec_pow10(3) == 1000);
    if f.len() >= 3 {
        lemma_digits_val_nonneg(f.take(3));
    } else {
        lemma_digits_val_nonneg(f);
    }
}

/// All the digits of a well-formed unsigned fragment read as one integer:
/// the numerator of the fragment over ten to its fraction length.
pub open spec fn full_numerator(u: Seq<char>) -> int {
    digits_val(int_part(u)) * spec_pow10(frac_part(u).len()) + digits_val(frac_part(u))
}

/// The digit-wise magnitude really rounds: with `N` the fragment's
/// numerator and `D = 10^(fraction length)` its denominator, the milli
/// magnitude is `(2*N*1000 + D) / (2*D)` — the fragment's value times
/// 1000, rounded to the nearest integer with halves rounded up.  Applied
/// to the magnitude, with the sign put back afterwards, rounding halves up
/// is rounding ties away from zero.
pub proof fn lemma_milli_mag_rounds(u: Seq<char>)
    requires
        grammar_ok(u),
    ensures
        milli_mag(u) == (2 * full_numerator(u) * 1000 + spec_pow10(frac_part(u).len())) / (2
            * spec_pow10(frac_part(u).len())),
{
    let ip = int_part(u);
    let f = frac_part(u);
    let iv = digits_val(ip);
    let fv = digits_val(f);
    let n = f.len();
    let dd = spec_pow10(n);
    let nn = full_numerator(u);
    lemma_pow10_pos(n);
    lemma_digits_val_nonneg(ip);
    lemma_digits_val_nonneg(f);
    assert(spec_pow10(0) == 1);
    assert(spec_pow10(1) == 10);
    assert(spec_pow10(2) == 100);
    assert(spec_pow10(3) == 1000);
    if n <= 3 {
        let e = (3 - n) as nat;
        // the fraction contribution is exactly fv scaled
        if n == 3 {
            assert(f.take(3) =~= f);
            assert(frac_milli(f) == fv * spec_pow10(e));
        }
        let v = milli_mag(u);
        assert(v == iv * 1000 + fv * spec_pow10(e));
        lemma_pow10_add(n, e);
        assert(dd * spec_pow10(e) == 1000);
        // N * 1000 == D * v
        assert((iv * dd + fv) * 1000 == iv * 1000 * dd + fv * 1000) by (nonlinear_arith);
        assert(fv * 1000 == fv * (dd * spec_pow10(e)));
        assert(iv * 1000 * dd + fv * (dd * spec_pow10(e)) == (iv * 1000 + fv * spec_pow10(e))
            * dd) by (nonlinear_arith);
        assert(nn * 1000 == v * dd);
        assert(2 * nn * 1000 + dd == v * (2 * dd) + dd) by (nonlinear_arith)
            requires
                nn * 1000 == v * dd,
        ;
        lemma_fundamental_div_mod_converse(2 * nn * 1000 + dd, 2 * dd, v, dd);
    } else {
        let m = (n - 3) as nat;
        let p = spec_pow10(m);
        let p1 = spec_pow10((m - 1) as nat);
        let h = digits_val(f.take(3));
        let t = digits_val(f.skip(3));
        let t2 = digits_val(f.skip(4));
        let d4 = digit_val(f[3]);
        assert(p == 10 * p1);
        lemma_pow10_pos(m);
        lemma_pow10_pos((m - 1) as nat);
        lemma_pow10_add(3, m);
        assert(dd == 1000 * p);
        assert(dd == 10000 * p1);
        // split the fraction digits at three, and the tail at its head
        assert(f.take(3) + f.skip(3) =~= f);
        lemma_digits_val_concat(f.take(3), f.skip(3));
        assert(fv == h * p + t);
        assert(seq![f[3]] + f.skip(4) =~= f.skip(3));
        lemma_digits_val_concat(seq![f[3]], f.skip(4));
        assert(seq![f[3]].drop_last() =~= Seq::<char>::empty());
        assert(digits_val(seq![f[3]].drop_last()) == 0);
        assert(seq![f[3]].last() == f[3]);
        assert(digits_val(seq![f[3]]) == d4);
        assert(t == d4 * p1 + t2);
        assert(all_digits(f.take(3)));
        assert forall|k: int| 0 <= k < f.skip(3).len() implies is_digit(#[trigger] f.skip(3)[k]) by {
            assert(f.skip(3)[k] == f[k + 3]);
        }
        assert forall|k: int| 0 <= k < f.skip(4).len() implies is_digit(#[trigger] f.skip(4)[k]) by {
            assert(f.skip(4)[k] == f[k + 4]);
        }
        lemma_digits_val_bound(f.skip(3));
        lemma_digits_val_bound(f.skip(4));
        lemma_digits_val_nonneg(f.skip(3));
        lemma_digits_val_nonneg(f.skip(4));
        lemma_digits_val_nonneg(f.take(3));
        assert(t < p);
        assert(t2 < p1);
        assert(is_digit(f[3]));
        let r: int = if d4 >= 5 {
            1
        } else {
            0
        };
        assert(frac_milli(f) == h + r);
        let v = iv * 1000 + h + r;
        assert(milli_mag(u) == v);
        // N * 1000 == D * (iv * 1000 + h) + 1000 * t
        assert((iv * dd + (h * p + t)) * 1000 == iv * 1000 * dd + h * (1000 * p) + 1000 * t)
            by (nonlinear_arith);
        assert(h * (1000 * p) == h * dd);
        assert(nn * 1000 == iv * 1000 * dd + h * dd + 1000 * t);
        if d4 >= 5 {
            let rem = 2000 * t - dd;
            assert(t >= 5 * p1) by (nonlinear_arith)
                requires
                    t == d4 * p1 + t2,
                    d4 >= 5,
                    t2 >= 0,
                    p1 >= 1,
            ;
            assert(0 <= rem < 2 * dd);
            assert(2 * nn * 1000 + dd == v * (2 * dd) + rem) by (nonlinear_arith)
                requires
                    nn * 1000 == iv * 1000 * dd + h * dd + 1000 * t,
                    v == iv * 1000 + h + 1,
                    rem == 2000 * t - dd,
            ;
            lemma_fundamental_div_mod_converse(2 * nn * 1000 + dd, 2 * dd, v, rem);
        } else {
            let rem = 2000 * t + dd;
            assert(t <= 5 * p1 - 1) by (nonlinear_arith)
                requires
                    t == d4 * p1 + t2,
                    d4 <= 4,
                    t2 <= p1 - 1,
                    p1 >= 1,
            ;
            assert(0 <= rem < 2 * dd);
            assert(2 * nn * 1000 + dd == v * (2 * dd) + rem) by (nonlinear_arith)
                requires
                    nn * 1000 == iv * 1000 * dd + h * dd + 1000 * t,
                    v == iv * 1000 + h,
                    rem == 2000 * t + dd,
            ;
            lemma_fundamental_div_mod_converse(2 * nn * 1000 + dd, 2 * dd, v, rem);
        }
    }
}

/// The fragment's value times 1000, rounded to the nearest integer with
/// ties away from zero, written over its numerator and denominator: the
/// rounded magnitude, negated for a negative fragment.
pub open spec fn rounded_milli(s: Seq<char>) -> int {
    let u = unsigned_part(s);
    let d = spec_pow10(frac_part(u).len());
    let mag = (2 * full_numerator(u) * 1000 + d) / (2 * d);
    if is_neg(s) {
        -mag
    } else {
        mag
    }
}

/// A successful conversion yields exactly the fragment's value times 1000,
/// rounded to the nearest integer with ties away from zero.
pub proof fn lemma_milli_rounds(s: Seq<char>)
    requires
        spec_milli(s) is Some,
    ensures
        spec_milli(s) == Some(rounded_milli(s)),
{
    lemma_milli_mag_rounds(unsigned_part(s));
}

/// When the digits before the decimal point already exceed the largest
/// integer part a milli-value can carry, the magnitude exceeds `i64::MAX`.
proof fn lemma_mag_exceeds(u: Seq<char>, t: int)
    requires
        0 <= t <= u.len(),
        forall|k: int| 0 <= k < t ==> is_digit(u[k]),
        grammar_ok(u),
        digits_val(u.take(t)) > 9223372036854775,
    ensures
        milli_mag(u) > i64::MAX,
{
    lemma_first_dot_props(u);
    let fd = first_dot(u);
    if fd < t {
        assert(is_digit(u[fd]));
        assert(u[fd] == '.');
        assert(false);
    }
    assert(int_part(u).take(t) =~= u.take(t));
    lemma_digits_val_prefix(int_part(u), t);
    lemma_frac_milli_nonneg(frac_part(u));
}

/// `s` holds a decimal digit at position `i`.
fn digit_at(s: &str, n: usize, i: usize) -> (r: bool)
    requires
        n == s@.len(),
        i < n,
    ensures
        r == is_digit(s@[i as int]),
{
    let cv = s.get_char(i) as u32;
    0x30 <= cv && cv <= 0x39
}

/// The milli-value of the raw fragment `s`: `None` outside the documented
/// grammar or when the magnitude would not fit an `i64`.
pub fn parse_milli(s: &str) -> (r: Option<i64>)
    ensures
        match r {
            Some(v) => spec_milli(s@) == Some(v as int),
            None => spec_milli(s@) is None,
        },
{
    let n = s.unicode_len();
    let mut i: usize = 0;
    let mut neg = false;
    if n > 0 {
        let c0 = s.get_char(0);
        if c0 == '-' {
            neg = true;
            i = 1;
        } else if c0 == '+' {
            i = 1;
        }
    }
    let base = i;
    let ghost u = unsigned_part(s@);
    proof {
        assert(base == sign_len(s@));
        assert(neg == is_neg(s@));
        assert(u == s@.skip(base as int));
        assert(u.take(0) =~= Seq::<char>::empty());
    }
    // the digits before the decimal point
    let mut acc: u64 = 0;
    while i < n && digit_at(s, n, i)
        invariant
            n == s@.len(),
            base == sign_len(s@),
            u == s@.skip(base as int),
            base <= i <= n,
            forall|k: int| 0 <= k < i - base ==> is_digit(u[k]),
            acc == digits_val(u.take(i - base)),
            acc <= 92233720368547759,
        decreases n - i,
    {
        proof {
            assert(u[i - base] == s@[i as int]);
        }
        if acc > 9223372036854775 {
            proof {
                if grammar_ok(u) {
                    lemma_digits_val_prefix(u.take(i - base + 1), i - base);
                    assert(u.take(i - base + 1).take(i - base) =~= u.take(i - base));
                    lemma_mag_exceeds(u, i - base);
                }
            }
            return None;
        }
        let d = (s.get_char(i) as u32 - 0x30) as u64;
        acc = acc * 10 + d;
        proof {
            assert(u.take(i - base + 1).drop_last() =~= u.take(i - base));
            assert(u.take(i - base + 1).last() == u[i - base]);
        }
        i += 1;
    }
    let int_digits = i - base;
    if acc > 9223372036854775 {
        proof {
            if grammar_ok(u) {
                lemma_mag_exceeds(u, int_digits as int);
            }
        }
        return None;
    }
    let mut j: usize = 0;
    let mut f3: u64 = 0;
    let mut roundup = false;
    if i < n {
        let c = s.get_char(i);
        proof {
            assert(u[int_digits as int] == s@[i as int]);
        }
        if c != '.' {
            proof {
                if grammar_ok(u) {
                    lemma_first_dot_props(u);
                    let fd = first_dot(u);
                    if fd < int_digits {
                        assert(is_digit(u[fd]));
                        assert(false);
                    } else if fd == int_digits {
                        assert(false);
                    } else {
                        assert(int_part(u)[int_digits as int] == u[int_digits as int]);
                        assert(is_digit(u[int_digits as int]));
                        assert(false);
                    }
                }
            }
            return None;
        }
        proof {
            lemma_first_dot_pin(u, int_digits as int);
        }
        i += 1;
        let ghost f = frac_part(u);
        proof {
            assert(f == u.skip(int_digits + 1));
            assert(f.len() == n - i);
            assert(f.take(0) =~= Seq::<char>::empty());
        }
        while i < n
            invariant
                n == s@.len(),
                base == sign_len(s@),
                u == s@.skip(base as int),
                base + int_digits < i <= n,
                int_digits <= u.len(),
                first_dot(u) == int_digits,
                f == frac_part(u),
                f.len() == n - base - int_digits - 1,
                j == i - base - int_digits - 1,
                j <= f.len(),
                forall|k: int| 0 <= k < j ==> is_digit(f[k]),
                j >= 3 ==> f3 == digits_val(f.take(3)),
                j < 3 ==> f3 == digits_val(f.take(j as int)),
                f3 <= 999,
                roundup == (j >= 4 && digit_val(f[3]) >= 5),
            decreases n - i,
        {
            proof {
                assert(f[j as int] == u[int_digits + 1 + j] == s@[i as int]);
            }
            let c = s.get_char(i);
            let cv = c as u32;
            if cv < 0x30 || cv > 0x39 {
                proof {
                    if grammar_ok(u) {
                        assert(is_digit(frac_part(u)[j as int]));
                        assert(false);
                    }
                }
                return None;
            }
            let d = (cv - 0x30) as u64;
            proof {
                assert(f.take(j + 1).drop_last() =~= f.take(j as int));
                assert(f.take(j + 1).last() == f[j as int]);
                if j < 3 {
                    assert(all_digits(f.take(j as int)));
                    lemma_digits_val_bound(f.take(j as int));
                    assert(spec_pow10(0) == 1);
                    assert(spec_pow10(1) == 10);
                    assert(spec_pow10(2) == 100);
                }
            }
            if j < 3 {
                f3 = f3 * 10 + d;
            } else if j == 3 {
                if d >= 5 {
                    roundup = true;
                }
            }
            j += 1;
            i += 1;
        }
    } else {
        proof {
            lemma_first_dot_pin(u, int_digits as int);
        }
    }
    // here the whole fragment is consumed: digits, then possibly a decimal
    // point and further digits
    if int_digits == 0 && j == 0 {
        proof {
            assert(int_part(u).len() == 0);
            assert(frac_part(u).len() == 0);
        }
        return None;
    }
    proof {
        assert(int_part(u) =~= u.take(int_digits as int));
        assert(all_digits(int_part(u)));
        assert(all_digits(frac_part(u))) by {
            if first_dot(u) < u.len() {
                assert(j == frac_part(u).len());
                assert(forall|k: int| 0 <= k < j ==> is_digit(frac_part(u)[k]));
            } else {
                assert(frac_part(u).len() == 0);
            }
        }
        assert(grammar_ok(u));
        assert(digits_val(int_part(u)) == acc);
        assert(spec_pow10(0) == 1);
        assert(spec_pow10(1) == 10);
        assert(spec_pow10(2) == 100);
        assert(spec_pow10(3) == 1000);
    }
    let scaled: u64 = if j >= 3 {
        f3
    } else if j == 2 {
        f3 * 10
    } else if j == 1 {
        f3 * 100
    } else {
        0
    };
    proof {
        let f = frac_part(u);
        if j >= 3 {
            assert(frac_milli(f) == f3 + if roundup {
                1int
            } else {
                0int
            });
        } else {
            assert(f.take(j as int) =~= f);
            assert(!roundup);
            assert(frac_milli(f) == scaled);
        }
    }
    let m: u64 = acc * 1000 + scaled + if roundup {
        1
    } else {
        0
    };
    proof {
        assert(m == milli_mag(u));
    }
    if m > 0x7fff_ffff_ffff_ffff {
        return None;
    }
    let v = m as i64;
    if neg {
        Some(-v)
    } else {
        Some(v)
    }
}

} // verus!
