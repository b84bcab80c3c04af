//! Decimal numbers held as fixed-point thousandths.
//!
//! JSON numbers, thresholds and latencies are all kept as an `i64` count of
//! thousandths: `2.5` is `2500`, and a latency of 130.4 ms is `130400`.
use vstd::prelude::*;
use crate::text::{digit_char, digit_to_char, int_text, push_char, push_int, push_uint, uint_text, all_digits, digit_val, digits_value, is_digit, lemma_digits_value_step};

verus! {

pub open spec fn pow10(k: nat) -> nat
    decreases k,
{
    if k == 0 {
        1
    } else {
        10 * pow10((k - 1) as nat)
    }
}

pub proof fn lemma_pow10_positive(k: nat)
    ensures
        pow10(k) >= 1,
    decreases k,
{
    if k > 0 {
        lemma_pow10_positive((k - 1) as nat);
    }
}

/// Characters that a number token may hold.
pub open spec fn is_num_char(c: char) -> bool {
    is_digit(c) || c == '-' || c == '+' || c == '.' || c == 'e' || c == 'E'
}

/// First index at or after `i` that holds `a` or `b`, or the length.
pub open spec fn find_from(s: Seq<char>, i: int, a: char, b: char) -> int
    decreases s.len() - i,
{
    if i < 0 || i >= s.len() {
        s.len() as int
    } else if s[i] == a || s[i] == b {
        i
    } else {
        find_from(s, i + 1, a, b)
    }
}

pub proof fn lemma_find_from(s: Seq<char>, i: int, a: char, b: char)
    requires
        0 <= i <= s.len(),
    ensures
        i <= find_from(s, i, a, b) <= s.len(),
        forall|k: int| i <= k < find_from(s, i, a, b) ==> s[k] != a && s[k] != b,
        find_from(s, i, a, b) < s.len() ==> (s[find_from(s, i, a, b)] == a || s[find_from(
            s,
            i,
            a,
            b,
        )] == b),
    decreases s.len() - i,
{
    if i < s.len() && !(s[i] == a || s[i] == b) {
        lemma_find_from(s, i + 1, a, b);
    }
}

pub open spec fn sign_len(s: Seq<char>) -> int {
    if s.len() > 0 && (s[0] == '+' || s[0] == '-') {
        1
    } else {
        0
    }
}

pub open spec fn is_negative(s: Seq<char>) -> bool {
    s.len() > 0 && s[0] == '-'
}

/// Position of the exponent marker, or the length when there is none.
pub open spec fn exp_at(s: Seq<char>) -> int {
    find_from(s, sign_len(s), 'e', 'E')
}

/// The part between the sign and the exponent.
pub open spec fn body_of(s: Seq<char>) -> Seq<char> {
    s.subrange(sign_len(s), exp_at(s))
}

pub open spec fn dot_at(s: Seq<char>) -> int {
    find_from(body_of(s), 0, '.', '.')
}

pub open spec fn int_part(s: Seq<char>) -> Seq<char> {
    body_of(s).take(dot_at(s))
}

pub open spec fn frac_part(s: Seq<char>) -> Seq<char> {
    if dot_at(s) < body_of(s).len() {
        body_of(s).skip(dot_at(s) + 1)
    } else {
        Seq::empty()
    }
}

pub open spec fn has_exp(s: Seq<char>) -> bool {
    exp_at(s) < s.len()
}

/// What follows the exponent marker.
pub open spec fn exp_text(s: Seq<char>) -> Seq<char> {
    s.skip(exp_at(s) + 1)
}

pub open spec fn exp_digits(s: Seq<char>) -> Seq<char> {
    exp_text(s).skip(sign_len(exp_text(s)))
}

/// The shape that `f64::from_str` accepts, over the characters a number
/// token can hold.
pub open spec fn well_formed_number(s: Seq<char>) -> bool {
    &&& all_digits(int_part(s))
    &&& all_digits(frac_part(s))
    &&& int_part(s).len() + frac_part(s).len() > 0
    &&& has_exp(s) ==> exp_digits(s).len() > 0 && all_digits(exp_digits(s))
}

pub open spec fn mantissa(s: Seq<char>) -> nat {
    digits_value(int_part(s) + frac_part(s))
}

pub open spec fn exponent(s: Seq<char>) -> nat {
    if has_exp(s) {
        digits_value(exp_digits(s))
    } else {
        0
    }
}

/// Decimal shift that turns the mantissa into thousandths.
pub open spec fn milli_shift(s: Seq<char>) -> int {
    (if has_exp(s) && is_negative(exp_text(s)) {
        -(exponent(s) as int)
    } else {
        exponent(s) as int
    }) + 3 - frac_part(s).len()
}

/// Magnitude in thousandths, rounded to the nearest (halves away from
/// zero).
pub open spec fn milli_magnitude(s: Seq<char>) -> nat {
    if milli_shift(s) >= 0 {
        mantissa(s) * pow10(milli_shift(s) as nat)
    } else {
        let p = pow10((-milli_shift(s)) as nat);
        (2 * mantissa(s) + p) / (2 * p)
    }
}

/// The largest magnitude an `i64` holds for a token of this sign.
pub open spec fn magnitude_limit(s: Seq<char>) -> nat {
    if is_negative(s) {
        i64::MAX as nat + 1
    } else {
        i64::MAX as nat
    }
}

/// `v`, or `cap` where `v` is larger.
pub open spec fn at_most(v: nat, cap: nat) -> nat {
    if v <= cap {
        v
    } else {
        cap
    }
}

/// The value of a number token in thousandths: rounded to the nearest
/// thousandth (halves away from zero), and a magnitude beyond what an `i64`
/// holds stays at the largest it can hold. A malformed token is refused.
#[verifier::opaque]
pub open spec fn parse_milli(s: Seq<char>) -> Option<int> {
    if well_formed_number(s) {
        let m = at_most(milli_magnitude(s), magnitude_limit(s));
        Some(
            if is_negative(s) {
                -(m as int)
            } else {
                m as int
            },
        )
    } else {
        None
    }
}

/// A run of digits is worth less than ten to the power of its length.
pub proof fn lemma_digits_below(s: Seq<char>)
    requires
        all_digits(s),
    ensures
        digits_value(s) < pow10(s.len()),
    decreases s.len(),
{
    if s.len() > 0 {
        let t = s.drop_last();
        assert(all_digits(t)) by {
            assert forall|i: int| 0 <= i < t.len() implies is_digit(#[trigger] t[i]) by {
                assert(t[i] == s[i]);
            }
        }
        lemma_digits_below(t);
        assert(is_digit(s[s.len() - 1]));
        assert(digit_val(s.last()) <= 9);
        assert(pow10(s.len()) == 10 * pow10(t.len()));
    }
}

/// Dropping the last `k` digits divides the value by ten to the `k`.
pub proof fn lemma_digits_prefix(s: Seq<char>, k: nat)
    requires
        all_digits(s),
        k <= s.len(),
    ensures
        digits_value(s.take(s.len() - k)) == digits_value(s) / pow10(k),
    decreases k,
{
    if k == 0 {
        assert(s.take(s.len() as int) =~= s);
        assert(pow10(0) == 1);
    } else {
        lemma_digits_prefix(s, (k - 1) as nat);
        let t = s.take(s.len() - (k - 1));
        let u = s.take(s.len() - k);
        assert(t.drop_last() =~= u);
        assert(is_digit(t.last())) by {
            assert(t.last() == s[s.len() - k]);
        }
        let d = digit_val(t.last());
        assert(d <= 9);
        assert(digits_value(t) == digits_value(u) * 10 + d);
        assert(digits_value(u) == digits_value(t) / 10) by (nonlinear_arith)
            requires
                digits_value(t) == digits_value(u) * 10 + d,
                d <= 9,
        ;
        lemma_pow10_positive((k - 1) as nat);
        vstd::arithmetic::div_mod::lemma_div_denominator(digits_value(s) as int, pow10((k - 1) as nat) as int, 10);
        assert(pow10(k) == pow10((k - 1) as nat) * 10);
    }
}

/// `(2a + d) / 2d` is `a / d` rounded half up.
pub proof fn lemma_half_up(a: int, d: int)
    requires
        a >= 0,
        d > 0,
    ensures
        (2 * a + d) / (2 * d) == a / d + (if 2 * (a % d) >= d { 1int } else { 0int }),
{
    let q = a / d;
    let r = a % d;
    vstd::arithmetic::div_mod::lemma_fundamental_div_mod(a, d);
    vstd::arithmetic::div_mod::lemma_mod_pos_bound(a, d);
    if 2 * r >= d {
        assert(2 * a + d == (q + 1) * (2 * d) + (2 * r - d)) by (nonlinear_arith)
            requires
                a == d * q + r,
        ;
        vstd::arithmetic::div_mod::lemma_fundamental_div_mod_converse(2 * a + d, 2 * d, q + 1, 2 * r - d);
    } else {
        assert(2 * a + d == q * (2 * d) + (2 * r + d)) by (nonlinear_arith)
            requires
                a == d * q + r,
        ;
        vstd::arithmetic::div_mod::lemma_fundamental_div_mod_converse(2 * a + d, 2 * d, q, 2 * r + d);
    }
}

/// Rounding off the last `k` digits: the digits before them, plus one
/// where the first of them is 5 or more.
pub proof fn lemma_digits_round(s: Seq<char>, k: nat)
    requires
        all_digits(s),
        1 <= k <= s.len(),
    ensures
        (2 * digits_value(s) + pow10(k)) / (2 * pow10(k)) == digits_value(s.take(s.len() - k)) + (if digit_val(
            s[s.len() - k],
        ) >= 5 {
            1int
        } else {
            0int
        }),
{
    let v = digits_value(s) as int;
    let d1 = pow10((k - 1) as nat) as int;
    let d = pow10(k) as int;
    assert(d == 10 * d1);
    lemma_pow10_positive((k - 1) as nat);
    lemma_half_up(v, d);
    lemma_digits_prefix(s, k);
    lemma_digits_prefix(s, (k - 1) as nat);
    let q = digits_value(s.take(s.len() - k)) as int;
    let t = s.take(s.len() - (k - 1));
    assert(t.drop_last() =~= s.take(s.len() - k));
    assert(t.last() == s[s.len() - k]);
    assert(is_digit(s[s.len() - k]));
    let dig = digit_val(s[s.len() - k]) as int;
    assert(dig <= 9);
    assert(digits_value(t) == q * 10 + dig);
    // v == d1 * (v / d1) + v % d1, and v / d1 == value(t)
    vstd::arithmetic::div_mod::lemma_fundamental_div_mod(v, d1);
    vstd::arithmetic::div_mod::lemma_mod_pos_bound(v, d1);
    let r1 = v % d1;
    assert(v == d * q + (d1 * dig + r1)) by (nonlinear_arith)
        requires
            v == d1 * (q * 10 + dig) + r1,
            d == 10 * d1,
    ;
    assert(0 <= d1 * dig + r1 < d) by (nonlinear_arith)
        requires
            0 <= dig <= 9,
            0 <= r1 < d1,
            d == 10 * d1,
    ;
    vstd::arithmetic::div_mod::lemma_fundamental_div_mod_converse(v, d, q, d1 * dig + r1);
    assert((2 * (d1 * dig + r1) >= d) == (dig >= 5)) by (nonlinear_arith)
        requires
            0 <= dig <= 9,
            0 <= r1 < d1,
            d == 10 * d1,
    ;
}

/// A value with fewer digits than the places it moves rounds to zero.
proof fn lemma_round_away(v: nat, n: nat, k: nat)
    requires
        v < pow10(n),
        n < k,
    ensures
        (2 * v + pow10(k)) / (2 * pow10(k)) == 0,
{
    lemma_pow10_mono(n, (k - 1) as nat);
    assert(pow10(k) == 10 * pow10((k - 1) as nat));
    lemma_pow10_positive((k - 1) as nat);
    vstd::arithmetic::div_mod::lemma_fundamental_div_mod_converse(
        2 * v + pow10(k) as int,
        2 * pow10(k) as int,
        0,
        2 * v + pow10(k) as int,
    );
}

/// Shifted twenty places or more, any value but zero is beyond every
/// magnitude an `i64` holds.
proof fn lemma_far_shift(v: nat, a: nat, b: nat, cap: nat)
    requires
        a >= 20,
        b >= 20,
        1 <= cap <= 0x1_0000_0000_0000_0000,
    ensures
        at_most(v * pow10(a), cap) == at_most(v * pow10(b), cap),
{
    lemma_pow10_mono(20, a);
    lemma_pow10_mono(20, b);
    assert(pow10(20) == 100_000_000_000_000_000_000) by {
        reveal_with_fuel(pow10, 21);
    }
    if v > 0 {
        assert(v * pow10(a) >= pow10(a)) by (nonlinear_arith)
            requires
                v >= 1,
        ;
        assert(v * pow10(b) >= pow10(b)) by (nonlinear_arith)
            requires
                v >= 1,
        ;
    } else {
        assert(v * pow10(a) == 0);
        assert(v * pow10(b) == 0);
    }
}

/// The value of `s[from..to]`, or `cap` where it is larger; `None` when a
/// character there is no digit.
fn read_capped(s: &Vec<char>, from: usize, to: usize, cap: u128) -> (r: Option<u128>)
    requires
        from <= to <= s.len(),
        cap <= 0x1_0000_0000_0000_0000_0000_0000_0000u128,
    ensures
        match r {
            Some(v) => all_digits(s@.subrange(from as int, to as int)) && v as nat == at_most(
                digits_value(s@.subrange(from as int, to as int)),
                cap as nat,
            ),
            None => !all_digits(s@.subrange(from as int, to as int)),
        },
{
    let ghost d = s@.subrange(from as int, to as int);
    let mut value: u128 = 0;
    let mut i: usize = from;
    while i < to
        invariant
            from <= i <= to <= s.len(),
            cap <= 0x1_0000_0000_0000_0000_0000_0000_0000u128,
            d == s@.subrange(from as int, to as int),
            value as nat == at_most(digits_value(d.take(i - from)), cap as nat),
            all_digits(d.take(i - from)),
        decreases to - i,
    {
        let c = s[i];
        proof {
            lemma_digits_value_step(d, i - from);
        }
        assert(d[i - from] == c);
        if !('0' <= c && c <= '9') {
            assert(!is_digit(d[i - from]));
            return None;
        }
        assert('0' as u32 <= c as u32 <= '9' as u32);
        let digit = (c as u32 - '0' as u32) as u128;
        assert(digit as nat == digit_val(c));
        if value < cap {
            let next = value * 10 + digit;
            value = if next > cap {
                cap
            } else {
                next
            };
        }
        assert(d.take(i + 1 - from) =~= d.take(i - from).push(c));
        i += 1;
    }
    assert(d.take(i - from) =~= d);
    Some(value)
}

} // verus!

verus! {

/// Copies `s[from..to]` into a vector of its own.
pub fn copy_range(s: &Vec<char>, from: usize, to: usize) -> (r: Vec<char>)
    requires
        from <= to <= s.len(),
    ensures
        r@ == s@.subrange(from as int, to as int),
{
    let mut r: Vec<char> = Vec::new();
    let mut i: usize = from;
    while i < to
        invariant
            from <= i <= to <= s.len(),
            r@ == s@.subrange(from as int, i as int),
        decreases to - i,
    {
        r.push(s[i]);
        assert(r@ =~= s@.subrange(from as int, i + 1));
        i += 1;
    }
    r
}

/// First index at or after `i` holding `a` or `b`, or the length.
pub fn find_either(s: &Vec<char>, i: usize, a: char, b: char) -> (r: usize)
    requires
        i <= s.len(),
    ensures
        r == find_from(s@, i as int, a, b),
{
    proof {
        lemma_find_from(s@, i as int, a, b);
    }
    let mut k: usize = i;
    while k < s.len()
        invariant
            i <= k <= s.len(),
            find_from(s@, i as int, a, b) == find_from(s@, k as int, a, b),
        decreases s.len() - k,
    {
        if s[k] == a || s[k] == b {
            return k;
        }
        k += 1;
    }
    k
}

proof fn lemma_all_digits_concat(a: Seq<char>, b: Seq<char>)
    ensures
        all_digits(a + b) <==> (all_digits(a) && all_digits(b)),
{
    if all_digits(a + b) {
        assert forall|i: int| 0 <= i < a.len() implies is_digit(#[trigger] a[i]) by {
            assert((a + b)[i] == a[i]);
        }
        assert forall|i: int| 0 <= i < b.len() implies is_digit(#[trigger] b[i]) by {
            assert((a + b)[a.len() + i] == b[i]);
        }
    }
}

proof fn lemma_pow10_mono(i: nat, j: nat)
    requires
        i <= j,
    ensures
        pow10(i) <= pow10(j),
    decreases j,
{
    if i < j {
        lemma_pow10_mono(i, (j - 1) as nat);
        lemma_pow10_positive((j - 1) as nat);
    }
}

/// `v` times ten to the `k`, or `cap` where that is larger, from `acc`,
/// which is `v` or `cap` where `v` is larger.
fn scale_capped(Ghost(v): Ghost<nat>, acc: u128, k: u128, cap: u128) -> (r: u128)
    requires
        1 <= cap <= 0x1_0000_0000_0000_0000_0000_0000_0000u128,
        acc as nat == at_most(v, cap as nat),
    ensures
        r as nat == at_most(v * pow10(k as nat), cap as nat),
{
    let mut a: u128 = acc;
    let mut j: u128 = 0;
    assert(pow10(0) == 1);
    assert(v * pow10(0) == v);
    while j < k
        invariant
            j <= k,
            1 <= cap <= 0x1_0000_0000_0000_0000_0000_0000_0000u128,
            a as nat == at_most(v * pow10(j as nat), cap as nat),
        decreases k - j,
    {
        if a == 0 || a == cap {
            proof {
                lemma_pow10_mono(j as nat, k as nat);
                lemma_pow10_positive(j as nat);
                if a == 0 {
                    assert(v == 0) by (nonlinear_arith)
                        requires
                            v * pow10(j as nat) == 0,
                            pow10(j as nat) >= 1,
                    ;
                    assert(v * pow10(k as nat) == 0);
                } else {
                    assert(v * pow10(k as nat) >= v * pow10(j as nat)) by (nonlinear_arith)
                        requires
                            pow10(j as nat) <= pow10(k as nat),
                    ;
                }
            }
            return a;
        }
        proof {
            assert(pow10((j + 1) as nat) == 10 * pow10(j as nat));
            assert(v * pow10((j + 1) as nat) == 10 * (v * pow10(j as nat))) by (nonlinear_arith)
                requires
                    pow10((j + 1) as nat) == 10 * pow10(j as nat),
            ;
        }
        let next = a * 10;
        a = if next > cap {
            cap
        } else {
            next
        };
        j += 1;
    }
    a
}

} // verus!

verus! {

/// An exponent beyond this moves every digit of a token out of reach.
const EXPONENT_CAP: u128 = 0x4_0000_0000_0000_0000;

/// The digits of a number token (its whole and fraction parts, in order)
/// and the count of fraction digits.
fn mantissa_of(tok: &Vec<char>) -> (r: Option<(Vec<char>, usize)>)
    ensures
        match r {
            Some((m, f)) => {
                &&& all_digits(int_part(tok@))
                &&& all_digits(frac_part(tok@))
                &&& int_part(tok@).len() + frac_part(tok@).len() > 0
                &&& m@ == int_part(tok@) + frac_part(tok@)
                &&& f as int == frac_part(tok@).len()
            },
            None => !(all_digits(int_part(tok@)) && all_digits(frac_part(tok@)) && int_part(
                tok@,
            ).len() + frac_part(tok@).len() > 0),
        },
{
    let ghost s = tok@;
    let n = tok.len();
    let sl: usize = if n > 0 && (tok[0] == '+' || tok[0] == '-') { 1 } else { 0 };
    assert(sl as int == sign_len(s));
    let e = find_either(tok, sl, 'e', 'E');
    proof {
        lemma_find_from(s, sl as int, 'e', 'E');
    }
    let body = copy_range(tok, sl, e);
    assert(body@ == body_of(s));
    let d = find_either(&body, 0, '.', '.');
    proof {
        lemma_find_from(body@, 0, '.', '.');
    }
    let mut mant = copy_range(&body, 0, d);
    assert(mant@ =~= int_part(s));
    let mut flen: usize = 0;
    if d < body.len() {
        let frac = copy_range(&body, d + 1, body.len());
        assert(frac@ =~= frac_part(s));
        flen = frac.len();
        let mut i: usize = 0;
        while i < frac.len()
            invariant
                i <= frac.len(),
                mant@ =~= int_part(s) + frac@.take(i as int),
            decreases frac.len() - i,
        {
            mant.push(frac[i]);
            assert(frac@.take(i + 1) =~= frac@.take(i as int).push(frac@[i as int]));
            i += 1;
        }
        assert(frac@.take(frac.len() as int) =~= frac@);
    } else {
        assert(frac_part(s) =~= Seq::<char>::empty());
        assert(int_part(s) + frac_part(s) =~= int_part(s));
    }
    assert(mant@ =~= int_part(s) + frac_part(s));
    proof {
        lemma_all_digits_concat(int_part(s), frac_part(s));
    }
    if mant.len() == 0 {
        return None;
    }
    let mlen = mant.len();
    assert(mant@.subrange(0, mlen as int) =~= mant@);
    match read_capped(&mant, 0, mlen, 1) {
        Some(_) => Some((mant, flen)),
        None => None,
    }
}

/// Exponent of a number token, or `EXPONENT_CAP` where it is larger, and
/// its sign; `(0, false)` when it has none.
fn exponent_of(tok: &Vec<char>) -> (r: Option<(u128, bool)>)
    ensures
        match r {
            Some((x, neg)) => {
                &&& has_exp(tok@) ==> exp_digits(tok@).len() > 0 && all_digits(exp_digits(tok@))
                &&& x as nat == at_most(exponent(tok@), EXPONENT_CAP as nat)
                &&& neg == (has_exp(tok@) && is_negative(exp_text(tok@)))
            },
            None => !(has_exp(tok@) ==> exp_digits(tok@).len() > 0 && all_digits(exp_digits(tok@))),
        },
{
    let ghost s = tok@;
    let n = tok.len();
    let sl: usize = if n > 0 && (tok[0] == '+' || tok[0] == '-') { 1 } else { 0 };
    assert(sl as int == sign_len(s));
    let e = find_either(tok, sl, 'e', 'E');
    proof {
        lemma_find_from(s, sl as int, 'e', 'E');
    }
    if e >= n {
        return Some((0, false));
    }
    let et = copy_range(tok, e + 1, n);
    assert(et@ =~= exp_text(s));
    let esl: usize = if et.len() > 0 && (et[0] == '+' || et[0] == '-') { 1 } else { 0 };
    let neg = et.len() > 0 && et[0] == '-';
    let etl = et.len();
    assert(et@.subrange(esl as int, etl as int) =~= exp_digits(s));
    if esl >= etl {
        return None;
    }
    match read_capped(&et, esl, etl, EXPONENT_CAP) {
        Some(v) => Some((v, neg)),
        None => None,
    }
}

/// Reads a number token as thousandths; see `parse_milli`.
#[verifier::spinoff_prover]
#[verifier::rlimit(50)]
pub fn read_milli(tok: &Vec<char>) -> (r: Option<i64>)
    ensures
        match r {
            Some(v) => parse_milli(tok@) == Some(v as int),
            None => parse_milli(tok@) is None,
        },
{
    let ghost s = tok@;
    proof {
        reveal(parse_milli);
    }
    let neg = tok.len() > 0 && tok[0] == '-';
    let (mant, flen) = match mantissa_of(tok) {
        Some(p) => p,
        None => {
            return None;
        },
    };
    let (ex, ex_neg) = match exponent_of(tok) {
        Some(p) => p,
        None => {
            return None;
        },
    };
    assert(well_formed_number(s));
    let ghost v = mantissa(s);
    let n = mant.len();
    assert(mant@.subrange(0, n as int) =~= mant@);
    proof {
        lemma_all_digits_concat(int_part(s), frac_part(s));
        lemma_digits_below(mant@);
    }
    let limit: u128 = if neg { i64::MAX as u128 + 1 } else { i64::MAX as u128 };
    assert(neg == is_negative(s));
    assert(limit as nat == magnitude_limit(s));
    let cap: u128 = limit + 1;
    let signed: i128 = if ex_neg {
        -(ex as i128)
    } else {
        ex as i128
    };
    let shift: i128 = signed + 3 - (flen as i128);
    let ghost capped_exp = exponent(s) > EXPONENT_CAP as nat;
    assert(!capped_exp ==> shift as int == milli_shift(s));
    assert(capped_exp && !ex_neg ==> milli_shift(s) >= shift >= 20);
    assert(capped_exp && ex_neg ==> milli_shift(s) <= shift && shift < -(n as int));
    let mag: u128 = if shift >= 0 {
        let acc = match read_capped(&mant, 0, n, cap) {
            Some(x) => x,
            None => {
                return None;
            },
        };
        let r = scale_capped(Ghost(v), acc, shift as u128, cap);
        proof {
            if capped_exp {
                lemma_far_shift(v, shift as nat, milli_shift(s) as nat, cap as nat);
            }
        }
        r
    } else {
        let k: i128 = -shift;
        if k > n as i128 {
            proof {
                let kk = (-milli_shift(s)) as nat;
                assert(kk > n);
                lemma_round_away(v, n as nat, kk);
            }
            0
        } else {
            let keep: usize = n - (k as usize);
            assert(mant@.subrange(0, keep as int) =~= mant@.take(mant@.len() - k));
            proof {
                lemma_digits_round(mant@, k as nat);
            }
            let low = match read_capped(&mant, 0, keep, cap) {
                Some(x) => x,
                None => {
                    proof {
                        assert forall|i: int| 0 <= i < keep implies is_digit(#[trigger] mant@.subrange(0, keep as int)[i]) by {
                            assert(mant@.subrange(0, keep as int)[i] == mant@[i]);
                        }
                    }
                    return None;
                },
            };
            let c = mant[keep];
            assert(is_digit(mant@[keep as int]));
            let up = c >= '5';
            assert(up == (digit_val(c) >= 5));
            if up && low < cap {
                low + 1
            } else {
                low
            }
        }
    };
    assert(mag as nat == at_most(milli_magnitude(s), cap as nat));
    let m: u128 = if mag > limit {
        limit
    } else {
        mag
    };
    assert(m as nat == at_most(milli_magnitude(s), magnitude_limit(s)));
    if neg {
        if m == limit {
            Some(i64::MIN)
        } else {
            Some(-(m as i64))
        }
    } else {
        Some(m as i64)
    }
}

} // verus!

verus! {

/// Fraction digits of `f` thousandths, without trailing zeros.
pub open spec fn frac_text(f: nat) -> Seq<char> {
    let d1 = digit_char(f / 100);
    let d2 = digit_char((f / 10) % 10);
    let d3 = digit_char(f % 10);
    if f % 100 == 0 {
        seq![d1]
    } else if f % 10 == 0 {
        seq![d1, d2]
    } else {
        seq![d1, d2, d3]
    }
}

pub open spec fn abs(m: int) -> nat {
    if m < 0 {
        (-m) as nat
    } else {
        m as nat
    }
}

/// Shortest decimal text of `m` thousandths: whole values print as an
/// integer, others with one to three fraction digits.
pub open spec fn milli_text(m: int) -> Seq<char> {
    if m % 1000 == 0 {
        int_text(m / 1000)
    } else {
        (if m < 0 {
            seq!['-']
        } else {
            Seq::empty()
        }) + uint_text(abs(m) / 1000) + seq!['.'] + frac_text(abs(m) % 1000)
    }
}

/// Appends `milli_text(m)` to `out`.
pub fn push_milli(out: &mut String, m: i64)
    ensures
        final(out)@ == old(out)@ + milli_text(m as int),
{
    if m % 1000 == 0 {
        push_int(out, m / 1000);
        return;
    }
    let a: u64 = if m < 0 {
        if m == i64::MIN {
            9223372036854775808u64
        } else {
            (-m) as u64
        }
    } else {
        m as u64
    };
    assert(a as nat == abs(m as int));
    let ghost before = out@;
    if m < 0 {
        push_char(out, '-');
    }
    push_uint(out, a / 1000);
    push_char(out, '.');
    let f = a % 1000;
    push_char(out, digit_to_char(f / 100));
    if f % 100 != 0 {
        push_char(out, digit_to_char((f / 10) % 10));
        if f % 10 != 0 {
            push_char(out, digit_to_char(f % 10));
        }
    }
    assert(out@ =~= before + milli_text(m as int));
}

} // verus!
