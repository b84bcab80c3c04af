//! What the reader gives back of what the writer wrote: numbers, strings
//! and whole documents.
use vstd::prelude::*;
use crate::number::{
    body_of, dot_at, exp_at, find_from, frac_part, frac_text, has_exp, int_part, is_num_char, mantissa, milli_magnitude,
    milli_shift, milli_text, parse_milli, pow10, sign_len, well_formed_number, abs, exponent, is_negative,
};
use crate::bridge::{is_authorized, path_query, reply_for, target_of};
use crate::json::{Json, JsonModel};
use crate::monitor::SnapshotView;
use crate::report::report_json;
use crate::json_parse::{
    array_items, code_char, hex_acc, hex_val, num_end, object_items, parse_number, parse_string, parse_text, parse_value,
    str_body, ws_end, JsonError,
};
use crate::json_write::{escape_char, escape_text, hex_lower, key_text, pad, spaces, write_fields, write_items, write_model};
use crate::net::{dotted_quad, ipv4_octets, le_u32};
use crate::text::{parse_unsigned, split_on, trim_seq, all_digits, digit_char, digit_val, digits_value, int_text, is_digit, is_ws, uint_text};

verus! {

pub proof fn lemma_digit_char(d: nat)
    requires
        d < 10,
    ensures
        is_digit(digit_char(d)),
        digit_val(digit_char(d)) == d,
{
}

/// The decimal text of a number reads back as that number.
pub proof fn lemma_uint_text(n: nat)
    ensures
        uint_text(n).len() >= 1,
        all_digits(uint_text(n)),
        digits_value(uint_text(n)) == n,
    decreases n,
{
    if n < 10 {
        lemma_digit_char(n);
        assert(uint_text(n).drop_last() =~= Seq::<char>::empty());
        assert(digits_value(uint_text(n)) == digits_value(Seq::<char>::empty()) * 10 + digit_val(digit_char(n)));
    } else {
        lemma_uint_text(n / 10);
        lemma_digit_char(n % 10);
        let t = uint_text(n);
        assert(t.drop_last() =~= uint_text(n / 10));
        assert(t.last() == digit_char(n % 10));
        assert(digits_value(t) == (n / 10) * 10 + n % 10);
        assert forall|i: int| 0 <= i < t.len() implies is_digit(#[trigger] t[i]) by {
            if i < t.len() - 1 {
                assert(t[i] == uint_text(n / 10)[i]);
            }
        }
    }
}

pub proof fn lemma_digits_concat(a: Seq<char>, b: Seq<char>)
    ensures
        digits_value(a + b) == digits_value(a) * pow10(b.len()) + digits_value(b),
    decreases b.len(),
{
    if b.len() == 0 {
        assert(a + b =~= a);
        assert(pow10(0) == 1);
        assert(digits_value(a) * 1 == digits_value(a));
    } else {
        lemma_digits_concat(a, b.drop_last());
        assert((a + b).drop_last() =~= a + b.drop_last());
        assert((a + b).last() == b.last());
        let x = digits_value(a);
        let p = pow10((b.len() - 1) as nat);
        let y = digits_value(b.drop_last());
        let d = digit_val(b.last());
        assert(pow10(b.len()) == 10 * p);
        assert(digits_value(a + b) == (x * p + y) * 10 + d);
        assert(digits_value(b) == y * 10 + d);
        assert((x * p + y) * 10 + d == x * (10 * p) + (y * 10 + d)) by (nonlinear_arith);
    }
}

/// No character from `k` on is `a` or `b`.
pub proof fn lemma_find_none(s: Seq<char>, k: int, a: char, b: char)
    requires
        0 <= k <= s.len(),
        forall|i: int| k <= i < s.len() ==> s[i] != a && s[i] != b,
    ensures
        find_from(s, k, a, b) == s.len(),
    decreases s.len() - k,
{
    if k < s.len() {
        lemma_find_none(s, k + 1, a, b);
    }
}

/// The fraction digits of `f` thousandths read back, scaled to thousandths.
#[verifier::spinoff_prover]
pub proof fn lemma_frac_text(f: nat)
    requires
        0 < f < 1000,
    ensures
        1 <= frac_text(f).len() <= 3,
        all_digits(frac_text(f)),
        digits_value(frac_text(f)) * pow10((3 - frac_text(f).len()) as nat) == f,
{
    lemma_digit_char(f / 100);
    lemma_digit_char((f / 10) % 10);
    lemma_digit_char(f % 10);
    let t = frac_text(f);
    reveal_with_fuel(digits_value, 4);
    reveal_with_fuel(pow10, 3);
    let d1 = f / 100;
    let d2 = (f / 10) % 10;
    let d3 = f % 10;
    assert(f == 100 * d1 + 10 * d2 + d3);
    assert(pow10(0) == 1);
    assert(pow10(1) == 10);
    assert(pow10(2) == 100);
    if f % 100 == 0 {
        assert(t.drop_last() =~= Seq::<char>::empty());
        assert(digits_value(t) == d1);
        assert(d2 == 0 && d3 == 0);
        assert(t.len() == 1);
        assert(pow10((3 - t.len()) as nat) == 100);
        assert(d1 * 100 == f);
        assert(digits_value(t) * pow10((3 - t.len()) as nat) == f);
    } else if f % 10 == 0 {
        assert(t.drop_last().drop_last() =~= Seq::<char>::empty());
        assert(t.drop_last() =~= seq![digit_char(d1)]);
        assert(digits_value(t.drop_last()) == d1);
        assert(digits_value(t) == d1 * 10 + d2);
        assert(d3 == 0);
        assert(t.len() == 2);
        assert(pow10((3 - t.len()) as nat) == 10);
        assert((d1 * 10 + d2) * 10 == f);
        assert(digits_value(t) * pow10((3 - t.len()) as nat) == f);
    } else {
        assert(t.drop_last().drop_last().drop_last() =~= Seq::<char>::empty());
        assert(t.drop_last().drop_last() =~= seq![digit_char(d1)]);
        assert(t.drop_last() =~= seq![digit_char(d1), digit_char(d2)]);
        assert(digits_value(t.drop_last().drop_last()) == d1);
        assert(digits_value(t.drop_last()) == d1 * 10 + d2);
        assert(digits_value(t) == (d1 * 10 + d2) * 10 + d3);
        assert(t.len() == 3);
        assert(pow10((3 - t.len()) as nat) == 1);
        assert((d1 * 10 + d2) * 10 + d3 == f);
        assert(digits_value(t) * pow10((3 - t.len()) as nat) == f);
    }
}

/// Every character of a written number may stand in a number token.
pub proof fn lemma_milli_chars(m: int)
    ensures
        milli_text(m).len() >= 1,
        forall|i: int| 0 <= i < milli_text(m).len() ==> is_num_char(#[trigger] milli_text(m)[i]),
        is_digit(milli_text(m)[0]) || milli_text(m)[0] == '-',
{
    let a = abs(m);
    lemma_uint_text(a / 1000);
    if m % 1000 == 0 {
        if m < 0 {
            lemma_uint_text((-(m / 1000)) as nat);
        } else {
            lemma_uint_text((m / 1000) as nat);
        }
    } else {
        lemma_frac_text(a % 1000);
    }
}

/// The digits of a written number, after its sign.
pub open spec fn milli_body(m: int) -> Seq<char> {
    if m % 1000 == 0 {
        uint_text(abs(m) / 1000)
    } else {
        uint_text(abs(m) / 1000) + seq!['.'] + frac_text(abs(m) % 1000)
    }
}

pub open spec fn sign_text(m: int) -> Seq<char> {
    if m < 0 {
        seq!['-']
    } else {
        Seq::empty()
    }
}

proof fn lemma_milli_shape(m: int)
    ensures
        milli_text(m) == sign_text(m) + milli_body(m),
        milli_body(m).len() >= 1,
        is_digit(milli_body(m)[0]),
        forall|i: int| 0 <= i < milli_body(m).len() ==> is_digit(#[trigger] milli_body(m)[i]) || milli_body(m)[i] == '.',
{
    let a = abs(m);
    let q = a / 1000;
    lemma_uint_text(q);
    if m % 1000 == 0 {
        if m < 0 {
            assert((-(m / 1000)) as nat == q);
        } else {
            assert((m / 1000) as nat == q);
        }
        assert(milli_text(m) =~= sign_text(m) + milli_body(m));
    } else {
        lemma_frac_text(a % 1000);
        assert(milli_text(m) =~= sign_text(m) + milli_body(m));
        let b = milli_body(m);
        let il = uint_text(q).len() as int;
        assert forall|i: int| 0 <= i < b.len() implies is_digit(#[trigger] b[i]) || b[i] == '.' by {
            if i < il {
                assert(b[i] == uint_text(q)[i]);
            } else if i > il {
                assert(b[i] == frac_text(a % 1000)[i - il - 1]);
            }
        }
        assert(b[0] == uint_text(q)[0]);
    }
}

proof fn lemma_milli_parts(m: int)
    ensures
        sign_len(milli_text(m)) == sign_text(m).len(),
        is_negative(milli_text(m)) == (m < 0),
        !has_exp(milli_text(m)),
        body_of(milli_text(m)) == milli_body(m),
{
    lemma_milli_shape(m);
    let s = milli_text(m);
    let b = milli_body(m);
    let start = sign_text(m).len() as int;
    assert(s[start] == b[0]);
    assert forall|i: int| start <= i < s.len() implies s[i] != 'e' && s[i] != 'E' by {
        assert(s[i] == b[i - start]);
    }
    lemma_find_none(s, start, 'e', 'E');
    assert(s.subrange(start, s.len() as int) =~= b);
}

/// A written number reads back as itself, for every number an `i64`
/// holds.
pub proof fn lemma_milli_roundtrip(m: int)
    requires
        i64::MIN <= m <= i64::MAX,
    ensures
        parse_milli(milli_text(m)) == Some(m),
{
    reveal(parse_milli);
    lemma_milli_parts(m);
    lemma_milli_shape(m);
    let s = milli_text(m);
    let a = abs(m);
    let q = a / 1000;
    let f = a % 1000;
    let digits = milli_body(m);
    lemma_uint_text(q);
    let ilen = uint_text(q).len() as int;
    if m % 1000 == 0 {
        assert forall|i: int| 0 <= i < digits.len() implies digits[i] != '.' && digits[i] != '.' by {
            assert(is_digit(uint_text(q)[i]));
        }
        lemma_find_none(digits, 0, '.', '.');
        assert(int_part(s) =~= uint_text(q));
        assert(frac_part(s) =~= Seq::<char>::empty());
        assert(int_part(s) + frac_part(s) =~= uint_text(q));
        assert(pow10(3) == 1000) by {
            assert(pow10(0) == 1);
            assert(pow10(1) == 10);
            assert(pow10(2) == 100);
        }
        assert(milli_magnitude(s) == q * 1000);
    } else {
        lemma_frac_text(f);
        assert forall|i: int| 0 <= i < ilen implies digits[i] != '.' && digits[i] != '.' by {
            assert(is_digit(uint_text(q)[i]));
        }
        lemma_find_dot(digits, ilen);
        assert(int_part(s) =~= uint_text(q));
        assert(frac_part(s) =~= frac_text(f));
        lemma_digits_concat(uint_text(q), frac_text(f));
        let flen = frac_text(f).len();
        let dv = digits_value(frac_text(f));
        lemma_pow10_split(flen);
        assert(mantissa(s) == q * pow10(flen) + dv);
        assert(mantissa(s) * pow10((3 - flen) as nat) == q * 1000 + dv * pow10((3 - flen) as nat)) by (
        nonlinear_arith)
            requires
                mantissa(s) == q * pow10(flen) + dv,
                pow10(flen) * pow10((3 - flen) as nat) == 1000,
        ;
        assert(milli_magnitude(s) == a);
        assert(mantissa(s) <= a) by (nonlinear_arith)
            requires
                mantissa(s) * pow10((3 - flen) as nat) == a,
                pow10((3 - flen) as nat) >= 1,
        ;
    }
    assert(well_formed_number(s));
}

proof fn lemma_find_dot(s: Seq<char>, k: int)
    requires
        0 <= k < s.len(),
        s[k] == '.',
        forall|i: int| 0 <= i < k ==> s[i] != '.' && s[i] != '.',
    ensures
        find_from(s, 0, '.', '.') == k,
{
    lemma_find_prefix(s, 0, k);
}

proof fn lemma_find_prefix(s: Seq<char>, j: int, k: int)
    requires
        0 <= j <= k < s.len(),
        s[k] == '.',
        forall|i: int| 0 <= i < k ==> s[i] != '.',
    ensures
        find_from(s, j, '.', '.') == k,
    decreases k - j,
{
    if j < k {
        lemma_find_prefix(s, j + 1, k);
    }
}

proof fn lemma_pow10_split(flen: nat)
    requires
        1 <= flen <= 3,
    ensures
        pow10(flen) * pow10((3 - flen) as nat) == 1000,
        pow10((3 - flen) as nat) >= 1,
{
    assert(pow10(0) == 1);
    assert(pow10(1) == 10);
    assert(pow10(2) == 100);
    assert(pow10(3) == 1000);
    if flen == 1 {
        assert(pow10(flen) * pow10((3 - flen) as nat) == 10 * 100);
    } else if flen == 2 {
        assert(pow10(flen) * pow10((3 - flen) as nat) == 100 * 10);
    } else {
        assert(pow10(flen) * pow10((3 - flen) as nat) == 1000 * 1);
    }
}

} // verus!

verus! {

proof fn lemma_escape_prefix(t: Seq<char>, j: int)
    requires
        0 <= j <= t.len(),
    ensures
        escape_text(t.take(j)).len() <= escape_text(t).len(),
        forall|i: int| 0 <= i < escape_text(t.take(j)).len() ==> escape_text(t)[i] == #[trigger] escape_text(t.take(j))[i],
    decreases t.len(),
{
    if j == t.len() {
        assert(t.take(j) =~= t);
    } else {
        let u = t.drop_last();
        lemma_escape_prefix(u, j);
        assert(u.take(j) =~= t.take(j));
        assert(escape_text(t) == escape_text(u) + escape_char(t.last()));
    }
}

proof fn lemma_char_code(c: char)
    ensures
        0 <= c as int <= 0x10FFFF,
        c as u32 == c as int,
        c as nat == c as int,
{
}

proof fn lemma_hex(d: nat)
    requires
        d < 16,
    ensures
        hex_val(hex_lower(d)) == Some(d),
{
}

/// The body of a written string, from its `k`-th character on, reads back
/// as the rest of the string, ending after the closing quote.
proof fn lemma_str_from(t: Seq<char>, s: Seq<char>, p: int, k: int)
    requires
        0 <= k <= t.len(),
        0 <= p,
        p + escape_text(t).len() + 1 <= s.len(),
        s.subrange(p, p + escape_text(t).len() + 1) == escape_text(t) + seq!['"'],
    ensures
        str_body(s, p + escape_text(t.take(k)).len(), t.take(k)) == Ok::<(Seq<char>, int), JsonError>(
            (t, p + escape_text(t).len() + 1),
        ),
    decreases t.len() - k,
{
    let e = escape_text(t);
    let x = p + escape_text(t.take(k)).len();
    lemma_escape_prefix(t, k);
    assert forall|i: int| 0 <= i < e.len() implies s[p + i] == #[trigger] e[i] by {
        assert(s.subrange(p, p + e.len() + 1)[i] == s[p + i]);
    }
    assert(s[p + e.len()] == '"') by {
        assert(s.subrange(p, p + e.len() + 1)[e.len() as int] == s[p + e.len()]);
    }
    if k == t.len() {
        assert(t.take(k) =~= t);
    } else {
        let c = t[k];
        let next = t.take(k + 1);
        assert(next.drop_last() =~= t.take(k));
        assert(next.last() == c);
        let ec = escape_char(c);
        assert(escape_text(next) == escape_text(t.take(k)) + ec);
        lemma_escape_prefix(t, k + 1);
        assert forall|j: int| 0 <= j < ec.len() implies s[x + j] == #[trigger] ec[j] by {
            let pre = escape_text(t.take(k)).len() as int;
            assert(escape_text(next)[pre + j] == ec[j]);
            assert(e[pre + j] == escape_text(next)[pre + j]);
        }
        lemma_str_from(t, s, p, k + 1);
        assert(t.take(k).push(c) =~= next);
        if c == '"' || c == '\\' || c == '\n' || c == '\r' || c == '\t' {
            assert(s[x] == '\\');
        } else if (c as u32) < 0x20 {
            lemma_char_code(c);
            let code = c as nat;
            assert(code < 32);
            lemma_hex(code / 16);
            lemma_hex(code % 16);
            assert(s[x] == '\\' && s[x + 1] == 'u');
            assert(hex_acc(s, x + 2, 4, (code / 16) * 16 + code % 16) == Ok::<nat, JsonError>(code));
            assert(hex_acc(s, x + 2, 3, code / 16) == Ok::<nat, JsonError>(code));
            assert(hex_acc(s, x + 2, 2, 0) == Ok::<nat, JsonError>(code));
            assert(hex_acc(s, x + 2, 1, 0) == Ok::<nat, JsonError>(code));
            assert(hex_acc(s, x + 2, 0, 0) == Ok::<nat, JsonError>(code));
            assert(code_char(code) == c);
        } else {
            assert(ec == seq![c]);
            assert(s[x] == ec[0]);
        }
    }
}

/// A written string reads back as itself.
pub proof fn lemma_string_roundtrip(t: Seq<char>, s: Seq<char>, p: int)
    requires
        0 <= p,
        p + escape_text(t).len() + 2 <= s.len(),
        s.subrange(p, p + escape_text(t).len() + 2) == seq!['"'] + escape_text(t) + seq!['"'],
    ensures
        parse_string(s, p) == Ok::<(Seq<char>, int), JsonError>((t, p + escape_text(t).len() + 2)),
{
    let e = escape_text(t);
    assert(s[p] == '"') by {
        assert(s.subrange(p, p + e.len() + 2)[0] == s[p]);
    }
    assert(s.subrange(p + 1, p + 1 + e.len() + 1) =~= e + seq!['"']) by {
        assert forall|i: int| 0 <= i < e.len() + 1 implies s.subrange(p + 1, p + 1 + e.len() + 1)[i] == (e
            + seq!['"'])[i] by {
            assert(s.subrange(p, p + e.len() + 2)[i + 1] == s[p + 1 + i]);
        }
    }
    assert(t.take(0) =~= Seq::<char>::empty());
    lemma_str_from(t, s, p + 1, 0);
}

} // verus!

verus! {

/// Values whose numbers an `i64` holds, as every `Json` value's do.
pub open spec fn writable(v: JsonModel) -> bool
    decreases v, 0int,
{
    match v {
        JsonModel::Num(m) => i64::MIN <= m <= i64::MAX,
        JsonModel::Arr(items) => items_writable(items),
        JsonModel::Obj(fields) => fields_writable(fields),
        _ => true,
    }
}

pub open spec fn items_writable(s: Seq<JsonModel>) -> bool
    decreases s, 1int,
{
    if s.len() == 0 {
        true
    } else {
        items_writable(s.drop_last()) && writable(s.last())
    }
}

pub open spec fn fields_writable(s: Seq<(Seq<char>, JsonModel)>) -> bool
    decreases s, 1int,
{
    if s.len() == 0 {
        true
    } else {
        fields_writable(s.drop_last()) && writable(s.last().1)
    }
}

proof fn lemma_items_writable(s: Seq<JsonModel>, i: int)
    requires
        items_writable(s),
        0 <= i < s.len(),
    ensures
        writable(s[i]),
    decreases s.len(),
{
    if i < s.len() - 1 {
        lemma_items_writable(s.drop_last(), i);
    }
}

proof fn lemma_fields_writable(s: Seq<(Seq<char>, JsonModel)>, i: int)
    requires
        fields_writable(s),
        0 <= i < s.len(),
    ensures
        writable(s[i].1),
    decreases s.len(),
{
    if i < s.len() - 1 {
        lemma_fields_writable(s.drop_last(), i);
    }
}

/// Characters of `s` from `p` on are those of `w`.
pub open spec fn holds_at(s: Seq<char>, p: int, w: Seq<char>) -> bool {
    0 <= p && p + w.len() <= s.len() && forall|i: int| 0 <= i < w.len() ==> s[p + i] == #[trigger] w[i]
}

proof fn lemma_holds_split(s: Seq<char>, p: int, a: Seq<char>, b: Seq<char>)
    requires
        holds_at(s, p, a + b),
    ensures
        holds_at(s, p, a),
        holds_at(s, p + a.len(), b),
{
    assert forall|i: int| 0 <= i < a.len() implies s[p + i] == #[trigger] a[i] by {
        assert((a + b)[i] == a[i]);
    }
    assert forall|i: int| 0 <= i < b.len() implies s[p + a.len() + i] == #[trigger] b[i] by {
        assert((a + b)[a.len() + i] == b[i]);
    }
}

proof fn lemma_ws_run(s: Seq<char>, p: int, n: int)
    requires
        0 <= p,
        0 <= n,
        p + n <= s.len(),
        forall|i: int| p <= i < p + n ==> is_ws(#[trigger] s[i]),
        p + n < s.len() ==> !is_ws(s[p + n]),
    ensures
        ws_end(s, p) == p + n,
    decreases n,
{
    if n > 0 {
        lemma_ws_run(s, p + 1, n - 1);
    }
}

proof fn lemma_spaces(n: nat)
    ensures
        spaces(n).len() == n,
        forall|i: int| 0 <= i < n ==> #[trigger] spaces(n)[i] == ' ',
    decreases n,
{
    if n > 0 {
        lemma_spaces((n - 1) as nat);
        assert forall|i: int| 0 <= i < n implies #[trigger] spaces(n)[i] == ' ' by {
            if i < n - 1 {
                assert(spaces(n)[i] == spaces((n - 1) as nat)[i]);
            }
        }
    }
}

proof fn lemma_pad_ws(level: nat, pretty: bool)
    ensures
        forall|i: int| 0 <= i < pad(level, pretty).len() ==> is_ws(#[trigger] pad(level, pretty)[i]),
        pretty ==> pad(level, pretty).len() >= 1 && pad(level, pretty)[0] == '\n',
        !pretty ==> pad(level, pretty).len() == 0,
{
    lemma_spaces(2 * level);
    if pretty {
        assert forall|i: int| 0 <= i < pad(level, pretty).len() implies is_ws(#[trigger] pad(level, pretty)[i]) by {
            if i > 0 {
                assert(pad(level, pretty)[i] == spaces(2 * level)[i - 1]);
            }
        }
    }
}

/// ws_end skips a pad that lies at `p` and stops at a non-space after it.
proof fn lemma_skip_pad(s: Seq<char>, p: int, level: nat, pretty: bool)
    requires
        holds_at(s, p, pad(level, pretty)),
        p + pad(level, pretty).len() < s.len(),
        !is_ws(s[p + pad(level, pretty).len()]),
    ensures
        ws_end(s, p) == p + pad(level, pretty).len(),
{
    lemma_pad_ws(level, pretty);
    let n = pad(level, pretty).len() as int;
    assert forall|i: int| p <= i < p + n implies is_ws(#[trigger] s[i]) by {
        assert(s[p + (i - p)] == pad(level, pretty)[i - p]);
    }
    lemma_ws_run(s, p, n);
}

/// The first character of a written value: never a space, a separator or a
/// closing bracket.
proof fn lemma_first_char(v: JsonModel, depth: nat, pretty: bool)
    ensures
        write_model(v, depth, pretty).len() >= 1,
        !is_ws(write_model(v, depth, pretty)[0]),
        write_model(v, depth, pretty)[0] != ']',
        write_model(v, depth, pretty)[0] != '}',
        write_model(v, depth, pretty)[0] != ',',
{
    match v {
        JsonModel::Num(m) => {
            lemma_milli_chars(m);
        },
        _ => {},
    }
}

proof fn lemma_parse_value_ws(s: Seq<char>, p1: int, p2: int)
    requires
        0 <= p1 <= p2 <= s.len(),
        ws_end(s, p1) == p2,
        ws_end(s, p2) == p2,
    ensures
        parse_value(s, p1) == parse_value(s, p2),
{
}

proof fn lemma_num_run(s: Seq<char>, p: int, n: int)
    requires
        0 <= p,
        0 <= n,
        p + n <= s.len(),
        forall|i: int| p <= i < p + n ==> is_num_char(#[trigger] s[i]),
        p + n < s.len() ==> !is_num_char(s[p + n]),
    ensures
        num_end(s, p) == p + n,
    decreases n,
{
    if n > 0 {
        lemma_num_run(s, p + 1, n - 1);
    }
}

proof fn lemma_items_step(its: Seq<JsonModel>, k: int, depth: nat, pretty: bool)
    requires
        0 <= k < its.len(),
    ensures
        write_items(its.take(k + 1), depth, pretty) == write_items(its.take(k), depth, pretty) + (if k > 0 {
            seq![',']
        } else {
            Seq::empty()
        }) + pad(depth + 1, pretty) + write_model(its[k], depth + 1, pretty),
{
    assert(its.take(k + 1).drop_last() =~= its.take(k));
    assert(its.take(k + 1).last() == its[k]);
}

proof fn lemma_items_prefix(its: Seq<JsonModel>, k: int, depth: nat, pretty: bool)
    requires
        0 <= k <= its.len(),
    ensures
        write_items(its.take(k), depth, pretty).len() <= write_items(its, depth, pretty).len(),
        forall|i: int|
            0 <= i < write_items(its.take(k), depth, pretty).len() ==> write_items(its, depth, pretty)[i]
                == #[trigger] write_items(its.take(k), depth, pretty)[i],
    decreases its.len(),
{
    if k == its.len() {
        assert(its.take(k) =~= its);
    } else {
        let u = its.drop_last();
        lemma_items_prefix(u, k, depth, pretty);
        assert(u.take(k) =~= its.take(k));
    }
}

proof fn lemma_fields_step(fs: Seq<(Seq<char>, JsonModel)>, k: int, depth: nat, pretty: bool)
    requires
        0 <= k < fs.len(),
    ensures
        write_fields(fs.take(k + 1), depth, pretty) == write_fields(fs.take(k), depth, pretty) + (if k > 0 {
            seq![',']
        } else {
            Seq::empty()
        }) + pad(depth + 1, pretty) + key_text(fs[k].0, pretty) + write_model(fs[k].1, depth + 1, pretty),
{
    assert(fs.take(k + 1).drop_last() =~= fs.take(k));
    assert(fs.take(k + 1).last() == fs[k]);
}

proof fn lemma_fields_prefix(fs: Seq<(Seq<char>, JsonModel)>, k: int, depth: nat, pretty: bool)
    requires
        0 <= k <= fs.len(),
    ensures
        write_fields(fs.take(k), depth, pretty).len() <= write_fields(fs, depth, pretty).len(),
        forall|i: int|
            0 <= i < write_fields(fs.take(k), depth, pretty).len() ==> write_fields(fs, depth, pretty)[i]
                == #[trigger] write_fields(fs.take(k), depth, pretty)[i],
    decreases fs.len(),
{
    if k == fs.len() {
        assert(fs.take(k) =~= fs);
    } else {
        let u = fs.drop_last();
        lemma_fields_prefix(u, k, depth, pretty);
        assert(u.take(k) =~= fs.take(k));
    }
}

} // verus!

verus! {

/// A literal that lies at `p` matches to its end.
proof fn lemma_lit(s: Seq<char>, p: int, lit: Seq<char>, k: int)
    requires
        holds_at(s, p, lit),
        0 <= k <= lit.len(),
    ensures
        crate::json_parse::lit_match(s, p, lit, k) == lit.len(),
    decreases lit.len() - k,
{
    if k < lit.len() {
        assert(s[p + k] == lit[k]);
        lemma_lit(s, p, lit, k + 1);
    }
}

/// A stretch `u` of `w`, starting at `j`, lies in `s` where `w` lies, moved by `j`.
proof fn lemma_holds_sub(s: Seq<char>, p: int, w: Seq<char>, j: int, u: Seq<char>)
    requires
        holds_at(s, p, w),
        0 <= j,
        j + u.len() <= w.len(),
        forall|i: int| 0 <= i < u.len() ==> w[j + i] == #[trigger] u[i],
    ensures
        holds_at(s, p + j, u),
{
    assert forall|i: int| 0 <= i < u.len() implies s[p + j + i] == #[trigger] u[i] by {
        assert(w[j + i] == u[i]);
        assert(s[p + (j + i)] == w[j + i]);
    }
}

proof fn lemma_holds_range(s: Seq<char>, p: int, w: Seq<char>)
    requires
        holds_at(s, p, w),
    ensures
        s.subrange(p, p + w.len()) == w,
{
    assert forall|i: int| 0 <= i < w.len() implies s.subrange(p, p + w.len())[i] == w[i] by {
        assert(s[p + i] == w[i]);
    }
    assert(s.subrange(p, p + w.len()) =~= w);
}

/// The text of an array or object around its items: the opening bracket,
/// the items, the closing pad and bracket.
proof fn lemma_frame(s: Seq<char>, p: int, open: char, body: Seq<char>, tail: Seq<char>, close: char)
    requires
        holds_at(s, p, seq![open] + body + tail + seq![close]),
    ensures
        s[p] == open,
        holds_at(s, p + 1, body),
        holds_at(s, p + 1 + body.len(), tail + seq![close]),
{
    let w = seq![open] + body + tail + seq![close];
    assert(w =~= seq![open] + body + (tail + seq![close]));
    lemma_holds_split(s, p, seq![open] + body, tail + seq![close]);
    lemma_holds_split(s, p, seq![open], body);
    assert(s[p + 0] == seq![open][0]);
}

/// Where item `k` of an array lies in the text of its items.
#[verifier::spinoff_prover]
#[verifier::rlimit(60)]
proof fn lemma_item_layout(its: Seq<JsonModel>, k: int, depth: nat, pretty: bool)
    requires
        0 <= k < its.len(),
    ensures
        ({
            let all = write_items(its, depth, pretty);
            let before = write_items(its.take(k), depth, pretty).len() as int;
            let sep: int = if k > 0 { 1 } else { 0 };
            let lead = pad(depth + 1, pretty);
            let wk = write_model(its[k], depth + 1, pretty);
            let end = write_items(its.take(k + 1), depth, pretty).len() as int;
            &&& end == before + sep + lead.len() + wk.len()
            &&& end <= all.len()
            &&& forall|i: int| 0 <= i < lead.len() ==> all[before + sep + i] == #[trigger] lead[i]
            &&& forall|i: int| 0 <= i < wk.len() ==> all[before + sep + lead.len() + i] == #[trigger] wk[i]
            &&& (k > 0 ==> all[before] == ',')
            &&& (k + 1 == its.len() ==> end == all.len())
        }),
{
    let all = write_items(its, depth, pretty);
    let before = write_items(its.take(k), depth, pretty);
    let sep: Seq<char> = if k > 0 { seq![','] } else { Seq::empty() };
    let lead = pad(depth + 1, pretty);
    let wk = write_model(its[k], depth + 1, pretty);
    lemma_items_step(its, k, depth, pretty);
    lemma_items_prefix(its, k + 1, depth, pretty);
    let upto = write_items(its.take(k + 1), depth, pretty);
    assert(upto == before + sep + lead + wk);
    assert forall|i: int| 0 <= i < lead.len() implies all[before.len() + sep.len() + i] == #[trigger] lead[i] by {
        assert(upto[before.len() + sep.len() + i] == lead[i]);
    }
    assert forall|i: int| 0 <= i < wk.len() implies all[before.len() + sep.len() + lead.len() + i]
        == #[trigger] wk[i] by {
        assert(upto[before.len() + sep.len() + lead.len() + i] == wk[i]);
    }
    if k > 0 {
        assert(upto[before.len() as int] == ',');
    }
    if k + 1 == its.len() {
        assert(its.take(k + 1) =~= its);
    }
}

/// Where member `k` of an object lies in the text of its members.
#[verifier::spinoff_prover]
#[verifier::rlimit(60)]
proof fn lemma_field_layout(fs: Seq<(Seq<char>, JsonModel)>, k: int, depth: nat, pretty: bool)
    requires
        0 <= k < fs.len(),
    ensures
        ({
            let all = write_fields(fs, depth, pretty);
            let before = write_fields(fs.take(k), depth, pretty).len() as int;
            let sep: int = if k > 0 { 1 } else { 0 };
            let lead = pad(depth + 1, pretty);
            let key = key_text(fs[k].0, pretty);
            let wk = write_model(fs[k].1, depth + 1, pretty);
            let end = write_fields(fs.take(k + 1), depth, pretty).len() as int;
            &&& end == before + sep + lead.len() + key.len() + wk.len()
            &&& end <= all.len()
            &&& forall|i: int| 0 <= i < lead.len() ==> all[before + sep + i] == #[trigger] lead[i]
            &&& forall|i: int| 0 <= i < key.len() ==> all[before + sep + lead.len() + i] == #[trigger] key[i]
            &&& forall|i: int|
                0 <= i < wk.len() ==> all[before + sep + lead.len() + key.len() + i] == #[trigger] wk[i]
            &&& (k > 0 ==> all[before] == ',')
            &&& (k + 1 == fs.len() ==> end == all.len())
        }),
{
    let all = write_fields(fs, depth, pretty);
    let before = write_fields(fs.take(k), depth, pretty);
    let sep: Seq<char> = if k > 0 { seq![','] } else { Seq::empty() };
    let lead = pad(depth + 1, pretty);
    let key = key_text(fs[k].0, pretty);
    let wk = write_model(fs[k].1, depth + 1, pretty);
    lemma_fields_step(fs, k, depth, pretty);
    lemma_fields_prefix(fs, k + 1, depth, pretty);
    let upto = write_fields(fs.take(k + 1), depth, pretty);
    assert(upto == before + sep + lead + key + wk);
    assert forall|i: int| 0 <= i < lead.len() implies all[before.len() + sep.len() + i] == #[trigger] lead[i] by {
        assert(upto[before.len() + sep.len() + i] == lead[i]);
    }
    assert forall|i: int| 0 <= i < key.len() implies all[before.len() + sep.len() + lead.len() + i]
        == #[trigger] key[i] by {
        assert(upto[before.len() + sep.len() + lead.len() + i] == key[i]);
    }
    assert forall|i: int| 0 <= i < wk.len() implies all[before.len() + sep.len() + lead.len() + key.len() + i]
        == #[trigger] wk[i] by {
        assert(upto[before.len() + sep.len() + lead.len() + key.len() + i] == wk[i]);
    }
    if k > 0 {
        assert(upto[before.len() as int] == ',');
    }
    if k + 1 == fs.len() {
        assert(fs.take(k + 1) =~= fs);
    }
}

/// A written key, at `q`, reads back as itself, and its colon and the
/// space after it are skipped up to the value at `q + key.len()`.
proof fn lemma_key(key: Seq<char>, pretty: bool, s: Seq<char>, q: int)
    requires
        holds_at(s, q, key_text(key, pretty)),
        q + key_text(key, pretty).len() < s.len(),
        !is_ws(s[q + key_text(key, pretty).len()]),
    ensures
        parse_string(s, q) == Ok::<(Seq<char>, int), JsonError>((key, q + escape_text(key).len() + 2)),
        s[q + escape_text(key).len() + 2] == ':',
        ws_end(s, q + escape_text(key).len() + 3) == q + key_text(key, pretty).len(),
        key_text(key, pretty).len() == escape_text(key).len() + 3 + (if pretty { 1int } else { 0 }),
{
    let esc = escape_text(key);
    let quoted = seq!['"'] + esc + seq!['"'];
    let gap: Seq<char> = if pretty { seq![' '] } else { Seq::empty() };
    assert(key_text(key, pretty) =~= quoted + seq![':'] + gap);
    lemma_holds_split(s, q, quoted + seq![':'], gap);
    lemma_holds_split(s, q, quoted, seq![':']);
    lemma_holds_range(s, q, quoted);
    lemma_string_roundtrip(key, s, q);
    assert(s[q + quoted.len() + 0] == seq![':'][0]);
    if pretty {
        assert(s[q + quoted.len() + 1 + 0] == gap[0]);
        lemma_ws_run(s, q + esc.len() + 3, 1);
    } else {
        lemma_ws_run(s, q + esc.len() + 3, 0);
    }
}

} // verus!

verus! {

/// A written value, followed by nothing or by a character that cannot
/// extend a number, reads back as itself and ends where its text ends.
#[verifier::spinoff_prover]
#[verifier::rlimit(60)]
pub proof fn lemma_value(v: JsonModel, depth: nat, pretty: bool, s: Seq<char>, p: int)
    requires
        writable(v),
        holds_at(s, p, write_model(v, depth, pretty)),
        p + write_model(v, depth, pretty).len() < s.len() ==> !is_num_char(
            s[p + write_model(v, depth, pretty).len()],
        ),
    ensures
        parse_value(s, p) == Ok::<(JsonModel, int), JsonError>((v, p + write_model(v, depth, pretty).len())),
    decreases v, 0int,
{
    let w = write_model(v, depth, pretty);
    lemma_first_char(v, depth, pretty);
    assert(s[p + 0] == w[0]);
    lemma_ws_run(s, p, 0);
    match v {
        JsonModel::Null => {
            lemma_lit(s, p, w, 0);
        },
        JsonModel::Bool(b) => {
            lemma_lit(s, p, w, 0);
        },
        JsonModel::Num(m) => {
            lemma_milli_chars(m);
            lemma_milli_roundtrip(m);
            assert forall|i: int| p <= i < p + w.len() implies is_num_char(#[trigger] s[i]) by {
                assert(s[p + (i - p)] == w[i - p]);
            }
            lemma_num_run(s, p, w.len() as int);
            lemma_holds_range(s, p, w);
        },
        JsonModel::Str(t) => {
            lemma_holds_range(s, p, w);
            lemma_string_roundtrip(t, s, p);
        },
        JsonModel::Arr(items) => {
            if items.len() == 0 {
                assert(items =~= Seq::<JsonModel>::empty());
                assert(s[p + 1] == w[1]);
                lemma_ws_run(s, p + 1, 0);
            } else {
                let all = write_items(items, depth, pretty);
                lemma_frame(s, p, '[', all, pad(depth, pretty), ']');
                assert(items.take(0) =~= Seq::<JsonModel>::empty());
                assert(write_items(items.take(0), depth, pretty).len() == 0);
                lemma_items(items, depth, pretty, s, p, 0);
            }
        },
        JsonModel::Obj(fields) => {
            if fields.len() == 0 {
                assert(fields =~= Seq::<(Seq<char>, JsonModel)>::empty());
                assert(s[p + 1] == w[1]);
                lemma_ws_run(s, p + 1, 0);
            } else {
                let all = write_fields(fields, depth, pretty);
                lemma_frame(s, p, '{', all, pad(depth, pretty), '}');
                assert(fields.take(0) =~= Seq::<(Seq<char>, JsonModel)>::empty());
                assert(write_fields(fields.take(0), depth, pretty).len() == 0);
                lemma_fields(fields, depth, pretty, s, p, 0);
            }
        },
    }
}

/// Where item `k` of a written array starts, counted from just after `[`.
pub open spec fn item_offset(its: Seq<JsonModel>, k: int, depth: nat, pretty: bool) -> int {
    write_items(its.take(k), depth, pretty).len() + (if k > 0 { 1int } else { 0 }) + pad(depth + 1, pretty).len()
}

/// Where member `k` of a written object starts (at its key), counted from
/// just after `{`.
pub open spec fn field_offset(fs: Seq<(Seq<char>, JsonModel)>, k: int, depth: nat, pretty: bool) -> int {
    write_fields(fs.take(k), depth, pretty).len() + (if k > 0 { 1int } else { 0 }) + pad(depth + 1, pretty).len()
}

/// What the reader meets around item `k` of a written array.
#[verifier::spinoff_prover]
#[verifier::rlimit(60)]
proof fn lemma_item_text(its: Seq<JsonModel>, depth: nat, pretty: bool, s: Seq<char>, p0: int, k: int)
    requires
        0 <= k < its.len(),
        holds_at(s, p0 + 1, write_items(its, depth, pretty)),
        holds_at(s, p0 + 1 + write_items(its, depth, pretty).len(), pad(depth, pretty) + seq![']']),
    ensures
        ({
            let a = p0 + 1 + write_items(its.take(k), depth, pretty).len() + (if k > 0 { 1int } else { 0 });
            let q = p0 + 1 + item_offset(its, k, depth, pretty);
            let r = q + write_model(its[k], depth + 1, pretty).len();
            let end = p0 + 1 + write_items(its, depth, pretty).len();
            &&& ws_end(s, a) == q
            &&& q < s.len()
            &&& s[q] != ']'
            &&& holds_at(s, q, write_model(its[k], depth + 1, pretty))
            &&& r < s.len()
            &&& !is_num_char(s[r])
            &&& (k + 1 < its.len() ==> s[r] == ',' && ws_end(s, r) == r
                && r + 1 == p0 + 1 + write_items(its.take(k + 1), depth, pretty).len() + 1)
            &&& (k + 1 == its.len() ==> r == end && ws_end(s, r) == end + pad(depth, pretty).len()
                && s[end + pad(depth, pretty).len()] == ']')
        }),
{
    let all = write_items(its, depth, pretty);
    let before = write_items(its.take(k), depth, pretty).len() as int;
    let sep: int = if k > 0 { 1 } else { 0 };
    let lead = pad(depth + 1, pretty);
    let wk = write_model(its[k], depth + 1, pretty);
    let a = p0 + 1 + before + sep;
    let q = a + lead.len();
    let r = q + wk.len();
    lemma_item_layout(its, k, depth, pretty);
    lemma_holds_sub(s, p0 + 1, all, before + sep, lead);
    lemma_holds_sub(s, p0 + 1, all, before + sep + lead.len(), wk);
    lemma_first_char(its[k], depth + 1, pretty);
    assert(s[q + 0] == wk[0]);
    lemma_skip_pad(s, a, depth + 1, pretty);
    if k + 1 < its.len() {
        lemma_item_layout(its, k + 1, depth, pretty);
        assert(s[p0 + 1 + (r - p0 - 1)] == all[r - p0 - 1]);
        assert(s[r] == ',');
        lemma_ws_run(s, r, 0);
    } else {
        let tail = pad(depth, pretty);
        lemma_holds_split(s, r, tail, seq![']']);
        lemma_pad_ws(depth, pretty);
        assert(s[r + tail.len() + 0] == seq![']'][0]);
        if pretty {
            assert(s[r + 0] == tail[0]);
        }
        lemma_skip_pad(s, r, depth, pretty);
    }
}

/// The items of a written array, from the `k`-th on, read back as the
/// whole array.
#[verifier::spinoff_prover]
#[verifier::rlimit(60)]
proof fn lemma_items(its: Seq<JsonModel>, depth: nat, pretty: bool, s: Seq<char>, p0: int, k: int)
    requires
        0 <= k < its.len(),
        items_writable(its),
        holds_at(s, p0 + 1, write_items(its, depth, pretty)),
        holds_at(s, p0 + 1 + write_items(its, depth, pretty).len(), pad(depth, pretty) + seq![']']),
    ensures
        array_items(
            s,
            p0 + 1 + write_items(its.take(k), depth, pretty).len() + (if k > 0 { 1int } else { 0 }),
            its.take(k),
        ) == Ok::<(JsonModel, int), JsonError>(
            (JsonModel::Arr(its), p0 + 1 + write_items(its, depth, pretty).len() + pad(depth, pretty).len() + 1),
        ),
    decreases its, its.len() - k,
{
    let q = p0 + 1 + item_offset(its, k, depth, pretty);
    lemma_item_text(its, depth, pretty, s, p0, k);
    lemma_items_writable(its, k);
    lemma_first_char(its[k], depth + 1, pretty);
    lemma_value(its[k], depth + 1, pretty, s, q);
    assert(its.take(k).push(its[k]) =~= its.take(k + 1));
    if k + 1 < its.len() {
        lemma_items(its, depth, pretty, s, p0, k + 1);
    } else {
        assert(its.take(k + 1) =~= its);
    }
}

/// What the reader meets at the start of member `k` of a written object:
/// its key, the colon and the start of its value.
#[verifier::spinoff_prover]
#[verifier::rlimit(60)]
proof fn lemma_field_head(fs: Seq<(Seq<char>, JsonModel)>, depth: nat, pretty: bool, s: Seq<char>, p0: int, k: int)
    requires
        0 <= k < fs.len(),
        holds_at(s, p0 + 1, write_fields(fs, depth, pretty)),
        holds_at(s, p0 + 1 + write_fields(fs, depth, pretty).len(), pad(depth, pretty) + seq!['}']),
    ensures
        ({
            let a = p0 + 1 + write_fields(fs.take(k), depth, pretty).len() + (if k > 0 { 1int } else { 0 });
            let q = p0 + 1 + field_offset(fs, k, depth, pretty);
            let rk = q + escape_text(fs[k].0).len() + 2;
            let vpos = q + key_text(fs[k].0, pretty).len();
            &&& ws_end(s, a) == q
            &&& q < s.len()
            &&& s[q] != '}'
            &&& parse_string(s, q) == Ok::<(Seq<char>, int), JsonError>((fs[k].0, rk))
            &&& ws_end(s, rk) == rk
            &&& rk < s.len()
            &&& s[rk] == ':'
            &&& ws_end(s, rk + 1) == vpos
            &&& ws_end(s, vpos) == vpos
            &&& vpos <= s.len()
            &&& holds_at(s, vpos, write_model(fs[k].1, depth + 1, pretty))
            &&& rk + 1 < vpos + 1
        }),
{
    let all = write_fields(fs, depth, pretty);
    let before = write_fields(fs.take(k), depth, pretty).len() as int;
    let sep: int = if k > 0 { 1 } else { 0 };
    let lead = pad(depth + 1, pretty);
    let key = key_text(fs[k].0, pretty);
    let wk = write_model(fs[k].1, depth + 1, pretty);
    let a = p0 + 1 + before + sep;
    let q = a + lead.len();
    let vpos = q + key.len();
    lemma_field_layout(fs, k, depth, pretty);
    lemma_holds_sub(s, p0 + 1, all, before + sep, lead);
    lemma_holds_sub(s, p0 + 1, all, before + sep + lead.len(), key);
    lemma_holds_sub(s, p0 + 1, all, before + sep + lead.len() + key.len(), wk);
    lemma_first_char(fs[k].1, depth + 1, pretty);
    assert(s[vpos + 0] == wk[0]);
    lemma_key(fs[k].0, pretty, s, q);
    assert(s[q + 0] == key[0]);
    lemma_skip_pad(s, a, depth + 1, pretty);
    let rk = q + escape_text(fs[k].0).len() + 2;
    lemma_ws_run(s, rk, 0);
    lemma_ws_run(s, vpos, 0);
}

/// What the reader meets around member `k` of a written object.
#[verifier::spinoff_prover]
#[verifier::rlimit(60)]
proof fn lemma_field_text(fs: Seq<(Seq<char>, JsonModel)>, depth: nat, pretty: bool, s: Seq<char>, p0: int, k: int)
    requires
        0 <= k < fs.len(),
        holds_at(s, p0 + 1, write_fields(fs, depth, pretty)),
        holds_at(s, p0 + 1 + write_fields(fs, depth, pretty).len(), pad(depth, pretty) + seq!['}']),
    ensures
        ({
            let a = p0 + 1 + write_fields(fs.take(k), depth, pretty).len() + (if k > 0 { 1int } else { 0 });
            let q = p0 + 1 + field_offset(fs, k, depth, pretty);
            let rk = q + escape_text(fs[k].0).len() + 2;
            let vpos = q + key_text(fs[k].0, pretty).len();
            let r = vpos + write_model(fs[k].1, depth + 1, pretty).len();
            let end = p0 + 1 + write_fields(fs, depth, pretty).len();
            &&& ws_end(s, a) == q
            &&& q < s.len()
            &&& s[q] != '}'
            &&& parse_string(s, q) == Ok::<(Seq<char>, int), JsonError>((fs[k].0, rk))
            &&& ws_end(s, rk) == rk
            &&& rk < s.len()
            &&& s[rk] == ':'
            &&& parse_value(s, rk + 1) == parse_value(s, vpos)
            &&& holds_at(s, vpos, write_model(fs[k].1, depth + 1, pretty))
            &&& rk + 1 < vpos + 1
            &&& r < s.len()
            &&& !is_num_char(s[r])
            &&& (k + 1 < fs.len() ==> s[r] == ',' && ws_end(s, r) == r
                && r + 1 == p0 + 1 + write_fields(fs.take(k + 1), depth, pretty).len() + 1)
            &&& (k + 1 == fs.len() ==> r == end && ws_end(s, r) == end + pad(depth, pretty).len()
                && s[end + pad(depth, pretty).len()] == '}')
        }),
{
    let all = write_fields(fs, depth, pretty);
    let before = write_fields(fs.take(k), depth, pretty).len() as int;
    let sep: int = if k > 0 { 1 } else { 0 };
    let key = key_text(fs[k].0, pretty);
    let wk = write_model(fs[k].1, depth + 1, pretty);
    let q = p0 + 1 + before + sep + pad(depth + 1, pretty).len();
    let vpos = q + key.len();
    let r = vpos + wk.len();
    lemma_field_layout(fs, k, depth, pretty);
    lemma_field_head(fs, depth, pretty, s, p0, k);
    let rk = q + escape_text(fs[k].0).len() + 2;
    lemma_parse_value_ws(s, rk + 1, vpos);
    if k + 1 < fs.len() {
        lemma_field_layout(fs, k + 1, depth, pretty);
        assert(s[p0 + 1 + (r - p0 - 1)] == all[r - p0 - 1]);
        assert(s[r] == ',');
        lemma_ws_run(s, r, 0);
    } else {
        let tail = pad(depth, pretty);
        lemma_holds_split(s, r, tail, seq!['}']);
        lemma_pad_ws(depth, pretty);
        assert(s[r + tail.len() + 0] == seq!['}'][0]);
        if pretty {
            assert(s[r + 0] == tail[0]);
        }
        lemma_skip_pad(s, r, depth, pretty);
    }
}

/// The members of a written object, from the `k`-th on, read back as the
/// whole object.
#[verifier::spinoff_prover]
#[verifier::rlimit(60)]
proof fn lemma_fields(fs: Seq<(Seq<char>, JsonModel)>, depth: nat, pretty: bool, s: Seq<char>, p0: int, k: int)
    requires
        0 <= k < fs.len(),
        fields_writable(fs),
        holds_at(s, p0 + 1, write_fields(fs, depth, pretty)),
        holds_at(s, p0 + 1 + write_fields(fs, depth, pretty).len(), pad(depth, pretty) + seq!['}']),
    ensures
        object_items(
            s,
            p0 + 1 + write_fields(fs.take(k), depth, pretty).len() + (if k > 0 { 1int } else { 0 }),
            fs.take(k),
        ) == Ok::<(JsonModel, int), JsonError>(
            (JsonModel::Obj(fs), p0 + 1 + write_fields(fs, depth, pretty).len() + pad(depth, pretty).len() + 1),
        ),
    decreases fs, fs.len() - k,
{
    let vpos = p0 + 1 + field_offset(fs, k, depth, pretty) + key_text(fs[k].0, pretty).len();
    lemma_field_text(fs, depth, pretty, s, p0, k);
    lemma_fields_writable(fs, k);
    lemma_first_char(fs[k].1, depth + 1, pretty);
    lemma_value(fs[k].1, depth + 1, pretty, s, vpos);
    assert(fs.take(k).push((fs[k].0, fs[k].1)) =~= fs.take(k + 1));
    if k + 1 < fs.len() {
        lemma_fields(fs, depth, pretty, s, p0, k + 1);
    } else {
        assert(fs.take(k + 1) =~= fs);
    }
}

/// What the writer writes, the reader reads back: any value whose numbers
/// an `i64` holds (every `Json` value), indented or not.
pub proof fn lemma_json_roundtrip(v: JsonModel, pretty: bool)
    requires
        writable(v),
    ensures
        parse_text(write_model(v, 0, pretty)) == Ok::<JsonModel, JsonError>(v),
{
    let s = write_model(v, 0, pretty);
    lemma_value(v, 0, pretty, s, 0);
}


/// A script that asks the endpoint for `/status` reads back the report of
/// the last snapshot: the reply is 200 and its body parses to the report's
/// JSON value. Every snapshot's report has numbers an `i64` holds
/// (`to_json` says so).
pub proof fn lemma_status_reads_back(request: Seq<char>, token: Seq<char>, s: SnapshotView)
    requires
        token.len() == 0 || is_authorized(request, path_query(target_of(request)).1, token),
        path_query(target_of(request)).0 == "/status"@,
        writable(report_json(s)),
    ensures
        reply_for(request, token, Some(s)).code == 200,
        parse_text(reply_for(request, token, Some(s)).body) == Ok::<JsonModel, JsonError>(report_json(s)),
{
    lemma_json_roundtrip(report_json(s), true);
}

} // verus!

verus! {

pub proof fn lemma_split_plain(t: Seq<char>, sep: char)
    requires
        forall|i: int| 0 <= i < t.len() ==> t[i] != sep,
    ensures
        split_on(t, sep) == seq![t],
    decreases t.len(),
{
    if t.len() > 0 {
        lemma_split_plain(t.drop_last(), sep);
        assert(t[t.len() - 1] != sep);
        assert(t.drop_last().push(t.last()) =~= t);
        assert(split_on(t, sep) =~= seq![t]);
    } else {
        assert(t =~= Seq::<char>::empty());
    }
}

pub proof fn lemma_split_after(s: Seq<char>, t: Seq<char>, sep: char)
    requires
        forall|i: int| 0 <= i < t.len() ==> t[i] != sep,
    ensures
        split_on(s + seq![sep] + t, sep) == split_on(s, sep).push(t),
    decreases t.len(),
{
    let w = s + seq![sep] + t;
    if t.len() == 0 {
        assert(w.drop_last() =~= s);
        assert(t =~= Seq::<char>::empty());
    } else {
        lemma_split_after(s, t.drop_last(), sep);
        assert(w.drop_last() =~= s + seq![sep] + t.drop_last());
        assert(w.last() == t.last());
        assert(t[t.len() - 1] != sep);
        assert(t.drop_last().push(t.last()) =~= t);
        assert(split_on(w, sep) =~= split_on(s, sep).push(t));
    }
}

proof fn lemma_octet_text(n: u8)
    ensures
        forall|i: int| 0 <= i < uint_text(n as nat).len() ==> uint_text(n as nat)[i] != '.',
        trim_seq(uint_text(n as nat)) == uint_text(n as nat),
        parse_unsigned(trim_seq(uint_text(n as nat)), 255) == Some(n as nat),
{
    let t = uint_text(n as nat);
    lemma_uint_text(n as nat);
    assert(is_digit(t[0]) && is_digit(t.last()));
    assert forall|i: int| 0 <= i < t.len() implies t[i] != '.' by {
        assert(is_digit(t[i]));
    }
}

proof fn lemma_quad_octets(a: u8, b: u8, c: u8, d: u8)
    ensures
        ipv4_octets(dotted_quad(a, b, c, d)) == Some(seq![a, b, c, d]),
{
    let (ta, tb, tc, td) = (uint_text(a as nat), uint_text(b as nat), uint_text(c as nat), uint_text(d as nat));
    lemma_octet_text(a);
    lemma_octet_text(b);
    lemma_octet_text(c);
    lemma_octet_text(d);
    lemma_split_plain(ta, '.');
    lemma_split_after(ta, tb, '.');
    lemma_split_after(ta + seq!['.'] + tb, tc, '.');
    lemma_split_after(ta + seq!['.'] + tb + seq!['.'] + tc, td, '.');
    let parts = split_on(dotted_quad(a, b, c, d), '.');
    assert(parts =~= seq![ta, tb, tc, td]);
    let o = Seq::new(4, |i: int| parse_unsigned(trim_seq(parts[i]), 255)->0 as u8);
    assert(o =~= seq![a, b, c, d]);
}

/// The text of an address reads back to the same address: the octets of
/// a `u32`, in memory order, written dotted, parse to those octets and so
/// to the same value.
pub proof fn lemma_ipv4_roundtrip(value: u32)
    ensures
        ({
            let text = dotted_quad(
                (value % 0x100) as u8,
                (value / 0x100 % 0x100) as u8,
                (value / 0x10000 % 0x100) as u8,
                (value / 0x1000000) as u8,
            );
            ipv4_octets(text) matches Some(o) && le_u32(o) == value
        }),
{
    let a = (value % 0x100) as u8;
    let b = (value / 0x100 % 0x100) as u8;
    let c = (value / 0x10000 % 0x100) as u8;
    let d = (value / 0x1000000) as u8;
    lemma_quad_octets(a, b, c, d);
    assert(value % 0x100 + (value / 0x100 % 0x100) * 0x100 + (value / 0x10000 % 0x100) * 0x10000 + (value
        / 0x1000000) * 0x1000000 == value) by (bit_vector);
    assert(a == value % 0x100 && b == value / 0x100 % 0x100 && c == value / 0x10000 % 0x100 && d == value
        / 0x1000000);
    let o = seq![a, b, c, d];
    assert(o[0] == a && o[1] == b && o[2] == c && o[3] == d);
    assert(le_u32(o) == value);
}

} // verus!

verus! {

pub proof fn lemma_json_writable(j: Json)
    ensures
        writable(j.model()),
    decreases j, 0int,
{
    match j {
        Json::Arr(items) => lemma_models_writable(items@),
        Json::Obj(fields) => lemma_field_models_writable(fields@),
        _ => {},
    }
}

proof fn lemma_models_writable(s: Seq<Json>)
    ensures
        items_writable(Json::models(s)),
    decreases s, 1int,
{
    if s.len() > 0 {
        lemma_models_writable(s.drop_last());
        lemma_json_writable(s.last());
        assert(Json::models(s).drop_last() == Json::models(s.drop_last()));
    }
}

proof fn lemma_field_models_writable(s: Seq<(String, Json)>)
    ensures
        fields_writable(Json::field_models(s)),
    decreases s, 1int,
{
    if s.len() > 0 {
        lemma_field_models_writable(s.drop_last());
        lemma_json_writable(s.last().1);
        assert(Json::field_models(s).drop_last() == Json::field_models(s.drop_last()));
    }
}

/// Every `Json` value reads back from its text: `Json::parse` of what
/// `to_string_pretty` (or the compact writer) gives is the same value,
/// whatever its numbers, strings, keys and nesting.
pub proof fn lemma_every_json_reads_back(j: Json, pretty: bool)
    ensures
        parse_text(write_model(j.model(), 0, pretty)) == Ok::<JsonModel, JsonError>(j.model()),
{
    lemma_json_writable(j);
    lemma_json_roundtrip(j.model(), pretty);
}

} // verus!
