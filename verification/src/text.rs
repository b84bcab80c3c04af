//! Character-level helpers shared by the parsers and formatters.
use vstd::prelude::*;

verus! {

/// Appends one character to a string.
///
/// Trusted wrapper around `String::push`: the contract claims that the
/// string afterwards holds its former characters followed by `c`.
#[verifier::external_body]
pub fn push_char(s: &mut String, c: char)
    ensures
        final(s)@ == old(s)@.push(c),
{
    s.push(c);
}

/// Appends a string slice to a string.
pub fn push_str(out: &mut String, t: &str)
    ensures
        final(out)@ == old(out)@ + t@,
{
    out.append(t);
}

/// Unicode scalar values: the codes a `char` can hold.
pub open spec fn is_scalar(code: nat) -> bool {
    code < 0xD800 || (0xE000 <= code && code <= 0x10FFFF)
}

/// The character with a given code.
///
/// Trusted wrapper around `char::from_u32`: the contract claims that it
/// returns the character for every Unicode scalar value and `None` for any
/// other code, as std documents.
#[verifier::external_body]
pub fn char_from_u32(code: u32) -> (r: Option<char>)
    ensures
        is_scalar(code as nat) ==> r == Some(code as char),
        !is_scalar(code as nat) ==> r is None,
{
    char::from_u32(code)
}

/// The characters of a string slice, in order.
pub fn chars_of(s: &str) -> (v: Vec<char>)
    ensures
        v@ == s@,
{
    let mut v: Vec<char> = Vec::new();
    for c in it: s.chars()
        invariant
            v@ == it.seq().take(it.index()),
    {
        v.push(c);
        assert(v@ == it.seq().take(it.index() + 1));
    }
    v
}

} // verus!

verus! {

/// Unicode `White_Space`, the set that `char::is_whitespace` tests.
pub open spec fn is_ws(c: char) -> bool {
    ||| ('\u{9}' <= c && c <= '\u{d}')
    ||| c == ' '
    ||| c == '\u{85}'
    ||| c == '\u{a0}'
    ||| c == '\u{1680}'
    ||| ('\u{2000}' <= c && c <= '\u{200a}')
    ||| c == '\u{2028}'
    ||| c == '\u{2029}'
    ||| c == '\u{202f}'
    ||| c == '\u{205f}'
    ||| c == '\u{3000}'
}

pub fn is_whitespace(c: char) -> (r: bool)
    ensures
        r == is_ws(c),
{
    ('\u{9}' <= c && c <= '\u{d}') || c == ' ' || c == '\u{85}' || c == '\u{a0}' || c == '\u{1680}'
        || ('\u{2000}' <= c && c <= '\u{200a}') || c == '\u{2028}' || c == '\u{2029}' || c
        == '\u{202f}' || c == '\u{205f}' || c == '\u{3000}'
}

pub open spec fn is_digit(c: char) -> bool {
    '0' <= c && c <= '9'
}

pub open spec fn digit_val(c: char) -> nat {
    (c as int - '0' as int) as nat
}

pub open spec fn digit_char(d: nat) -> char {
    ((d + '0' as nat) as u32) as char
}

/// Value of a run of decimal digits, most significant first.
pub open spec fn digits_value(s: Seq<char>) -> nat
    decreases s.len(),
{
    if s.len() == 0 {
        0
    } else {
        digits_value(s.drop_last()) * 10 + digit_val(s.last())
    }
}

pub open spec fn all_digits(s: Seq<char>) -> bool {
    forall|i: int| 0 <= i < s.len() ==> is_digit(#[trigger] s[i])
}

/// Decimal text of a natural number, as `{}` prints it.
pub open spec fn uint_text(n: nat) -> Seq<char>
    decreases n,
{
    if n < 10 {
        seq![digit_char(n)]
    } else {
        uint_text(n / 10).push(digit_char(n % 10))
    }
}

/// Decimal text of an integer, as `{}` prints it.
pub open spec fn int_text(n: int) -> Seq<char> {
    if n < 0 {
        seq!['-'] + uint_text((-n) as nat)
    } else {
        uint_text(n as nat)
    }
}

pub fn digit_to_char(d: u64) -> (c: char)
    requires
        d < 10,
    ensures
        c == digit_char(d as nat),
        is_digit(c),
        digit_val(c) == d,
{
    let c = match d {
        0 => '0',
        1 => '1',
        2 => '2',
        3 => '3',
        4 => '4',
        5 => '5',
        6 => '6',
        7 => '7',
        8 => '8',
        _ => '9',
    };
    c
}

/// Appends the decimal text of `n` to `out`.
pub fn push_uint(out: &mut String, n: u64)
    ensures
        final(out)@ == old(out)@ + uint_text(n as nat),
    decreases n,
{
    if n < 10 {
        push_char(out, digit_to_char(n));
        assert(uint_text(n as nat) == seq![digit_char(n as nat)]);
    } else {
        push_uint(out, n / 10);
        push_char(out, digit_to_char(n % 10));
    }
}

/// Appends the decimal text of `n` to `out`.
pub fn push_int(out: &mut String, n: i64)
    ensures
        final(out)@ == old(out)@ + int_text(n as int),
{
    if n < 0 {
        push_char(out, '-');
        let mag: u64 = if n == i64::MIN {
            9223372036854775808u64
        } else {
            (-n) as u64
        };
        push_uint(out, mag);
    } else {
        push_uint(out, n as u64);
    }
}

/// Unsigned decimal as `str::parse` reads it: an optional `+`, then one or
/// more ASCII digits.
pub open spec fn unsigned_digits(s: Seq<char>) -> Seq<char> {
    if s.len() > 0 && s[0] == '+' {
        s.skip(1)
    } else {
        s
    }
}

pub open spec fn parse_unsigned(s: Seq<char>, max: nat) -> Option<nat> {
    let d = unsigned_digits(s);
    if d.len() > 0 && all_digits(d) && digits_value(d) <= max {
        Some(digits_value(d))
    } else {
        None
    }
}

pub proof fn lemma_digits_value_step(s: Seq<char>, i: int)
    requires
        0 <= i < s.len(),
    ensures
        digits_value(s.take(i + 1)) == digits_value(s.take(i)) * 10 + digit_val(s[i]),
{
    assert(s.take(i + 1).drop_last() =~= s.take(i));
}

pub proof fn lemma_digits_value_mono(s: Seq<char>, i: int, j: int)
    requires
        0 <= i <= j <= s.len(),
    ensures
        digits_value(s.take(i)) <= digits_value(s.take(j)),
    decreases j - i,
{
    if i < j {
        lemma_digits_value_mono(s, i, j - 1);
        lemma_digits_value_step(s, j - 1);
    }
}

/// Reads an unsigned integer no larger than `max`, as `str::parse` does for
/// the unsigned integer types.
pub fn parse_uint(s: &[char], max: u64) -> (r: Option<u64>)
    ensures
        match r {
            Some(v) => parse_unsigned(s@, max as nat) == Some(v as nat),
            None => parse_unsigned(s@, max as nat) is None,
        },
{
    let start: usize = if s.len() > 0 && s[0] == '+' { 1 } else { 0 };
    let ghost d = unsigned_digits(s@);
    assert(d =~= s@.skip(start as int));
    if start >= s.len() {
        assert(d.len() == 0);
        return None;
    }
    let mut value: u64 = 0;
    let mut i: usize = start;
    while i < s.len()
        invariant
            start <= i <= s.len(),
            d == unsigned_digits(s@),
            d =~= s@.skip(start as int),
            value as nat == digits_value(d.take(i - start)),
            value <= max,
            all_digits(d.take(i - start)),
        decreases s.len() - i,
    {
        let c = s[i];
        proof {
            lemma_digits_value_step(d, i - start);
        }
        assert(d[i - start] == c);
        if !('0' <= c && c <= '9') {
            assert(!is_digit(d[i - start]));
            return None;
        }
        assert('0' as u32 <= c as u32 <= '9' as u32);
        let digit = (c as u32 - '0' as u32) as u64;
        assert(digit as nat == digit_val(c));
        if value > max / 10 || digit > max - value * 10 {
            proof {
                lemma_digits_value_mono(d, i - start + 1, d.len() as int);
                assert(d.take(d.len() as int) =~= d);
            }
            return None;
        }
        value = value * 10 + digit;
        assert(d.take(i + 1 - start) =~= d.take(i - start).push(c));
        i += 1;
    }
    assert(d.take(i - start) =~= d);
    Some(value)
}

} // verus!

verus! {

/// The contents of a list of strings.
pub open spec fn views(v: Seq<String>) -> Seq<Seq<char>> {
    Seq::new(v.len(), |i: int| v[i]@)
}

/// The pieces of `s` between the separators, as `str::split` yields them:
/// always at least one, empty ones included.
pub open spec fn split_on(s: Seq<char>, sep: char) -> Seq<Seq<char>>
    decreases s.len(),
{
    if s.len() == 0 {
        seq![Seq::empty()]
    } else {
        let parts = split_on(s.drop_last(), sep);
        if s.last() == sep {
            parts.push(Seq::empty())
        } else {
            parts.update(parts.len() - 1, parts.last().push(s.last()))
        }
    }
}

pub proof fn lemma_split_on_len(s: Seq<char>, sep: char)
    ensures
        split_on(s, sep).len() >= 1,
    decreases s.len(),
{
    if s.len() > 0 {
        lemma_split_on_len(s.drop_last(), sep);
    }
}

/// A string holding the given characters.
pub fn string_of(v: &Vec<char>) -> (r: String)
    ensures
        r@ == v@,
{
    let mut r = String::new();
    let mut i: usize = 0;
    while i < v.len()
        invariant
            i <= v.len(),
            r@ == v@.take(i as int),
        decreases v.len() - i,
    {
        push_char(&mut r, v[i]);
        assert(v@.take(i + 1) =~= v@.take(i as int).push(v@[i as int]));
        i += 1;
    }
    assert(v@.take(v.len() as int) =~= v@);
    r
}

/// `str::split` on one character.
pub fn split_char(s: &str, sep: char) -> (r: Vec<String>)
    ensures
        views(r@) == split_on(s@, sep),
{
    let chars = chars_of(s);
    let mut parts: Vec<String> = Vec::new();
    let mut cur = String::new();
    let mut i: usize = 0;
    assert(chars@.take(0) =~= Seq::<char>::empty());
    assert(views(parts@).push(cur@) =~= seq![Seq::<char>::empty()]);
    while i < chars.len()
        invariant
            i <= chars.len(),
            chars@ == s@,
            split_on(chars@.take(i as int), sep) == views(parts@).push(cur@),
        decreases chars.len() - i,
    {
        let c = chars[i];
        let ghost prev = chars@.take(i as int);
        assert(chars@.take(i + 1).drop_last() =~= prev);
        assert(chars@.take(i + 1).last() == c);
        if c == sep {
            let done = cur;
            parts.push(done);
            cur = String::new();
            assert(views(parts@).push(cur@) =~= split_on(prev, sep).push(Seq::empty()));
        } else {
            let ghost before = views(parts@).push(cur@);
            push_char(&mut cur, c);
            assert(views(parts@).push(cur@) =~= before.update(
                before.len() - 1,
                before.last().push(c),
            ));
        }
        i += 1;
    }
    assert(chars@.take(chars.len() as int) =~= chars@);
    parts.push(cur);
    assert(views(parts@) =~= split_on(s@, sep));
    parts
}

} // verus!

verus! {

/// Whether `pat` occurs in `s` at `i`.
pub open spec fn matches_at(s: Seq<char>, pat: Seq<char>, i: int) -> bool {
    0 <= i && i + pat.len() <= s.len() && s.subrange(i, i + pat.len()) == pat
}

/// The largest `i < k` at which `pat` occurs, or -1.
pub open spec fn last_match_below(s: Seq<char>, pat: Seq<char>, k: int) -> int
    decreases k,
{
    if k <= 0 {
        -1
    } else if matches_at(s, pat, k - 1) {
        k - 1
    } else {
        last_match_below(s, pat, k - 1)
    }
}

/// Start of the last occurrence of `pat` in `s`, or -1.
pub open spec fn last_match(s: Seq<char>, pat: Seq<char>) -> int {
    last_match_below(s, pat, s.len() as int + 1)
}

/// The smallest `i >= k` at which `pat` occurs, or -1.
pub open spec fn first_match_from(s: Seq<char>, pat: Seq<char>, k: int) -> int
    decreases s.len() + 1 - k,
{
    if k < 0 || k > s.len() {
        -1
    } else if matches_at(s, pat, k) {
        k
    } else {
        first_match_from(s, pat, k + 1)
    }
}

pub open spec fn contains_seq(s: Seq<char>, pat: Seq<char>) -> bool {
    first_match_from(s, pat, 0) >= 0
}

pub open spec fn starts_with(s: Seq<char>, pat: Seq<char>) -> bool {
    matches_at(s, pat, 0)
}

/// Whether `pat` occurs in `s` at `i`.
pub fn match_at(s: &Vec<char>, pat: &Vec<char>, i: usize) -> (r: bool)
    ensures
        r == matches_at(s@, pat@, i as int),
{
    if i > s.len() || pat.len() > s.len() - i {
        return false;
    }
    let mut k: usize = 0;
    while k < pat.len()
        invariant
            k <= pat.len(),
            i + pat.len() <= s.len(),
            forall|j: int| 0 <= j < k ==> s@[i + j] == pat@[j],
        decreases pat.len() - k,
    {
        if s[i + k] != pat[k] {
            assert(s@.subrange(i as int, i + pat.len())[k as int] != pat@[k as int]);
            return false;
        }
        k += 1;
    }
    assert(s@.subrange(i as int, i + pat.len()) =~= pat@);
    true
}

/// Start of the last occurrence of `pat` in `s`.
pub fn find_last(s: &Vec<char>, pat: &Vec<char>) -> (r: Option<usize>)
    ensures
        match r {
            Some(i) => last_match(s@, pat@) == i as int,
            None => last_match(s@, pat@) == -1,
        },
{
    let mut k: usize = s.len();
    assert(last_match(s@, pat@) == last_match_below(s@, pat@, k + 1));
    loop
        invariant
            k <= s.len(),
            last_match(s@, pat@) == last_match_below(s@, pat@, k + 1),
        decreases k,
    {
        if match_at(s, pat, k) {
            return Some(k);
        }
        if k == 0 {
            assert(last_match_below(s@, pat@, 0) == -1);
            return None;
        }
        k -= 1;
    }
}

/// Start of the first occurrence of `pat` in `s` at or after `from`.
pub fn find_first(s: &Vec<char>, pat: &Vec<char>, from: usize) -> (r: Option<usize>)
    requires
        from <= s.len(),
    ensures
        match r {
            Some(i) => first_match_from(s@, pat@, from as int) == i as int,
            None => first_match_from(s@, pat@, from as int) == -1,
        },
{
    let mut k: usize = from;
    loop
        invariant
            from <= k <= s.len(),
            first_match_from(s@, pat@, from as int) == first_match_from(s@, pat@, k as int),
        decreases s.len() - k,
    {
        if match_at(s, pat, k) {
            return Some(k);
        }
        if k == s.len() {
            assert(first_match_from(s@, pat@, k + 1) == -1);
            return None;
        }
        k += 1;
    }
}

/// Character equality of two strings.
pub fn text_eq(a: &str, b: &str) -> (r: bool)
    ensures
        r == (a@ == b@),
{
    let x = chars_of(a);
    let y = chars_of(b);
    if x.len() != y.len() {
        assert(x@.len() != y@.len());
        return false;
    }
    let mut i: usize = 0;
    while i < x.len()
        invariant
            i <= x.len(),
            x.len() == y.len(),
            x@ == a@,
            y@ == b@,
            forall|j: int| 0 <= j < i ==> x@[j] == y@[j],
        decreases x.len() - i,
    {
        if x[i] != y[i] {
            assert(x@[i as int] != y@[i as int]);
            return false;
        }
        i += 1;
    }
    assert(x@ =~= y@);
    true
}

/// The lowercase form of a text under Unicode's rules, as
/// `str::to_lowercase` computes it.
pub uninterp spec fn lowercase(s: Seq<char>) -> Seq<char>;

/// Lowercases a text.
///
/// Trusted wrapper around `str::to_lowercase`: the contract names its result
/// `lowercase` of the input, a function of the input alone.
#[verifier::external_body]
pub fn to_lower(s: &str) -> (r: String)
    ensures
        r@ == lowercase(s@),
{
    s.to_lowercase()
}

} // verus!

verus! {

pub proof fn lemma_last_match_below(s: Seq<char>, pat: Seq<char>, k: int)
    ensures
        last_match_below(s, pat, k) >= 0 ==> matches_at(s, pat, last_match_below(s, pat, k))
            && last_match_below(s, pat, k) < k,
        last_match_below(s, pat, k) >= -1,
        forall|j: int| last_match_below(s, pat, k) < j < k ==> !matches_at(s, pat, j),
    decreases k,
{
    if k > 0 && !matches_at(s, pat, k - 1) {
        lemma_last_match_below(s, pat, k - 1);
    }
}

pub proof fn lemma_last_match(s: Seq<char>, pat: Seq<char>)
    ensures
        last_match(s, pat) >= 0 ==> matches_at(s, pat, last_match(s, pat)),
        last_match(s, pat) >= -1,
        forall|j: int| last_match(s, pat) < j ==> !matches_at(s, pat, j),
{
    lemma_last_match_below(s, pat, s.len() as int + 1);
}

pub proof fn lemma_first_match_from(s: Seq<char>, pat: Seq<char>, k: int)
    requires
        0 <= k,
    ensures
        first_match_from(s, pat, k) >= 0 ==> matches_at(s, pat, first_match_from(s, pat, k))
            && k <= first_match_from(s, pat, k),
        first_match_from(s, pat, k) >= -1,
        forall|j: int|
            k <= j && (first_match_from(s, pat, k) < 0 || j < first_match_from(s, pat, k))
                ==> !matches_at(s, pat, j),
    decreases s.len() + 1 - k,
{
    if k <= s.len() && !matches_at(s, pat, k) {
        lemma_first_match_from(s, pat, k + 1);
    }
}

} // verus!

verus! {

/// A text without its leading and trailing whitespace, as `str::trim` gives.
pub open spec fn trim_seq(s: Seq<char>) -> Seq<char>
    decreases s.len(),
{
    if s.len() > 0 && is_ws(s[0]) {
        trim_seq(s.skip(1))
    } else if s.len() > 0 && is_ws(s.last()) {
        trim_seq(s.drop_last())
    } else {
        s
    }
}

proof fn lemma_trim_range(s: Seq<char>, a: int, b: int)
    requires
        0 <= a <= b <= s.len(),
        forall|k: int| 0 <= k < a ==> is_ws(#[trigger] s[k]),
        forall|k: int| b <= k < s.len() ==> is_ws(#[trigger] s[k]),
        a < b ==> !is_ws(s[a]) && !is_ws(s[b - 1]),
        a == b ==> a == s.len(),
    ensures
        trim_seq(s) == s.subrange(a, b),
    decreases s.len(),
{
    if s.len() > 0 && is_ws(s[0]) {
        lemma_trim_range(s.skip(1), a - 1, b - 1);
        assert(s.skip(1).subrange(a - 1, b - 1) =~= s.subrange(a, b));
    } else if s.len() > 0 && is_ws(s.last()) {
        lemma_trim_range(s.drop_last(), a, b);
        assert(s.drop_last().subrange(a, b) =~= s.subrange(a, b));
    } else if s.len() > 0 {
        assert(s.subrange(a, b) =~= s);
    } else {
        assert(s.subrange(a, b) =~= s);
    }
}

/// The characters of `s` without leading and trailing whitespace.
pub fn trim_chars(s: &Vec<char>) -> (r: Vec<char>)
    ensures
        r@ == trim_seq(s@),
{
    let mut a: usize = 0;
    while a < s.len() && is_whitespace(s[a])
        invariant
            a <= s.len(),
            forall|k: int| 0 <= k < a ==> is_ws(#[trigger] s@[k]),
        decreases s.len() - a,
    {
        a += 1;
    }
    let mut b: usize = s.len();
    while b > a && is_whitespace(s[b - 1])
        invariant
            a <= b <= s.len(),
            forall|k: int| b <= k < s.len() ==> is_ws(#[trigger] s@[k]),
        decreases b,
    {
        b -= 1;
    }
    proof {
        lemma_trim_range(s@, a as int, b as int);
    }
    let mut r: Vec<char> = Vec::new();
    let mut k: usize = a;
    while k < b
        invariant
            a <= k <= b <= s.len(),
            r@ == s@.subrange(a as int, k as int),
        decreases b - k,
    {
        r.push(s[k]);
        assert(r@ =~= s@.subrange(a as int, k + 1));
        k += 1;
    }
    r
}

} // verus!

verus! {

/// A copy of a list of strings.
pub fn copy_strings(v: &Vec<String>) -> (r: Vec<String>)
    ensures
        views(r@) == views(v@),
{
    let mut r: Vec<String> = Vec::new();
    let mut i: usize = 0;
    while i < v.len()
        invariant
            i <= v.len(),
            r@.len() == i,
            views(r@) == views(v@).take(i as int),
        decreases v.len() - i,
    {
        let ghost prev = r@;
        r.push(v[i].clone());
        assert forall|k: int| 0 <= k < i + 1 implies #[trigger] views(r@)[k] == views(v@).take(i + 1)[k] by {
            if k < i {
                assert(r@[k] == prev[k]);
                assert(views(prev)[k] == views(v@).take(i as int)[k]);
            }
        }
        assert(views(r@) =~= views(v@).take(i + 1));
        i += 1;
    }
    assert(views(v@).take(i as int) =~= views(v@));
    r
}

} // verus!
