//! Local time as the report and the panel print it.
use vstd::prelude::*;
use crate::text::{push_char, push_uint, uint_text};

verus! {

/// A calendar date and time of day, as the system reports local time.
#[allow(non_camel_case_types)]
#[derive(Clone, Copy, Debug, PartialEq, Eq, Structural)]
pub struct SYSTEMTIME {
    pub year: u16,
    pub month: u16,
    pub day_of_week: u16,
    pub day: u16,
    pub hour: u16,
    pub minute: u16,
    pub second: u16,
    pub milliseconds: u16,
}

/// Zeros in front of `n`'s digits up to `width` characters, as `{:0w}`
/// prints it.
pub open spec fn padded(n: nat, width: nat) -> Seq<char> {
    let digits = uint_text(n);
    if digits.len() < width {
        Seq::new((width - digits.len()) as nat, |i: int| '0') + digits
    } else {
        digits
    }
}

fn push_padded(out: &mut String, n: u16, width: usize)
    requires
        width <= 4,
    ensures
        final(out)@ == old(out)@ + padded(n as nat, width as nat),
{
    let ghost before = out@;
    let digits: usize = if n >= 10000 {
        5
    } else if n >= 1000 {
        4
    } else if n >= 100 {
        3
    } else if n >= 10 {
        2
    } else {
        1
    };
    proof {
        lemma_uint_text_len(n as nat);
    }
    assert(uint_text(n as nat).len() == digits);
    let mut k: usize = digits;
    while k < width
        invariant
            digits <= k <= width || (width < digits && k == digits),
            out@ == before + Seq::new((k - digits) as nat, |i: int| '0'),
        decreases width - k,
    {
        push_char(out, '0');
        assert(out@ =~= before + Seq::new((k + 1 - digits) as nat, |i: int| '0'));
        k += 1;
    }
    push_uint(out, n as u64);
    if digits < width {
        assert(out@ =~= before + padded(n as nat, width as nat));
    } else {
        assert(Seq::new((k - digits) as nat, |i: int| '0') =~= Seq::<char>::empty());
        assert(out@ =~= before + padded(n as nat, width as nat));
    }
}

proof fn lemma_uint_text_len(n: nat)
    requires
        n < 100000,
    ensures
        uint_text(n).len() == (if n >= 10000 {
            5int
        } else if n >= 1000 {
            4
        } else if n >= 100 {
            3
        } else if n >= 10 {
            2
        } else {
            1
        }),
{
    reveal_with_fuel(uint_text, 5);
}

/// `yyyy-MM-dd HH:mm:ss`.
pub open spec fn time_text(t: SYSTEMTIME) -> Seq<char> {
    padded(t.year as nat, 4) + seq!['-'] + padded(t.month as nat, 2) + seq!['-'] + padded(t.day as nat, 2) + seq![' ']
        + clock_text(t)
}

/// `HH:mm:ss`.
pub open spec fn clock_text(t: SYSTEMTIME) -> Seq<char> {
    padded(t.hour as nat, 2) + seq![':'] + padded(t.minute as nat, 2) + seq![':'] + padded(t.second as nat, 2)
}

pub fn clock_string(t: &SYSTEMTIME) -> (r: String)
    ensures
        r@ == clock_text(*t),
{
    let mut out = String::new();
    push_padded(&mut out, t.hour, 2);
    push_char(&mut out, ':');
    push_padded(&mut out, t.minute, 2);
    push_char(&mut out, ':');
    push_padded(&mut out, t.second, 2);
    assert(out@ =~= clock_text(*t));
    out
}

pub fn time_string(t: &SYSTEMTIME) -> (r: String)
    ensures
        r@ == time_text(*t),
{
    let mut out = String::new();
    push_padded(&mut out, t.year, 4);
    push_char(&mut out, '-');
    push_padded(&mut out, t.month, 2);
    push_char(&mut out, '-');
    push_padded(&mut out, t.day, 2);
    push_char(&mut out, ' ');
    let ghost before = out@;
    push_padded(&mut out, t.hour, 2);
    push_char(&mut out, ':');
    push_padded(&mut out, t.minute, 2);
    push_char(&mut out, ':');
    push_padded(&mut out, t.second, 2);
    assert(out@ =~= time_text(*t));
    out
}

} // verus!
