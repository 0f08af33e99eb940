//! Numbers written in decimal, as `format!("{}")` writes them, and padding.

use vstd::prelude::*;
use crate::text::string_of;

verus! {

/// The character of a decimal digit.
pub open spec fn digit(d: nat) -> char {
    if d == 0 {
        '0'
    } else if d == 1 {
        '1'
    } else if d == 2 {
        '2'
    } else if d == 3 {
        '3'
    } else if d == 4 {
        '4'
    } else if d == 5 {
        '5'
    } else if d == 6 {
        '6'
    } else if d == 7 {
        '7'
    } else if d == 8 {
        '8'
    } else {
        '9'
    }
}

/// A natural number in decimal, without leading zeros.
pub open spec fn decimal(n: nat) -> Seq<char>
    decreases n,
{
    if n < 10 {
        seq![digit(n)]
    } else {
        decimal(n / 10).push(digit(n % 10))
    }
}

/// A signed number in decimal: a minus sign before the magnitude of a
/// negative one.
pub open spec fn signed_decimal(n: int) -> Seq<char> {
    if n < 0 {
        seq!['-'] + decimal((-n) as nat)
    } else {
        decimal(n as nat)
    }
}

/// `format!("{:>w}")`: spaces before `s` up to `w` characters.
pub open spec fn pad_left(s: Seq<char>, w: nat) -> Seq<char> {
    if s.len() >= w {
        s
    } else {
        Seq::new((w - s.len()) as nat, |i: int| ' ') + s
    }
}

pub fn digit_char(d: u128) -> (c: char)
    requires
        d < 10,
    ensures
        c == digit(d as nat),
{
    if d == 0 {
        '0'
    } else if d == 1 {
        '1'
    } else if d == 2 {
        '2'
    } else if d == 3 {
        '3'
    } else if d == 4 {
        '4'
    } else if d == 5 {
        '5'
    } else if d == 6 {
        '6'
    } else if d == 7 {
        '7'
    } else if d == 8 {
        '8'
    } else {
        '9'
    }
}

fn decimal_chars(n: u128) -> (r: Vec<char>)
    ensures
        r@ == decimal(n as nat),
    decreases n,
{
    if n < 10 {
        let mut v: Vec<char> = Vec::new();
        v.push(digit_char(n));
        assert(v@ =~= seq![digit(n as nat)]);
        v
    } else {
        let mut v = decimal_chars(n / 10);
        v.push(digit_char(n % 10));
        v
    }
}

/// A number in decimal.
pub fn decimal_string(n: u128) -> (r: String)
    ensures
        r@ == decimal(n as nat),
{
    let v = decimal_chars(n);
    string_of(&v)
}

/// A signed number in decimal.
pub fn signed_string(n: i64) -> (r: String)
    ensures
        r@ == signed_decimal(n as int),
{
    if n < 0 {
        let mag: u128 = (0i128 - (n as i128)) as u128;
        let d = decimal_chars(mag);
        let mut v: Vec<char> = Vec::new();
        v.push('-');
        let mut i: usize = 0;
        while i < d.len()
            invariant
                i <= d@.len(),
                v@ == seq!['-'] + d@.take(i as int),
            decreases d.len() - i,
        {
            v.push(d[i]);
            assert(v@ =~= seq!['-'] + d@.take(i + 1));
            i += 1;
        }
        assert(d@.take(d@.len() as int) =~= d@);
        string_of(&v)
    } else {
        decimal_string(n as u128)
    }
}

/// Pads a string on the left with spaces to `w` characters.
pub fn pad_left_str(s: &Vec<char>, w: usize) -> (r: String)
    ensures
        r@ == pad_left(s@, w as nat),
{
    if s.len() >= w {
        return string_of(s);
    }
    let mut v: Vec<char> = Vec::new();
    let fill = w - s.len();
    let mut i: usize = 0;
    while i < fill
        invariant
            i <= fill,
            v@ == Seq::new(i as nat, |k: int| ' '),
        decreases fill - i,
    {
        v.push(' ');
        assert(v@ =~= Seq::new((i + 1) as nat, |k: int| ' '));
        i += 1;
    }
    let mut j: usize = 0;
    while j < s.len()
        invariant
            j <= s@.len(),
            v@ == Seq::new(fill as nat, |k: int| ' ') + s@.take(j as int),
        decreases s.len() - j,
    {
        v.push(s[j]);
        assert(v@ =~= Seq::new(fill as nat, |k: int| ' ') + s@.take(j + 1));
        j += 1;
    }
    assert(s@.take(s@.len() as int) =~= s@);
    string_of(&v)
}

} // verus!
