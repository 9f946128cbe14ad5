//! Fixed-width decimal rendering for the score, level and time readouts.

use vstd::prelude::*;

verus! {

/// The decimal digit character for `d` in `0..10`.
pub open spec fn spec_digit(d: int) -> char {
    if d == 0 {
        '0'
    } else if d == 1 {
        '1'
    } else if d == 2 {
        '2'
    } else if d == 3 {
        '3'
    } else if d == 4 {
        '4'
    } else if d == 5 {
        '5'
    } else if d == 6 {
        '6'
    } else if d == 7 {
        '7'
    } else if d == 8 {
        '8'
    } else {
        '9'
    }
}

/// The decimal digit characters of `v`, most significant first, with no
/// leading zeros (except for `v == 0`, which is the single digit `0`).
pub open spec fn spec_decimal(v: nat) -> Seq<char>
    decreases v,
{
    if v < 10 {
        seq![spec_digit(v as int)]
    } else {
        spec_decimal(v / 10).push(spec_digit((v % 10) as int))
    }
}

/// The decimal digits of `v`, left-padded with zeros up to `capacity`
/// characters; longer values are kept whole.
pub open spec fn spec_padded_decimal(v: nat, capacity: nat) -> Seq<char> {
    let d = spec_decimal(v);
    if d.len() >= capacity {
        d
    } else {
        Seq::new((capacity - d.len()) as nat, |i: int| '0') + d
    }
}

/// Relies on `String`'s `FromIterator<char>` implementation: collecting
/// an iterator of chars yields the string of exactly those chars, in
/// order.
#[verifier::external_body]
fn chars_to_string(chars: Vec<char>) -> (r: String)
    ensures
        r@ == chars@,
{
    chars.into_iter().collect()
}

/// The digit character for `d` in `0..10`.
fn digit_char(d: u16) -> (c: char)
    requires
        d < 10,
    ensures
        c == spec_digit(d as int),
{
    match d {
        0 => '0',
        1 => '1',
        2 => '2',
        3 => '3',
        4 => '4',
        5 => '5',
        6 => '6',
        7 => '7',
        8 => '8',
        _ => '9',
    }
}

/// Appends the decimal digits of `v` to `out`, most significant first.
fn push_decimal(v: u16, out: &mut Vec<char>)
    ensures
        final (out)@ == old(out)@ + spec_decimal(v as nat),
    decreases v,
{
    if v < 10 {
        out.push(digit_char(v));
    } else {
        push_decimal(v / 10, out);
        out.push(digit_char(v % 10));
    }
}

/// Renders `value` in decimal, left-padded with zeros to `capacity`
/// characters; a value with more digits than `capacity` is kept whole.
pub fn cast_with_capacity(value: u16, capacity: usize) -> (r: String)
    ensures
        r@ == spec_padded_decimal(value as nat, capacity as nat),
{
    let mut digits: Vec<char> = Vec::new();
    push_decimal(value, &mut digits);
    let need: usize = if capacity > digits.len() {
        capacity - digits.len()
    } else {
        0
    };
    let mut chars: Vec<char> = Vec::new();
    let mut k: usize = 0;
    while k < need
        invariant
            k <= need,
            chars@.len() == k,
            forall|i: int| 0 <= i < k ==> chars@[i] == '0',
        decreases need - k,
    {
        chars.push('0');
        k = k + 1;
    }
    chars.append(&mut digits);
    proof {
        if spec_decimal(value as nat).len() >= capacity as nat {
            assert(chars@ =~= spec_padded_decimal(value as nat, capacity as nat));
        } else {
            assert(chars@ =~= spec_padded_decimal(value as nat, capacity as nat));
        }
    }
    chars_to_string(chars)
}

} // verus!
