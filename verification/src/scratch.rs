//! The private directory that one query checks its tree out into.
//!
//! Its name is a random number in decimal, so that queries that run at the
//! same time do not meet, and so that the name is one safe path segment.

use crate::sanitize::{is_safe_segment, is_separator};
use crate::text::string_of;
use vstd::prelude::*;

verus! {

/// The character of a decimal digit.
pub open spec fn digit_char(d: nat) -> char {
    if d == 0 {
        '0'
    } else if d == 1 {
        '1'
    } else if d == 2 {
        '2'
    } else if d == 3 {
        '3'
    } else if d == 4 {
        '4'
    } else if d == 5 {
        '5'
    } else if d == 6 {
        '6'
    } else if d == 7 {
        '7'
    } else if d == 8 {
        '8'
    } else {
        '9'
    }
}

/// The decimal form of `n`, without leading zeros.
pub open spec fn decimal(n: nat) -> Seq<char>
    decreases n,
{
    if n < 10 {
        seq![digit_char(n)]
    } else {
        decimal(n / 10).push(digit_char(n % 10))
    }
}

/// The name of the scratch directory that belongs to the random number
/// `token`.
pub open spec fn scratch_name_of(token: u64) -> Seq<char> {
    decimal(token as nat)
}

/// A decimal form is not empty and holds digits only.
pub proof fn lemma_decimal_digits(n: nat)
    ensures
        decimal(n).len() >= 1,
        forall|i: int|
            0 <= i < decimal(n).len() ==> '0' <= #[trigger] decimal(n)[i] && decimal(n)[i] <= '9',
    decreases n,
{
    if n >= 10 {
        lemma_decimal_digits(n / 10);
    }
}

/// The name of a scratch directory is one safe path segment, whatever the
/// number: joined onto the scratch root it names an entry of that root.
pub proof fn scratch_name_is_safe(token: u64)
    ensures
        is_safe_segment(scratch_name_of(token)),
{
    let name = scratch_name_of(token);
    lemma_decimal_digits(token as nat);
    assert(name[0] != '.');
    assert forall|i: int| 0 <= i < name.len() implies !is_separator(#[trigger] name[i]) by {
        assert('0' <= name[i] && name[i] <= '9');
    }
}

/// The character of the decimal digit `d`.
fn digit(d: u64) -> (c: char)
    requires
        d < 10,
    ensures
        c == digit_char(d as nat),
{
    if d == 0 {
        '0'
    } else if d == 1 {
        '1'
    } else if d == 2 {
        '2'
    } else if d == 3 {
        '3'
    } else if d == 4 {
        '4'
    } else if d == 5 {
        '5'
    } else if d == 6 {
        '6'
    } else if d == 7 {
        '7'
    } else if d == 8 {
        '8'
    } else {
        '9'
    }
}

/// The decimal form of `n`.
pub fn decimal_of(n: u64) -> (v: Vec<char>)
    ensures
        v@ == decimal(n as nat),
    decreases n,
{
    if n < 10 {
        let mut v: Vec<char> = Vec::new();
        v.push(digit(n));
        assert(v@ =~= seq![digit_char(n as nat)]);
        v
    } else {
        let mut v = decimal_of(n / 10);
        v.push(digit(n % 10));
        v
    }
}

/// The name of the scratch directory that belongs to `token`.
pub fn scratch_name(token: u64) -> (name: String)
    ensures
        name@ == scratch_name_of(token),
        is_safe_segment(name@),
{
    proof {
        scratch_name_is_safe(token);
    }
    let digits = decimal_of(token);
    string_of(&digits)
}

/// Trusted: `rand::random::<u64>()`, a number drawn from the thread's
/// generator, which the operating system seeds. Nothing is claimed of the
/// number: every `u64` may come back, and two calls may differ.
#[verifier::external_body]
fn random_token() -> u64 {
    rand::random::<u64>()
}

/// A fresh name for a scratch directory, drawn at random. Whatever number
/// was drawn, the name is one safe path segment.
pub fn fresh_scratch_name() -> (name: String)
    ensures
        is_safe_segment(name@),
        exists|token: u64| name@ == scratch_name_of(token),
{
    let token = random_token();
    scratch_name(token)
}

} // verus!
