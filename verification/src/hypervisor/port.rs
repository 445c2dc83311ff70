//! Selection of a free host port: the ports of a range are tried once
//! each, starting at an offset that moves on with every reservation so
//! that concurrent reservations spread over the range.

use vstd::prelude::*;
use crate::text::{decimal, push_decimal, push_str};

verus! {

/// First port of the default range.
pub const RANGE_START: u16 = 5000;
/// Last port of the default range.
pub const RANGE_END: u16 = 65000;

/// Why no port was reserved.
pub enum PortError {
    /// The range's start is above its end.
    InvalidRange,
    /// Every port of the range is in use.
    Exhausted { start: u16, end: u16 },
}

/// The message of a port error.
pub open spec fn port_error_message(e: PortError) -> Seq<char> {
    match e {
        PortError::InvalidRange => "port range start must not exceed its end"@,
        PortError::Exhausted { start, end } => "no free TCP port in range "@ + decimal(start as nat) + "..="@
            + decimal(end as nat),
    }
}

impl PortError {
    /// The message, as the error's `Display` writes it.
    pub fn to_string(&self) -> (s: String)
        ensures
            s@ == port_error_message(*self),
    {
        match self {
            PortError::InvalidRange => String::from_str("port range start must not exceed its end"),
            PortError::Exhausted { start, end } => {
                let s = push_decimal(String::from_str("no free TCP port in range "), *start as u64);
                push_decimal(push_str(s, "..="), *end as u64)
            },
        }
    }
}

/// The number of ports in `start..=end`; an inverted range is refused.
pub fn port_range_len(start: u16, end: u16) -> (r: Result<usize, PortError>)
    ensures
        start > end ==> r matches Err(PortError::InvalidRange),
        start <= end ==> r == Ok::<usize, PortError>((end - start + 1) as usize),
{
    if start > end {
        Err(PortError::InvalidRange)
    } else {
        Ok((end - start) as usize + 1)
    }
}

/// Where a reservation starts in a range of `range_len` ports, from the
/// count of reservations made so far.
pub fn first_offset(counter: usize, range_len: usize) -> (o: usize)
    requires
        range_len > 0,
    ensures
        o == counter % range_len,
        o < range_len,
{
    counter % range_len
}

/// The port tried at step `offset` of a reservation that starts at
/// `first` in the range beginning at `start`.
pub open spec fn candidate(start: u16, range_len: usize, first: usize, offset: usize) -> int {
    start + ((first + offset) % (range_len as int))
}

/// The port tried at a step of a reservation.
pub fn candidate_port(start: u16, end: u16, first: usize, offset: usize) -> (p: u16)
    requires
        start <= end,
        first < (end - start + 1),
        offset < (end - start + 1),
    ensures
        p == candidate(start, (end - start + 1) as usize, first, offset),
        start <= p <= end,
{
    let range_len: usize = (end - start) as usize + 1;
    let step: usize = (first + offset) % range_len;
    proof {
        vstd::arithmetic::div_mod::lemma_mod_bound((first + offset) as int, range_len as int);
    }
    start + (step as u16)
}

/// Law: a reservation tries every port of its range exactly once: the
/// ports tried at distinct steps differ, and all lie in the range.
pub proof fn candidates_cover_range_once(start: u16, end: u16, first: usize, a: usize, b: usize)
    requires
        start <= end,
        first < (end - start + 1),
        a < (end - start + 1),
        b < (end - start + 1),
    ensures
        start <= candidate(start, (end - start + 1) as usize, first, a) <= end,
        a != b ==> candidate(start, (end - start + 1) as usize, first, a) != candidate(
            start,
            (end - start + 1) as usize,
            first,
            b,
        ),
{
    let n = (end - start + 1) as usize;
    lemma_wrap(first as int, a as int, n as int);
    lemma_wrap(first as int, b as int, n as int);
}

proof fn lemma_wrap(f: int, o: int, n: int)
    requires
        0 <= f < n,
        0 <= o < n,
    ensures
        (f + o) % n == if f + o < n {
            f + o
        } else {
            f + o - n
        },
{
    if f + o < n {
        vstd::arithmetic::div_mod::lemma_small_mod((f + o) as nat, n as nat);
    } else {
        vstd::arithmetic::div_mod::lemma_small_mod((f + o - n) as nat, n as nat);
        vstd::arithmetic::div_mod::lemma_mod_add_multiples_vanish(f + o - n, n);
    }
}

} // verus!
