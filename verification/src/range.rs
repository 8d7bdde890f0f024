//! Arithmetic on inclusive ranges of message nonces that never overflows.

use std::ops::RangeInclusive;
use vstd::prelude::*;

verus! {

/// `RangeInclusive::start` of the standard library returns the lower bound that the
/// range was made with.
pub assume_specification<Idx>[ RangeInclusive::<Idx>::start ](range: &RangeInclusive<Idx>) -> (start:
    &Idx)
    ensures
        *start == range@.start,
;

/// `RangeInclusive::end` of the standard library returns the upper bound that the
/// range was made with.
pub assume_specification<Idx>[ RangeInclusive::<Idx>::end ](range: &RangeInclusive<Idx>) -> (end:
    &Idx)
    ensures
        *end == range@.end,
;

/// Message nonce. Valid messages never have nonce 0.
pub type MessageNonce = u64;

/// Number of nonces in the inclusive range `begin..=end`; zero when the range is inverted.
pub open spec fn range_len(begin: MessageNonce, end: MessageNonce) -> nat {
    if begin <= end {
        (end - begin + 1) as nat
    } else {
        0
    }
}

/// The count `n` as a nonce, capped at the largest nonce.
pub open spec fn saturated(n: nat) -> MessageNonce {
    if n > MessageNonce::MAX {
        MessageNonce::MAX
    } else {
        n as MessageNonce
    }
}

/// Larger of the two lower bounds: where the overlap of two ranges begins.
pub open spec fn overlap_begin(a_begin: MessageNonce, b_begin: MessageNonce) -> MessageNonce {
    if a_begin >= b_begin {
        a_begin
    } else {
        b_begin
    }
}

/// Smaller of the two upper bounds: where the overlap of two ranges ends.
pub open spec fn overlap_end(a_end: MessageNonce, b_end: MessageNonce) -> MessageNonce {
    if a_end <= b_end {
        a_end
    } else {
        b_end
    }
}

/// Number of nonces that lie in both `a_begin..=a_end` and `b_begin..=b_end`.
pub open spec fn overlap_len(
    a_begin: MessageNonce,
    a_end: MessageNonce,
    b_begin: MessageNonce,
    b_end: MessageNonce,
) -> nat {
    range_len(overlap_begin(a_begin, b_begin), overlap_end(a_end, b_end))
}

/// Length of the inclusive range `begin..=end`, saturating at the largest nonce.
///
/// An inverted range is empty. The only range whose length does not fit is
/// `0..=MessageNonce::MAX`, for which the largest nonce is returned.
pub fn saturating_len(begin: MessageNonce, end: MessageNonce) -> (len: MessageNonce)
    ensures
        len == saturated(range_len(begin, end)),
{
    if begin <= end {
        (end - begin).saturating_add(1)
    } else {
        0
    }
}

/// Length of the inclusive range `begin..=end`, or `None` when it does not fit a nonce
/// or the range is inverted.
pub fn checked_len(begin: MessageNonce, end: MessageNonce) -> (len: Option<MessageNonce>)
    ensures
        len is Some <==> begin <= end && range_len(begin, end) <= MessageNonce::MAX,
        len is Some ==> len->0 == range_len(begin, end),
{
    if begin <= end {
        (end - begin).checked_add(1)
    } else {
        None
    }
}

/// Number of nonces shared by `a_begin..=a_end` and `b_begin..=b_end`, saturating at the
/// largest nonce. Disjoint or inverted ranges share nothing.
pub fn saturating_overlap_len(
    a_begin: MessageNonce,
    a_end: MessageNonce,
    b_begin: MessageNonce,
    b_end: MessageNonce,
) -> (len: MessageNonce)
    ensures
        len == saturated(overlap_len(a_begin, a_end, b_begin, b_end)),
{
    let begin: MessageNonce = if a_begin >= b_begin { a_begin } else { b_begin };
    let end: MessageNonce = if a_end <= b_end { a_end } else { b_end };
    saturating_len(begin, end)
}

/// A nonce is counted by `overlap_len` exactly when it lies in both ranges: the overlap
/// is itself the range of the nonces that both contain.
pub proof fn lemma_overlap_is_intersection(
    a_begin: MessageNonce,
    a_end: MessageNonce,
    b_begin: MessageNonce,
    b_end: MessageNonce,
    nonce: MessageNonce,
)
    ensures
        (overlap_begin(a_begin, b_begin) <= nonce <= overlap_end(a_end, b_end)) <==> (a_begin
            <= nonce <= a_end && b_begin <= nonce <= b_end),
        overlap_len(a_begin, a_end, b_begin, b_end) <= range_len(a_begin, a_end),
        overlap_len(a_begin, a_end, b_begin, b_end) <= range_len(b_begin, b_end),
        overlap_len(a_begin, a_end, b_begin, b_end) == overlap_len(b_begin, b_end, a_begin, a_end),
{
}

/// Capping two counts first and their sum afterwards gives the capped sum of the counts:
/// a total may be kept capped while it is added up.
pub proof fn lemma_saturated_sum(a: nat, b: nat)
    ensures
        saturated((saturated(a) + saturated(b)) as nat) == saturated(a + b),
{
}

} // verus!
