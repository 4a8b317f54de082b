//! The whole-number part of a song's heat.
//!
//! The heat of a song is the sum of a whole number, which comes from its
//! votes, and of the seconds between a reference time and its upload,
//! divided by 45000. This module gives the two terms; the division is
//! fractional and is left to the caller.
use crate::numstuff::{floor_log, log10};
use crate::time::UnixTime;
use vstd::prelude::*;

verus! {

/// The votes for a song less the votes against it.
pub open spec fn vote_score(upvotes: u32, downvotes: u32) -> int {
    upvotes - downvotes
}

/// The sign that the heat gives a score: 0 for a score of zero, and -1 for
/// every other score, positive or negative.
pub open spec fn heat_sign(score: int) -> int {
    if score == 0 {
        0
    } else {
        -1
    }
}

/// The order of magnitude of a score: the floor of its decimal logarithm,
/// and 0 for a score below 1.
pub open spec fn heat_order(score: int) -> int {
    floor_log(if score >= 1 { score } else { 1 }, 10) as int
}

/// The two terms of a song's heat.
#[derive(Clone, Copy, Debug, PartialEq, Eq, Structural)]
pub struct HeatTerms {
    /// The sign of the score times its order of magnitude.
    pub magnitude: i64,
    /// The seconds from the reference time to the upload.
    pub seconds: i64,
}

/// The terms of the heat of a song with these votes, uploaded at
/// `uploaded_date`, as seen from `time_past_epoch`. There are none where the
/// seconds between the two times do not fit in 64 bits.
pub fn heat_terms(
    upvotes: u32,
    downvotes: u32,
    time_past_epoch: UnixTime,
    uploaded_date: UnixTime,
) -> (r: Option<HeatTerms>)
    ensures
        r is Some <==> i64::MIN <= uploaded_date - time_past_epoch <= i64::MAX,
        r matches Some(terms) ==> {
            &&& terms.seconds == uploaded_date - time_past_epoch
            &&& terms.magnitude == heat_sign(vote_score(upvotes, downvotes)) * heat_order(
                vote_score(upvotes, downvotes),
            )
            &&& -9 <= terms.magnitude <= 0
        },
{
    let seconds_diff: i128 = uploaded_date as i128 - time_past_epoch as i128;
    if seconds_diff < i64::MIN as i128 || seconds_diff > i64::MAX as i128 {
        return None;
    }
    let score: i64 = upvotes as i64 - downvotes as i64;
    let sign: i64 = if score == 0 {
        0
    } else {
        -1
    };
    let order: i64 = log10(if score >= 1 {
        score
    } else {
        1
    });
    proof {
        if score >= 1 {
            lemma_order_of_votes(score as int);
        }
    }
    assert(sign * order == heat_sign(score as int) * heat_order(score as int)) by (nonlinear_arith)
        requires
            sign == heat_sign(score as int),
            order == heat_order(score as int),
    ;
    assert(-9 <= sign * order <= 0) by (nonlinear_arith)
        requires
            -1 <= sign <= 0,
            0 <= order <= 9,
    ;
    Some(HeatTerms { magnitude: sign * order, seconds: seconds_diff as i64 })
}

/// A score that 32-bit vote counts can give has at most ten digits.
proof fn lemma_order_of_votes(score: int)
    requires
        1 <= score <= u32::MAX,
    ensures
        floor_log(score, 10) <= 9,
{
    crate::numstuff::lemma_floor_log_bounds(score, 10);
    let n = floor_log(score, 10);
    if n >= 10 {
        vstd::arithmetic::power::lemma_pow_increases(10, 10, n);
        reveal_with_fuel(vstd::arithmetic::power::pow, 11);
        assert(vstd::arithmetic::power::pow(10, 10) == 10_000_000_000int);
    }
}

} // verus!
