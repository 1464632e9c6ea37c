//! Vote weights and the arithmetic that keeps an idea's tally in step with
//! its votes.

use vstd::prelude::*;
use crate::types::{IdeaError, VoteCount, VoteDirection, VoteRecord};

verus! {

/// What a vote adds to the upvote total.
pub open spec fn up_part(v: VoteRecord) -> int {
    if v.direction == VoteDirection::Up { v.weight as int } else { 0 }
}

/// What a vote adds to the downvote total.
pub open spec fn down_part(v: VoteRecord) -> int {
    if v.direction == VoteDirection::Down { v.weight as int } else { 0 }
}

/// What an optional vote adds to the upvote total.
pub open spec fn opt_up(v: Option<VoteRecord>) -> int {
    match v {
        Some(r) => up_part(r),
        None => 0,
    }
}

/// What an optional vote adds to the downvote total.
pub open spec fn opt_down(v: Option<VoteRecord>) -> int {
    match v {
        Some(r) => down_part(r),
        None => 0,
    }
}

/// Whether an integer fits in an `i32`.
pub open spec fn fits_i32(x: int) -> bool {
    i32::MIN <= x <= i32::MAX
}

/// Upvotes once `old` is withdrawn from `c`.
pub open spec fn up_without(c: VoteCount, old: Option<VoteRecord>) -> int {
    c.upvotes - opt_up(old)
}

/// Downvotes once `old` is withdrawn from `c`.
pub open spec fn down_without(c: VoteCount, old: Option<VoteRecord>) -> int {
    c.downvotes - opt_down(old)
}

/// Net score once `old` is withdrawn from `c`.
pub open spec fn net_without(c: VoteCount, old: Option<VoteRecord>) -> int {
    c.net_score - opt_up(old) + opt_down(old)
}

/// Upvotes once `old` is withdrawn from `c` and `new` is added.
pub open spec fn up_with(c: VoteCount, old: Option<VoteRecord>, new: Option<VoteRecord>) -> int {
    up_without(c, old) + opt_up(new)
}

/// Downvotes once `old` is withdrawn from `c` and `new` is added.
pub open spec fn down_with(c: VoteCount, old: Option<VoteRecord>, new: Option<VoteRecord>) -> int {
    down_without(c, old) + opt_down(new)
}

/// Net score once `old` is withdrawn from `c` and `new` is added.
pub open spec fn net_with(c: VoteCount, old: Option<VoteRecord>, new: Option<VoteRecord>) -> int {
    net_without(c, old) + opt_up(new) - opt_down(new)
}

/// Every intermediate total of replacing `old` by `new` in `c` fits in an
/// `i32`: the withdrawal is done first, field by field, then the addition.
pub open spec fn delta_in_range(c: VoteCount, old: Option<VoteRecord>, new: Option<VoteRecord>) -> bool {
    &&& fits_i32(up_without(c, old))
    &&& fits_i32(down_without(c, old))
    &&& fits_i32(net_without(c, old))
    &&& fits_i32(up_with(c, old, new))
    &&& fits_i32(down_with(c, old, new))
    &&& fits_i32(net_with(c, old, new))
}

/// The tally `c` with the vote `old` withdrawn and the vote `new` added.
pub open spec fn vote_delta(c: VoteCount, old: Option<VoteRecord>, new: Option<VoteRecord>) -> VoteCount {
    VoteCount {
        upvotes: up_with(c, old, new) as i32,
        downvotes: down_with(c, old, new) as i32,
        net_score: net_with(c, old, new) as i32,
    }
}

/// Replaces the vote `old` by the vote `new` in the tally `counts`; either
/// may be absent. An upvote counts towards `upvotes` and adds its weight to
/// `net_score`; a downvote counts towards `downvotes` and takes its weight
/// from `net_score`.
pub fn apply_vote_delta(counts: VoteCount, old: Option<VoteRecord>, new: Option<VoteRecord>) -> (r: VoteCount)
    requires
        delta_in_range(counts, old, new),
    ensures
        r == vote_delta(counts, old, new),
        r.upvotes == up_with(counts, old, new),
        r.downvotes == down_with(counts, old, new),
        r.net_score == net_with(counts, old, new),
{
    let mut c = counts;
    if let Some(v) = old {
        match v.direction {
            VoteDirection::Up => {
                c.upvotes = c.upvotes - v.weight;
                c.net_score = c.net_score - v.weight;
            },
            VoteDirection::Down => {
                c.downvotes = c.downvotes - v.weight;
                c.net_score = c.net_score + v.weight;
            },
        }
    }
    if let Some(v) = new {
        match v.direction {
            VoteDirection::Up => {
                c.upvotes = c.upvotes + v.weight;
                c.net_score = c.net_score + v.weight;
            },
            VoteDirection::Down => {
                c.downvotes = c.downvotes + v.weight;
                c.net_score = c.net_score - v.weight;
            },
        }
    }
    c
}

/// What an optional vote adds to the upvote total, as a machine integer.
fn up_of(v: Option<VoteRecord>) -> (r: i64)
    ensures
        r == opt_up(v),
{
    match v {
        Some(rec) => match rec.direction {
            VoteDirection::Up => rec.weight as i64,
            VoteDirection::Down => 0,
        },
        None => 0,
    }
}

/// What an optional vote adds to the downvote total, as a machine integer.
fn down_of(v: Option<VoteRecord>) -> (r: i64)
    ensures
        r == opt_down(v),
{
    match v {
        Some(rec) => match rec.direction {
            VoteDirection::Down => rec.weight as i64,
            VoteDirection::Up => 0,
        },
        None => 0,
    }
}

/// Whether replacing `old` by `new` in `counts` keeps every intermediate
/// total in the `i32` range, that is, whether `apply_vote_delta` may be
/// called on these arguments.
pub fn delta_fits(counts: VoteCount, old: Option<VoteRecord>, new: Option<VoteRecord>) -> (r: bool)
    ensures
        r == delta_in_range(counts, old, new),
{
    let lo = i32::MIN as i64;
    let hi = i32::MAX as i64;
    let uo = up_of(old);
    let dn = down_of(old);
    let un = up_of(new);
    let dw = down_of(new);
    let up1 = counts.upvotes as i64 - uo;
    let down1 = counts.downvotes as i64 - dn;
    let net1 = counts.net_score as i64 - uo + dn;
    let up2 = up1 + un;
    let down2 = down1 + dw;
    let net2 = net1 + un - dw;
    lo <= up1 && up1 <= hi && lo <= down1 && down1 <= hi && lo <= net1 && net1 <= hi
        && lo <= up2 && up2 <= hi && lo <= down2 && down2 <= hi && lo <= net2 && net2 <= hi
}

/// The weight that a reputation score gives a vote: the score divided by
/// one hundred, rounded towards zero, refused unless it is positive.
pub open spec fn weight_for_score(score: i32) -> Result<i32, IdeaError> {
    if score >= 100 {
        Ok((score / 100) as i32)
    } else {
        Err(IdeaError::InvalidVoteWeight)
    }
}

/// The weight that a reputation score gives a vote. Scores under one
/// hundred round to a weight of zero or less and are refused.
pub fn reputation_weight(score: i32) -> (r: Result<i32, IdeaError>)
    ensures
        r == weight_for_score(score),
        r matches Ok(w) ==> w > 0 && 100 * w <= score < 100 * w + 100,
{
    if score < 100 {
        Err(IdeaError::InvalidVoteWeight)
    } else {
        Ok(score / 100)
    }
}

/// Withdrawing a vote right after adding it gives back the tally one
/// started from.
pub proof fn lemma_remove_undoes_add(c: VoteCount, v: VoteRecord)
    requires
        delta_in_range(c, None, Some(v)),
    ensures
        delta_in_range(vote_delta(c, None, Some(v)), Some(v), None),
        vote_delta(vote_delta(c, None, Some(v)), Some(v), None) == c,
{
}

/// Replacing a vote in one step gives the same tally as withdrawing it and
/// then adding the new one.
pub proof fn lemma_change_is_remove_then_add(c: VoteCount, old: VoteRecord, new: VoteRecord)
    requires
        delta_in_range(c, Some(old), Some(new)),
    ensures
        delta_in_range(c, Some(old), None),
        delta_in_range(vote_delta(c, Some(old), None), None, Some(new)),
        vote_delta(vote_delta(c, Some(old), None), None, Some(new)) == vote_delta(c, Some(old), Some(new)),
{
}

/// Every tally update keeps the net score equal to upvotes minus downvotes.
pub proof fn lemma_delta_keeps_net(c: VoteCount, old: Option<VoteRecord>, new: Option<VoteRecord>)
    requires
        c.net_score == c.upvotes - c.downvotes,
        delta_in_range(c, old, new),
    ensures
        vote_delta(c, old, new).net_score == vote_delta(c, old, new).upvotes - vote_delta(c, old, new).downvotes,
{
}

} // verus!
