//! What each operation does, stated over the fields of the state and the
//! operation's inputs: which requests are accepted, what an accepted request
//! records, and what it leaves alone.

use vstd::prelude::*;
use crate::board::{
    Ballot, IdeaState, ballot_index, ballots_wf, has_ballot, lemma_ballot_index_unique,
    lemma_other_voter_kept, lemma_removed_voter_gone,
};
use crate::oracle::{resolution_of, VerifierState};
use crate::tally::{delta_in_range, vote_delta, weight_for_score};
use crate::types::{IdeaError, Resolution, ResolutionResult, VerifierError, VoteDirection, VoteRecord, zero_count};

verus! {

// ─── Weights and tallies ────────────────────────────────────────────────────

/// A score gives the weight score / 100, rounded down, for every score of at
/// least one hundred; every lower score is refused.
pub proof fn law_weight_is_score_over_100(score: i32)
    ensures
        score >= 100 ==> weight_for_score(score) == Ok::<i32, IdeaError>((score / 100) as i32),
        score >= 100 ==> 100 * ((score / 100) as i32) <= score < 100 * ((score / 100) as i32) + 100,
        score < 100 ==> weight_for_score(score) == Err::<i32, IdeaError>(IdeaError::InvalidVoteWeight),
{
}

/// Casting a vote adds its weight to the total of its direction, and to the
/// net score for an up vote or from it for a down vote.
pub proof fn law_cast_vote_counts(c: crate::types::VoteCount, v: VoteRecord)
    requires
        delta_in_range(c, None, Some(v)),
    ensures
        v.direction == VoteDirection::Up ==> vote_delta(c, None, Some(v)) == (crate::types::VoteCount {
            upvotes: (c.upvotes + v.weight) as i32,
            downvotes: c.downvotes,
            net_score: (c.net_score + v.weight) as i32,
        }),
        v.direction == VoteDirection::Down ==> vote_delta(c, None, Some(v)) == (crate::types::VoteCount {
            upvotes: c.upvotes,
            downvotes: (c.downvotes + v.weight) as i32,
            net_score: (c.net_score - v.weight) as i32,
        }),
{
}

/// Withdrawing a vote takes its weight off the total of its direction, and
/// gives back what it did to the net score.
pub proof fn law_withdrawn_vote_counts(c: crate::types::VoteCount, v: VoteRecord)
    requires
        delta_in_range(c, Some(v), None),
    ensures
        v.direction == VoteDirection::Up ==> vote_delta(c, Some(v), None) == (crate::types::VoteCount {
            upvotes: (c.upvotes - v.weight) as i32,
            downvotes: c.downvotes,
            net_score: (c.net_score - v.weight) as i32,
        }),
        v.direction == VoteDirection::Down ==> vote_delta(c, Some(v), None) == (crate::types::VoteCount {
            upvotes: c.upvotes,
            downvotes: (c.downvotes - v.weight) as i32,
            net_score: (c.net_score + v.weight) as i32,
        }),
{
}

// ─── Reading votes ──────────────────────────────────────────────────────────

/// A voter's vote is the record of the ballot that holds the voter, and a
/// voter without a ballot has none.
pub proof fn law_vote_is_ballot(s: IdeaState, id: i128, j: int, voter: Seq<char>)
    requires
        s.wf(),
        1 <= id <= s.ideas.len(),
    ensures
        0 <= j < s.ballots[id - 1].len() ==> s.vote_of(id, s.ballots[id - 1][j].voter@) == Some(
            s.ballots[id - 1][j].record,
        ),
        (forall|k: int| 0 <= k < s.ballots[id - 1].len() ==> (#[trigger] s.ballots[id - 1][k]).voter@ != voter) ==> s.vote_of(
            id,
            voter,
        ) is None,
{
    assert(ballots_wf(s.ballots[id - 1]));
    if 0 <= j < s.ballots[id - 1].len() {
        lemma_ballot_index_unique(s.ballots[id - 1], j);
    }
}

/// Whether the ballots hold `r` as `v`'s vote.
spec fn holds_vote(b: Seq<Ballot>, v: Seq<char>, r: VoteRecord) -> bool {
    exists|k: int| 0 <= k < b.len() && b[k].voter@ == v && b[k].record == r
}

/// On a board whose ballots on the idea are well formed, every voter other
/// than `voter` keeps their vote through replacing the ballots `s0` by `t`,
/// provided the voters and records other than `voter` are the same.
proof fn lemma_others_kept(s: IdeaState, n: IdeaState, id: i128, voter: Seq<char>)
    requires
        s.wf(),
        n.wf(),
        1 <= id <= s.ideas.len(),
        n.ideas.len() == s.ideas.len(),
        forall|v: Seq<char>, r: VoteRecord| #![trigger holds_vote(s.ballots[id - 1], v, r)]
            v != voter ==> (holds_vote(s.ballots[id - 1], v, r) <==> holds_vote(n.ballots[id - 1], v, r)),
    ensures
        forall|v: Seq<char>| v != voter ==> n.vote_of(id, v) == s.vote_of(id, v),
{
    assert forall|v: Seq<char>| v != voter implies n.vote_of(id, v) == s.vote_of(id, v) by {
        let a = s.ballots[id - 1];
        let b = n.ballots[id - 1];
        assert(ballots_wf(a));
        assert(ballots_wf(b));
        if has_ballot(a, v) {
            let k = ballot_index(a, v);
            lemma_ballot_index_unique(a, k);
            let r = a[k].record;
            assert(holds_vote(a, v, r));
            assert(holds_vote(b, v, r));
            let x = choose|x: int| 0 <= x < b.len() && b[x].voter@ == v && b[x].record == r;
            lemma_ballot_index_unique(b, x);
        } else if has_ballot(b, v) {
            let k = ballot_index(b, v);
            lemma_ballot_index_unique(b, k);
            let r = b[k].record;
            assert(holds_vote(b, v, r));
            assert(holds_vote(a, v, r));
            let x = choose|x: int| 0 <= x < a.len() && a[x].voter@ == v && a[x].record == r;
            assert(has_ballot(a, v));
        }
    }
}

// ─── Votes ──────────────────────────────────────────────────────────────────

/// A new vote on an open idea by a voter who has not voted, with a
/// reputation contract configured and a score of at least one hundred, is
/// accepted with weight score / 100: the voter's vote is then that direction
/// and weight, the idea's tally moves by the weight, and every other vote
/// and every other idea's tally stay as they were.
pub proof fn law_vote_accepted(s: IdeaState, id: i128, voter: String, direction: VoteDirection, score: i32)
    requires
        s.wf(),
        1 <= id <= s.ideas.len(),
        !s.ideas[id - 1].deleted,
        s.vote_of(id, voter@) is None,
        s.reputation_contract is Some,
        score >= 100,
        s.vote_in_range(id, voter@, direction, score),
    ensures
        ({
            let w = (score / 100) as i32;
            let rec = VoteRecord { direction, weight: w };
            let n = s.after_vote(id, Ballot { voter, record: rec });
            &&& s.vote_check(id, voter@, score) == Ok::<i32, IdeaError>(w)
            &&& n.wf()
            &&& n.vote_of(id, voter@) == Some(rec)
            &&& n.counts[id - 1].upvotes == s.counts[id - 1].upvotes + (if direction == VoteDirection::Up { w as int } else { 0 })
            &&& n.counts[id - 1].downvotes == s.counts[id - 1].downvotes + (if direction == VoteDirection::Down { w as int } else { 0 })
            &&& n.counts[id - 1].net_score == n.counts[id - 1].upvotes - n.counts[id - 1].downvotes
            &&& n.ideas == s.ideas
            &&& forall|v: Seq<char>| v != voter@ ==> n.vote_of(id, v) == s.vote_of(id, v)
            &&& forall|other: i128| 1 <= other <= s.ideas.len() && other != id ==> n.ballots_of(other) == s.ballots_of(other) && n.count_of(other) == s.count_of(other)
        }),
{
    let w = (score / 100) as i32;
    let rec = VoteRecord { direction, weight: w };
    let b = Ballot { voter, record: rec };
    let n = s.after_vote(id, b);
    let a = s.ballots_of(id);
    assert(!has_ballot(a, voter@));
    s.lemma_vote_keeps_wf(id, b);
    let t = n.ballots[id - 1];
    assert(t == a.push(b));
    law_vote_is_ballot(n, id, a.len() as int, voter@);
    assert(counts_parts(s, id));
    law_cast_vote_counts(s.count_of(id), rec);
    assert forall|v: Seq<char>, r: VoteRecord| #![trigger holds_vote(a, v, r)] v != voter@ implies (holds_vote(a, v, r) <==> holds_vote(t, v, r)) by {
        if holds_vote(a, v, r) {
            let k = choose|k: int| 0 <= k < a.len() && a[k].voter@ == v && a[k].record == r;
            assert(t[k] == a[k]);
        }
        if holds_vote(t, v, r) {
            let k = choose|k: int| 0 <= k < t.len() && t[k].voter@ == v && t[k].record == r;
            assert(k < a.len());
            assert(t[k] == a[k]);
        }
    }
    lemma_others_kept(s, n, id, voter@);
}

/// The stored tally of an idea agrees with its ballots (an unfolding used by
/// the laws above).
spec fn counts_parts(s: IdeaState, id: i128) -> bool {
    s.counts[id - 1] == s.count_of(id) && s.ballots[id - 1] == s.ballots_of(id)
}

/// Changing a vote on an open idea, with a reputation contract configured
/// and a score of at least one hundred, is accepted with weight score / 100
/// whatever the old vote was: the voter's vote is then the new direction and
/// weight, the idea's tally loses the old vote and gains the new one, and
/// every other vote stays as it was.
pub proof fn law_change_accepted(s: IdeaState, id: i128, voter: String, direction: VoteDirection, score: i32)
    requires
        s.wf(),
        1 <= id <= s.ideas.len(),
        !s.ideas[id - 1].deleted,
        s.vote_of(id, voter@) is Some,
        s.reputation_contract is Some,
        score >= 100,
        s.change_in_range(id, voter@, direction, score),
    ensures
        ({
            let w = (score / 100) as i32;
            let rec = VoteRecord { direction, weight: w };
            let old_vote = s.vote_of(id, voter@)->Some_0;
            let n = s.after_change(id, voter, rec);
            &&& s.change_check(id, voter@, score) == Ok::<i32, IdeaError>(w)
            &&& n.wf()
            &&& n.vote_of(id, voter@) == Some(rec)
            &&& n.counts[id - 1].upvotes == s.counts[id - 1].upvotes
                - (if old_vote.direction == VoteDirection::Up { old_vote.weight as int } else { 0 })
                + (if direction == VoteDirection::Up { w as int } else { 0 })
            &&& n.counts[id - 1].downvotes == s.counts[id - 1].downvotes
                - (if old_vote.direction == VoteDirection::Down { old_vote.weight as int } else { 0 })
                + (if direction == VoteDirection::Down { w as int } else { 0 })
            &&& n.counts[id - 1].net_score == n.counts[id - 1].upvotes - n.counts[id - 1].downvotes
            &&& n.ideas == s.ideas
            &&& forall|v: Seq<char>| v != voter@ ==> n.vote_of(id, v) == s.vote_of(id, v)
        }),
{
    let w = (score / 100) as i32;
    let rec = VoteRecord { direction, weight: w };
    let a = s.ballots_of(id);
    let j = ballot_index(a, voter@);
    assert(ballots_wf(a));
    s.lemma_change_keeps_wf(id, voter, rec);
    s.lemma_change_replaces_vote(id, voter, rec);
    s.lemma_remove_in_range(id, voter@);
    let old_vote = s.vote_of(id, voter@)->Some_0;
    crate::tally::lemma_change_is_remove_then_add(s.count_of(id), old_vote, rec);
    let n = s.after_change(id, voter, rec);
    let b = Ballot { voter, record: rec };
    let m = a.remove(j);
    let t = n.ballots[id - 1];
    assert(t == m.push(b));
    assert(counts_parts(s, id));
    assert forall|v: Seq<char>, r: VoteRecord| #![trigger holds_vote(a, v, r)] v != voter@ implies (holds_vote(a, v, r) <==> holds_vote(t, v, r)) by {
        if holds_vote(a, v, r) {
            let k = choose|k: int| 0 <= k < a.len() && a[k].voter@ == v && a[k].record == r;
            assert(k != j);
            if k < j {
                assert(t[k] == a[k]);
            } else {
                assert(t[k - 1] == a[k]);
            }
        }
        if holds_vote(t, v, r) {
            let k = choose|k: int| 0 <= k < t.len() && t[k].voter@ == v && t[k].record == r;
            assert(k < m.len());
            if k < j {
                assert(t[k] == a[k]);
            } else {
                assert(t[k] == a[k + 1]);
            }
        }
    }
    lemma_others_kept(s, n, id, voter@);
}

/// Withdrawing a vote on an open idea is accepted exactly when the voter has
/// one; it returns that vote, leaves the voter without a vote, takes the
/// vote off the tally and keeps every other vote.
pub proof fn law_remove_accepted(s: IdeaState, id: i128, voter: Seq<char>)
    requires
        s.wf(),
        1 <= id <= s.ideas.len(),
        !s.ideas[id - 1].deleted,
        s.vote_of(id, voter) is Some,
    ensures
        ({
            let old_vote = s.vote_of(id, voter)->Some_0;
            let n = s.after_remove(id, voter);
            &&& s.remove_check(id, voter) == Ok::<VoteRecord, IdeaError>(old_vote)
            &&& n.wf()
            &&& n.vote_of(id, voter) is None
            &&& n.counts[id - 1].upvotes == s.counts[id - 1].upvotes
                - (if old_vote.direction == VoteDirection::Up { old_vote.weight as int } else { 0 })
            &&& n.counts[id - 1].downvotes == s.counts[id - 1].downvotes
                - (if old_vote.direction == VoteDirection::Down { old_vote.weight as int } else { 0 })
            &&& n.counts[id - 1].net_score == n.counts[id - 1].upvotes - n.counts[id - 1].downvotes
            &&& n.ideas == s.ideas
            &&& forall|v: Seq<char>| v != voter ==> n.vote_of(id, v) == s.vote_of(id, v)
        }),
{
    let a = s.ballots_of(id);
    let j = ballot_index(a, voter);
    assert(ballots_wf(a));
    s.lemma_remove_keeps_wf(id, voter);
    s.lemma_remove_in_range(id, voter);
    let old_vote = s.vote_of(id, voter)->Some_0;
    law_withdrawn_vote_counts(s.count_of(id), old_vote);
    let n = s.after_remove(id, voter);
    let t = n.ballots[id - 1];
    assert(t == a.remove(j));
    lemma_removed_voter_gone(a, j);
    assert(counts_parts(s, id));
    assert forall|v: Seq<char>, r: VoteRecord| #![trigger holds_vote(a, v, r)] v != voter implies (holds_vote(a, v, r) <==> holds_vote(t, v, r)) by {
        if holds_vote(a, v, r) {
            let k = choose|k: int| 0 <= k < a.len() && a[k].voter@ == v && a[k].record == r;
            assert(k != j);
            if k < j {
                assert(t[k] == a[k]);
            } else {
                assert(t[k - 1] == a[k]);
            }
        }
        if holds_vote(t, v, r) {
            let k = choose|k: int| 0 <= k < t.len() && t[k].voter@ == v && t[k].record == r;
            if k < j {
                assert(t[k] == a[k]);
            } else {
                assert(t[k] == a[k + 1]);
            }
        }
    }
    lemma_others_kept(s, n, id, voter);
}

/// Which vote requests are refused, and with which error, in terms of the
/// board: a missing idea, a deleted one, a voter who has (or, to change or
/// withdraw, has not) voted, no reputation contract, a score under one
/// hundred.
pub proof fn law_vote_refusals(s: IdeaState, id: i128, voter: Seq<char>, score: i32)
    ensures
        !(1 <= id <= s.ideas.len()) ==> s.vote_check(id, voter, score) == Err::<i32, IdeaError>(IdeaError::NotFound)
            && s.change_check(id, voter, score) == Err::<i32, IdeaError>(IdeaError::NotFound)
            && s.remove_check(id, voter) == Err::<VoteRecord, IdeaError>(IdeaError::NotFound),
        (1 <= id <= s.ideas.len() && s.ideas[id - 1].deleted) ==> s.vote_check(id, voter, score) == Err::<i32, IdeaError>(
            IdeaError::Deleted,
        ) && s.change_check(id, voter, score) == Err::<i32, IdeaError>(IdeaError::Deleted) && s.remove_check(id, voter)
            == Err::<VoteRecord, IdeaError>(IdeaError::Deleted),
        (1 <= id <= s.ideas.len() && !s.ideas[id - 1].deleted) ==> {
            &&& s.vote_of(id, voter) is Some ==> s.vote_check(id, voter, score) == Err::<i32, IdeaError>(IdeaError::VoteAlreadyExists)
            &&& s.vote_of(id, voter) is None ==> s.change_check(id, voter, score) == Err::<i32, IdeaError>(IdeaError::VoteNotFound)
                && s.remove_check(id, voter) == Err::<VoteRecord, IdeaError>(IdeaError::VoteNotFound)
            &&& s.reputation_contract is None ==> s.vote_check(id, voter, score) is Err && s.change_check(id, voter, score) is Err
            &&& (s.reputation_contract is None && s.vote_of(id, voter) is None) ==> s.vote_check(id, voter, score)
                == Err::<i32, IdeaError>(IdeaError::ReputationContractNotConfigured)
            &&& (s.reputation_contract is None && s.vote_of(id, voter) is Some) ==> s.change_check(id, voter, score)
                == Err::<i32, IdeaError>(IdeaError::ReputationContractNotConfigured)
            &&& (s.reputation_contract is Some && score < 100 && s.vote_of(id, voter) is None) ==> s.vote_check(id, voter, score)
                == Err::<i32, IdeaError>(IdeaError::InvalidVoteWeight)
            &&& (s.reputation_contract is Some && score < 100 && s.vote_of(id, voter) is Some) ==> s.change_check(id, voter, score)
                == Err::<i32, IdeaError>(IdeaError::InvalidVoteWeight)
        },
{
}

// ─── Ideas ──────────────────────────────────────────────────────────────────

/// Creating an idea appends one idea whose fields are the inputs: the next
/// id, the author, title, body and category given, both times equal to
/// `now`, not deleted, with no vote and a zero tally; every idea already
/// there stays as it was.
pub proof fn law_create_fields(s: IdeaState, author: String, title: Vec<u8>, body: Vec<u8>, category: Vec<u8>, now: u64)
    requires
        s.wf(),
        s.ideas.len() < usize::MAX,
    ensures
        ({
            let n = s.after_create(author, title, body, category, now);
            let k = s.ideas.len() as int;
            let d = n.ideas[k];
            &&& n.ideas.len() == k + 1
            &&& d.id == k + 1
            &&& d.author == author && d.title == title && d.body == body && d.category == category
            &&& d.created_at == now && d.updated_at == now && !d.deleted
            &&& n.ballots[k].len() == 0
            &&& n.counts[k] == zero_count()
            &&& forall|i: int| 0 <= i < k ==> n.ideas[i] == s.ideas[i] && n.ballots[i] == s.ballots[i] && n.counts[i] == s.counts[i]
            &&& n.reputation_contract == s.reputation_contract
        }),
{
    let n = s.after_create(author, title, body, category, now);
    let k = s.ideas.len() as int;
    assert(n.ideas[k] == s.new_idea(author, title, body, category, now));
    assert(n.ballots[k] == Seq::<Ballot>::empty());
    assert(n.counts[k] == zero_count());
}

/// Editing an idea is accepted exactly for its author while it exists and is
/// not deleted; anyone else gets `Unauthorized`, a deleted idea `Deleted`,
/// a missing one `NotFound`.
pub proof fn law_edit_acceptance(s: IdeaState, id: i128, caller: Seq<char>)
    ensures
        (s.editable(id, caller) is Ok) <==> (1 <= id <= s.ideas.len() && !s.ideas[id - 1].deleted && s.ideas[id - 1].author@ == caller),
        !(1 <= id <= s.ideas.len()) ==> s.editable(id, caller) == Err::<(), IdeaError>(IdeaError::NotFound),
        (1 <= id <= s.ideas.len() && s.ideas[id - 1].deleted) ==> s.editable(id, caller) == Err::<(), IdeaError>(IdeaError::Deleted),
        (1 <= id <= s.ideas.len() && !s.ideas[id - 1].deleted && s.ideas[id - 1].author@ != caller) ==> s.editable(id, caller)
            == Err::<(), IdeaError>(IdeaError::Unauthorized),
{
}

/// Replacing an idea's body changes only its body and its update time: its
/// id, author, title, category, creation time and deleted flag stay, as do
/// every other idea, every vote and every tally.
pub proof fn law_update_fields(s: IdeaState, id: i128, body: Vec<u8>, now: u64)
    requires
        1 <= id <= s.ideas.len(),
    ensures
        ({
            let n = s.after_update(id, body, now);
            let d = n.ideas[id - 1];
            let o = s.ideas[id - 1];
            &&& n.ideas.len() == s.ideas.len()
            &&& d.body == body && d.updated_at == now
            &&& d.id == o.id && d.author == o.author && d.title == o.title && d.category == o.category
            &&& d.created_at == o.created_at && d.deleted == o.deleted
            &&& forall|i: int| 0 <= i < s.ideas.len() && i != id - 1 ==> n.ideas[i] == s.ideas[i]
            &&& n.ballots == s.ballots && n.counts == s.counts
            &&& n.by_author == s.by_author && n.by_category == s.by_category
        }),
{
}

/// Deleting an idea only marks it deleted and sets its update time: its id,
/// author, title, body, category and creation time stay, as do every other
/// idea, every vote and every tally.
pub proof fn law_delete_fields(s: IdeaState, id: i128, now: u64)
    requires
        1 <= id <= s.ideas.len(),
    ensures
        ({
            let n = s.after_delete(id, now);
            let d = n.ideas[id - 1];
            let o = s.ideas[id - 1];
            &&& n.ideas.len() == s.ideas.len()
            &&& d.deleted && d.updated_at == now
            &&& d.id == o.id && d.author == o.author && d.title == o.title && d.body == o.body && d.category == o.category
            &&& d.created_at == o.created_at
            &&& forall|i: int| 0 <= i < s.ideas.len() && i != id - 1 ==> n.ideas[i] == s.ideas[i]
            &&& n.ballots == s.ballots && n.counts == s.counts
            &&& n.by_author == s.by_author && n.by_category == s.by_category
        }),
{
}

// ─── Prediction verifier ────────────────────────────────────────────────────

/// `init` is accepted exactly while no admin is set, and makes its argument
/// the admin without touching the whitelist or the resolutions.
pub proof fn law_init(s: VerifierState, admin: Seq<char>)
    ensures
        (s.init_check() is Ok) <==> s.admin is None,
        s.admin is Some ==> s.init_check() == Err::<(), VerifierError>(VerifierError::AlreadyInitialised),
        s.initialised(admin).admin == Some(admin),
        s.initialised(admin).oracles == s.oracles,
        s.initialised(admin).resolutions == s.resolutions,
{
}

/// The admin, and only the admin, manages the whitelist, whatever the
/// whitelist holds: the check passes exactly when the caller is the admin,
/// fails with `NotInitialised` before `init` and with `Unauthorized` for
/// anyone else.
pub proof fn law_admin_check(s: VerifierState, caller: Seq<char>)
    ensures
        (s.admin_check(caller) is Ok) <==> s.admin == Some(caller),
        s.admin is None ==> s.admin_check(caller) == Err::<(), VerifierError>(VerifierError::NotInitialised),
        (s.admin is Some && s.admin != Some(caller)) ==> s.admin_check(caller) == Err::<(), VerifierError>(
            VerifierError::Unauthorized,
        ),
{
}

/// Whitelisting and revoking change only the whitelist: the admin and the
/// resolutions stay. Whitelisting appends a new oracle after the others and
/// leaves a listed one where it is.
pub proof fn law_whitelist_changes(s: VerifierState, oracle: Seq<char>)
    ensures
        s.with_oracle(oracle).admin == s.admin,
        s.with_oracle(oracle).resolutions == s.resolutions,
        s.without_oracle(oracle).admin == s.admin,
        s.without_oracle(oracle).resolutions == s.resolutions,
        !s.oracles.contains(oracle) ==> s.with_oracle(oracle).oracles.len() == s.oracles.len() + 1
            && s.with_oracle(oracle).oracles[s.oracles.len() as int] == oracle,
        s.oracles.contains(oracle) ==> s.with_oracle(oracle).oracles == s.oracles,
        forall|i: int| 0 <= i < s.oracles.len() ==> s.with_oracle(oracle).oracles[i] == s.oracles[i],
{
}

/// A resolution request is accepted exactly when the oracle is
/// whitelisted, the ledger time is past the deadline and the prediction is
/// not yet resolved; refusals come in that order.
pub proof fn law_resolve_acceptance(s: VerifierState, oracle: Seq<char>, prediction_id: i128, deadline: u64, now: u64)
    ensures
        (s.resolve_check(oracle, prediction_id, deadline, now) is Ok) <==> (s.oracles.contains(oracle) && now > deadline
            && !s.resolutions.contains_key(prediction_id)),
        !s.oracles.contains(oracle) ==> s.resolve_check(oracle, prediction_id, deadline, now) == Err::<(), VerifierError>(
            VerifierError::OracleNotAuthorized,
        ),
        (s.oracles.contains(oracle) && now <= deadline) ==> s.resolve_check(oracle, prediction_id, deadline, now) == Err::<
            (),
            VerifierError,
        >(VerifierError::DeadlineNotReached),
        (s.oracles.contains(oracle) && now > deadline && s.resolutions.contains_key(prediction_id)) ==> s.resolve_check(
            oracle,
            prediction_id,
            deadline,
            now,
        ) == Err::<(), VerifierError>(VerifierError::AlreadyResolved),
{
}

/// An accepted resolution records exactly what the oracle reported: the
/// prediction id, the actual price, the oracle, the timestamp given, and a
/// result that is `Correct` exactly when the actual price reached the
/// target. Nothing else changes.
pub proof fn law_resolution_fields(
    s: VerifierState,
    oracle: String,
    prediction_id: i128,
    actual_price: u128,
    target_price: u128,
    resolution_timestamp: u64,
)
    ensures
        ({
            let n = s.with_resolution(resolution_of(oracle, prediction_id, actual_price, target_price, resolution_timestamp));
            let r: Resolution = n.resolutions[prediction_id];
            &&& n.resolutions.contains_key(prediction_id)
            &&& r.prediction_id == prediction_id
            &&& r.actual_price == actual_price
            &&& r.oracle == oracle
            &&& r.resolution_timestamp == resolution_timestamp
            &&& (r.result == ResolutionResult::Correct) <==> actual_price >= target_price
            &&& (r.result == ResolutionResult::Incorrect) <==> actual_price < target_price
            &&& forall|p: i128| p != prediction_id ==> (n.resolutions.contains_key(p) == s.resolutions.contains_key(p)
                && n.resolutions[p] == s.resolutions[p])
            &&& n.admin == s.admin && n.oracles == s.oracles
        }),
{
}

/// Setting the reputation contract records it and changes nothing else.
pub proof fn law_set_reputation(s: IdeaState, contract: Seq<char>)
    ensures
        s.with_reputation(contract).reputation_contract == Some(contract),
        s.with_reputation(contract).ideas == s.ideas,
        s.with_reputation(contract).ballots == s.ballots,
        s.with_reputation(contract).counts == s.counts,
        s.with_reputation(contract).by_author == s.by_author,
        s.with_reputation(contract).by_category == s.by_category,
{
}

/// The checks before asking for a weight pass exactly on an open idea with
/// a reputation contract configured, for a voter who has not voted (to
/// vote) or who has (to change), and then name the configured contract.
pub proof fn law_prechecks_accept(s: IdeaState, id: i128, voter: Seq<char>)
    ensures
        (1 <= id <= s.ideas.len() && !s.ideas[id - 1].deleted && s.vote_of(id, voter) is None
            && s.reputation_contract is Some) ==> s.vote_precheck(id, voter) == Ok::<Seq<char>, IdeaError>(
            s.reputation_contract->Some_0,
        ),
        (s.vote_precheck(id, voter) is Ok) ==> (1 <= id <= s.ideas.len() && !s.ideas[id - 1].deleted
            && s.vote_of(id, voter) is None && s.reputation_contract is Some),
        (1 <= id <= s.ideas.len() && !s.ideas[id - 1].deleted && s.vote_of(id, voter) is Some
            && s.reputation_contract is Some) ==> s.change_precheck(id, voter) == Ok::<Seq<char>, IdeaError>(
            s.reputation_contract->Some_0,
        ),
        (s.change_precheck(id, voter) is Ok) ==> (1 <= id <= s.ideas.len() && !s.ideas[id - 1].deleted
            && s.vote_of(id, voter) is Some && s.reputation_contract is Some),
{
}

/// A new vote may be applied exactly when the total it adds to stays at
/// most `i32::MAX`; only an accepted vote is limited.
pub proof fn law_vote_in_range(s: IdeaState, id: i128, voter: Seq<char>, direction: VoteDirection, score: i32)
    requires
        s.wf(),
    ensures
        s.vote_in_range(id, voter, direction, score) <==> (s.vote_check(id, voter, score) matches Ok(w) ==> (
            if direction == VoteDirection::Up {
                s.counts[id - 1].upvotes + w <= i32::MAX
            } else {
                s.counts[id - 1].downvotes + w <= i32::MAX
            })),
{
    if s.vote_check(id, voter, score) is Ok {
        s.lemma_counts_are_tallies(id);
        assert(s.count_of(id) == s.counts[id - 1]);
    }
}

/// A changed vote may be applied exactly when, with the old vote taken
/// off, the total the new vote adds to stays at most `i32::MAX`.
pub proof fn law_change_in_range(s: IdeaState, id: i128, voter: Seq<char>, direction: VoteDirection, score: i32)
    requires
        s.wf(),
    ensures
        s.change_in_range(id, voter, direction, score) <==> (s.change_check(id, voter, score) matches Ok(w) ==> ({
            let o = s.vote_of(id, voter)->Some_0;
            if direction == VoteDirection::Up {
                s.counts[id - 1].upvotes - (if o.direction == VoteDirection::Up { o.weight as int } else { 0 }) + w <= i32::MAX
            } else {
                s.counts[id - 1].downvotes - (if o.direction == VoteDirection::Down { o.weight as int } else { 0 }) + w <= i32::MAX
            }
        })),
{
    if s.change_check(id, voter, score) is Ok {
        s.lemma_counts_are_tallies(id);
        assert(s.count_of(id) == s.counts[id - 1]);
        s.lemma_remove_in_range(id, voter);
        let b = s.ballots_of(id);
        let j = ballot_index(b, voter);
        assert(ballots_wf(s.ballots[id - 1]));
        crate::board::lemma_tally_covers(b, j, VoteDirection::Up);
        crate::board::lemma_tally_covers(b, j, VoteDirection::Down);
    }
}

/// Revoking a listed oracle removes it alone and keeps the others in their
/// order.
pub proof fn law_revoke_keeps_order(s: VerifierState, oracle: Seq<char>, i: int)
    requires
        s.wf(),
        0 <= i < s.oracles.len(),
        s.oracles[i] == oracle,
    ensures
        s.without_oracle(oracle).oracles.len() == s.oracles.len() - 1,
        forall|k: int| 0 <= k < i ==> s.without_oracle(oracle).oracles[k] == s.oracles[k],
        forall|k: int| i <= k < s.oracles.len() - 1 ==> s.without_oracle(oracle).oracles[k] == s.oracles[k + 1],
{
    assert(s.oracles.contains(oracle));
    let j = s.oracles.index_of(oracle);
    assert(s.oracles[j] == oracle);
    assert(j == i);
}

} // verus!
