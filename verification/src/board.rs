//! The idea board as a mathematical state: ideas in creation order, the
//! ballots cast on each, each idea's stored tally, the per-author and
//! per-category lists of idea ids, and the configured reputation contract.
//! Each operation of the board is a function on this state.

use vstd::prelude::*;
use crate::tally::{delta_in_range, vote_delta, weight_for_score};
use crate::types::{IdeaData, IdeaError, VoteCount, VoteDirection, VoteRecord, zero_count};

verus! {

/// One voter's vote on an idea; the voter is held by its address text.
#[derive(Debug)]
pub struct Ballot {
    pub voter: String,
    pub record: VoteRecord,
}

/// What a vote adds to the total of direction `d`.
pub open spec fn weight_in(r: VoteRecord, d: VoteDirection) -> int {
    if r.direction == d { r.weight as int } else { 0 }
}

/// The summed weight of the ballots in direction `d`.
pub open spec fn tally(s: Seq<Ballot>, d: VoteDirection) -> int
    decreases s.len(),
{
    if s.len() == 0 {
        0
    } else {
        tally(s.drop_last(), d) + weight_in(s.last().record, d)
    }
}

/// A stored tally agrees with the ballots it counts.
pub open spec fn counts_match(c: VoteCount, s: Seq<Ballot>) -> bool {
    &&& c.upvotes == tally(s, VoteDirection::Up)
    &&& c.downvotes == tally(s, VoteDirection::Down)
    &&& c.net_score == c.upvotes - c.downvotes
}

/// Each voter has at most one ballot, and every weight is positive.
pub open spec fn ballots_wf(s: Seq<Ballot>) -> bool {
    &&& forall|i: int, j: int| 0 <= i < s.len() && 0 <= j < s.len() && i != j ==> s[i].voter@ != s[j].voter@
    &&& forall|i: int| 0 <= i < s.len() ==> s[i].record.weight > 0
}

/// Whether `voter` has a ballot in `s`.
pub open spec fn has_ballot(s: Seq<Ballot>, voter: Seq<char>) -> bool {
    exists|j: int| 0 <= j < s.len() && s[j].voter@ == voter
}

/// The position of `voter`'s ballot in `s`.
pub open spec fn ballot_index(s: Seq<Ballot>, voter: Seq<char>) -> int {
    choose|j: int| 0 <= j < s.len() && s[j].voter@ == voter
}

/// The ids, in order, of the ideas in `s` that `sel` selects.
pub open spec fn ids_where(s: Seq<IdeaData>, sel: spec_fn(IdeaData) -> bool) -> Seq<i128>
    decreases s.len(),
{
    if s.len() == 0 {
        Seq::empty()
    } else if sel(s.last()) {
        ids_where(s.drop_last(), sel).push(s.last().id)
    } else {
        ids_where(s.drop_last(), sel)
    }
}

/// Selects the ideas by `author`.
pub open spec fn by_author_sel(author: Seq<char>) -> spec_fn(IdeaData) -> bool {
    |d: IdeaData| d.author@ == author
}

/// Selects the ideas in `category`.
pub open spec fn by_category_sel(category: Seq<u8>) -> spec_fn(IdeaData) -> bool {
    |d: IdeaData| d.category@ == category
}

/// The list stored under `k`, empty where nothing is stored.
pub open spec fn listed<K>(m: Map<K, Seq<i128>>, k: K) -> Seq<i128> {
    if m.contains_key(k) { m[k] } else { Seq::empty() }
}

/// The board's state.
pub struct IdeaState {
    pub ideas: Seq<IdeaData>,
    pub ballots: Seq<Seq<Ballot>>,
    pub counts: Seq<VoteCount>,
    pub by_author: Map<Seq<char>, Seq<i128>>,
    pub by_category: Map<Seq<u8>, Seq<i128>>,
    pub reputation_contract: Option<Seq<char>>,
}

impl IdeaState {
    /// A board with no idea and no reputation contract.
    pub open spec fn empty() -> IdeaState {
        IdeaState {
            ideas: Seq::empty(),
            ballots: Seq::empty(),
            counts: Seq::empty(),
            by_author: Map::empty(),
            by_category: Map::empty(),
            reputation_contract: None,
        }
    }

    /// What every reachable board satisfies: ids are 1, 2, 3, ... in
    /// creation order; each voter has one ballot per idea; each stored tally
    /// is the sum of the idea's ballots; and the author and category lists
    /// hold exactly the ids of the matching ideas, in creation order.
    pub open spec fn wf(self) -> bool {
        &&& self.ballots.len() == self.ideas.len()
        &&& self.counts.len() == self.ideas.len()
        &&& forall|i: int| 0 <= i < self.ideas.len() ==> #[trigger] self.ideas[i].id == i + 1
        &&& forall|i: int| 0 <= i < self.ideas.len() ==> ballots_wf(#[trigger] self.ballots[i])
        &&& forall|i: int| 0 <= i < self.ideas.len() ==> counts_match(#[trigger] self.counts[i], self.ballots[i])
        &&& forall|a: Seq<char>| #[trigger] listed(self.by_author, a) == ids_where(self.ideas, by_author_sel(a))
        &&& forall|c: Seq<u8>| #[trigger] listed(self.by_category, c) == ids_where(self.ideas, by_category_sel(c))
    }

    /// Whether an idea with this id exists.
    pub open spec fn has_idea(self, id: i128) -> bool {
        1 <= id <= self.ideas.len()
    }

    /// The idea with this id.
    pub open spec fn idea(self, id: i128) -> IdeaData {
        self.ideas[id - 1]
    }

    /// The ballots cast on the idea with this id.
    pub open spec fn ballots_of(self, id: i128) -> Seq<Ballot> {
        self.ballots[id - 1]
    }

    /// The stored tally of the idea with this id.
    pub open spec fn count_of(self, id: i128) -> VoteCount {
        self.counts[id - 1]
    }

    /// The vote that `voter` has on the idea, if any.
    pub open spec fn vote_of(self, id: i128, voter: Seq<char>) -> Option<VoteRecord> {
        if self.has_idea(id) && has_ballot(self.ballots_of(id), voter) {
            Some(self.ballots_of(id)[ballot_index(self.ballots_of(id), voter)].record)
        } else {
            None
        }
    }

    /// Whether the idea accepts votes: it must exist and not be deleted.
    pub open spec fn votable(self, id: i128) -> Result<(), IdeaError> {
        if !self.has_idea(id) {
            Err(IdeaError::NotFound)
        } else if self.idea(id).deleted {
            Err(IdeaError::Deleted)
        } else {
            Ok(())
        }
    }

    /// Whether `caller` may edit the idea: it must exist, not be deleted,
    /// and be authored by `caller`.
    pub open spec fn editable(self, id: i128, caller: Seq<char>) -> Result<(), IdeaError> {
        if !self.has_idea(id) {
            Err(IdeaError::NotFound)
        } else if self.idea(id).deleted {
            Err(IdeaError::Deleted)
        } else if self.idea(id).author@ != caller {
            Err(IdeaError::Unauthorized)
        } else {
            Ok(())
        }
    }

    /// The reputation contract to ask for a weight.
    pub open spec fn reputation_check(self) -> Result<Seq<char>, IdeaError> {
        match self.reputation_contract {
            Some(c) => Ok(c),
            None => Err(IdeaError::ReputationContractNotConfigured),
        }
    }

    /// The checks that come before asking for a new vote's weight, in
    /// order; on success, the reputation contract to ask.
    pub open spec fn vote_precheck(self, id: i128, voter: Seq<char>) -> Result<Seq<char>, IdeaError> {
        if self.votable(id) is Err {
            Err(self.votable(id)->Err_0)
        } else if self.vote_of(id, voter) is Some {
            Err(IdeaError::VoteAlreadyExists)
        } else {
            self.reputation_check()
        }
    }

    /// The checks that come before asking for a changed vote's weight, in
    /// order; on success, the reputation contract to ask.
    pub open spec fn change_precheck(self, id: i128, voter: Seq<char>) -> Result<Seq<char>, IdeaError> {
        if self.votable(id) is Err {
            Err(self.votable(id)->Err_0)
        } else if self.vote_of(id, voter) is None {
            Err(IdeaError::VoteNotFound)
        } else {
            self.reputation_check()
        }
    }

    /// Outcome of a new vote whose voter has reputation `score`: on
    /// success, the weight it is cast with.
    pub open spec fn vote_check(self, id: i128, voter: Seq<char>, score: i32) -> Result<i32, IdeaError> {
        match self.vote_precheck(id, voter) {
            Err(e) => Err(e),
            Ok(_) => weight_for_score(score),
        }
    }

    /// Outcome of changing a vote whose voter has reputation `score`: on
    /// success, the weight it is cast with.
    pub open spec fn change_check(self, id: i128, voter: Seq<char>, score: i32) -> Result<i32, IdeaError> {
        match self.change_precheck(id, voter) {
            Err(e) => Err(e),
            Ok(_) => weight_for_score(score),
        }
    }

    /// Outcome of withdrawing a vote: on success, the vote withdrawn.
    pub open spec fn remove_check(self, id: i128, voter: Seq<char>) -> Result<VoteRecord, IdeaError> {
        if self.votable(id) is Err {
            Err(self.votable(id)->Err_0)
        } else if self.vote_of(id, voter) is None {
            Err(IdeaError::VoteNotFound)
        } else {
            Ok(self.vote_of(id, voter)->Some_0)
        }
    }

    /// A new vote does not take the idea's tally out of the `i32` range.
    pub open spec fn vote_in_range(self, id: i128, voter: Seq<char>, direction: VoteDirection, score: i32) -> bool {
        self.vote_check(id, voter, score) matches Ok(w) ==> delta_in_range(
            self.count_of(id),
            None,
            Some(VoteRecord { direction, weight: w }),
        )
    }

    /// A changed vote does not take the idea's tally out of the `i32` range.
    pub open spec fn change_in_range(self, id: i128, voter: Seq<char>, direction: VoteDirection, score: i32) -> bool {
        self.change_check(id, voter, score) matches Ok(w) ==> delta_in_range(
            self.count_of(id),
            self.vote_of(id, voter),
            Some(VoteRecord { direction, weight: w }),
        )
    }

    /// The idea that `create_idea` makes.
    pub open spec fn new_idea(self, author: String, title: Vec<u8>, body: Vec<u8>, category: Vec<u8>, now: u64) -> IdeaData {
        IdeaData {
            id: (self.ideas.len() + 1) as i128,
            author,
            title,
            body,
            category,
            created_at: now,
            updated_at: now,
            deleted: false,
        }
    }

    /// The board after an idea is created.
    pub open spec fn after_create(self, author: String, title: Vec<u8>, body: Vec<u8>, category: Vec<u8>, now: u64) -> IdeaState {
        let d = self.new_idea(author, title, body, category, now);
        IdeaState {
            ideas: self.ideas.push(d),
            ballots: self.ballots.push(Seq::empty()),
            counts: self.counts.push(zero_count()),
            by_author: self.by_author.insert(author@, listed(self.by_author, author@).push(d.id)),
            by_category: self.by_category.insert(category@, listed(self.by_category, category@).push(d.id)),
            ..self
        }
    }

    /// The board after the idea's body is replaced at time `now`.
    pub open spec fn after_update(self, id: i128, body: Vec<u8>, now: u64) -> IdeaState {
        IdeaState {
            ideas: self.ideas.update(id - 1, IdeaData { body, updated_at: now, ..self.idea(id) }),
            ..self
        }
    }

    /// The board after the idea is marked deleted at time `now`.
    pub open spec fn after_delete(self, id: i128, now: u64) -> IdeaState {
        IdeaState {
            ideas: self.ideas.update(id - 1, IdeaData { deleted: true, updated_at: now, ..self.idea(id) }),
            ..self
        }
    }

    /// The board after `ballot` is cast on the idea.
    pub open spec fn after_vote(self, id: i128, ballot: Ballot) -> IdeaState {
        IdeaState {
            ballots: self.ballots.update(id - 1, self.ballots_of(id).push(ballot)),
            counts: self.counts.update(id - 1, vote_delta(self.count_of(id), None, Some(ballot.record))),
            ..self
        }
    }

    /// The board after `voter`'s vote on the idea is replaced by `record`:
    /// the old vote is withdrawn and the new one cast.
    pub open spec fn after_change(self, id: i128, voter: String, record: VoteRecord) -> IdeaState {
        self.after_remove(id, voter@).after_vote(id, Ballot { voter, record })
    }

    /// The board after `voter`'s vote on the idea is withdrawn.
    pub open spec fn after_remove(self, id: i128, voter: Seq<char>) -> IdeaState {
        let s = self.ballots_of(id);
        let j = ballot_index(s, voter);
        IdeaState {
            ballots: self.ballots.update(id - 1, s.remove(j)),
            counts: self.counts.update(id - 1, vote_delta(self.count_of(id), Some(s[j].record), None)),
            ..self
        }
    }

    /// The board with `contract` as its reputation contract.
    pub open spec fn with_reputation(self, contract: Seq<char>) -> IdeaState {
        IdeaState { reputation_contract: Some(contract), ..self }
    }
}

/// Adding a ballot adds its weight to the tally of its direction.
pub proof fn lemma_tally_push(s: Seq<Ballot>, b: Ballot, d: VoteDirection)
    ensures
        tally(s.push(b), d) == tally(s, d) + weight_in(b.record, d),
{
    assert(s.push(b).drop_last() =~= s);
}

/// Replacing a ballot swaps its weight for the new one's.
pub proof fn lemma_tally_update(s: Seq<Ballot>, j: int, b: Ballot, d: VoteDirection)
    requires
        0 <= j < s.len(),
    ensures
        tally(s.update(j, b), d) == tally(s, d) - weight_in(s[j].record, d) + weight_in(b.record, d),
    decreases s.len(),
{
    let t = s.update(j, b);
    if j == s.len() - 1 {
        assert(t.drop_last() =~= s.drop_last());
    } else {
        assert(t.drop_last() =~= s.drop_last().update(j, b));
        lemma_tally_update(s.drop_last(), j, b, d);
    }
}

/// Withdrawing a ballot takes its weight off the tally of its direction.
pub proof fn lemma_tally_remove(s: Seq<Ballot>, j: int, d: VoteDirection)
    requires
        0 <= j < s.len(),
    ensures
        tally(s.remove(j), d) == tally(s, d) - weight_in(s[j].record, d),
    decreases s.len(),
{
    let t = s.remove(j);
    if j == s.len() - 1 {
        assert(t =~= s.drop_last());
    } else {
        assert(t.drop_last() =~= s.drop_last().remove(j));
        assert(t.last() == s.last());
        lemma_tally_remove(s.drop_last(), j, d);
    }
}

/// Tallies of ballots with positive weights are never negative.
pub proof fn lemma_tally_nonneg(s: Seq<Ballot>, d: VoteDirection)
    requires
        forall|i: int| 0 <= i < s.len() ==> s[i].record.weight > 0,
    ensures
        tally(s, d) >= 0,
    decreases s.len(),
{
    if s.len() > 0 {
        lemma_tally_nonneg(s.drop_last(), d);
    }
}

/// A ballot's weight is part of its direction's tally.
pub proof fn lemma_tally_covers(s: Seq<Ballot>, j: int, d: VoteDirection)
    requires
        0 <= j < s.len(),
        forall|i: int| 0 <= i < s.len() ==> s[i].record.weight > 0,
    ensures
        tally(s, d) >= weight_in(s[j].record, d),
{
    lemma_tally_remove(s, j, d);
    lemma_tally_nonneg(s.remove(j), d);
}

/// In ballots where each voter appears once, a voter's ballot is the one
/// found at any position holding that voter.
pub proof fn lemma_ballot_index_unique(s: Seq<Ballot>, j: int)
    requires
        ballots_wf(s),
        0 <= j < s.len(),
    ensures
        has_ballot(s, s[j].voter@),
        ballot_index(s, s[j].voter@) == j,
{
    assert(has_ballot(s, s[j].voter@));
}

/// Withdrawing a voter's ballot leaves that voter without a ballot.
pub proof fn lemma_removed_voter_gone(s: Seq<Ballot>, j: int)
    requires
        ballots_wf(s),
        0 <= j < s.len(),
    ensures
        !has_ballot(s.remove(j), s[j].voter@),
{
    let t = s.remove(j);
    assert forall|k: int| 0 <= k < t.len() implies t[k].voter@ != s[j].voter@ by {
        assert(t[k] == s[if k < j { k } else { k + 1 }]);
    }
}

/// Withdrawing one ballot keeps every other voter's ballot.
pub proof fn lemma_other_voter_kept(s: Seq<Ballot>, j: int, v: Seq<char>)
    requires
        0 <= j < s.len(),
        has_ballot(s, v),
        s[j].voter@ != v,
    ensures
        has_ballot(s.remove(j), v),
{
    let k = choose|k: int| 0 <= k < s.len() && s[k].voter@ == v;
    let t = s.remove(j);
    if k < j {
        assert(t[k] == s[k]);
    } else {
        assert(t[k - 1] == s[k]);
    }
}

/// Appending an idea appends its id to the selection when it is selected.
pub proof fn lemma_ids_where_push(s: Seq<IdeaData>, d: IdeaData, sel: spec_fn(IdeaData) -> bool)
    ensures
        ids_where(s.push(d), sel) == (if sel(d) { ids_where(s, sel).push(d.id) } else { ids_where(s, sel) }),
{
    assert(s.push(d).drop_last() =~= s);
}

/// Selections agree on idea lists with the same ids and the same selected
/// positions.
pub proof fn lemma_ids_where_same(s: Seq<IdeaData>, t: Seq<IdeaData>, sel: spec_fn(IdeaData) -> bool)
    requires
        s.len() == t.len(),
        forall|i: int| 0 <= i < s.len() ==> s[i].id == t[i].id && sel(s[i]) == sel(t[i]),
    ensures
        ids_where(s, sel) == ids_where(t, sel),
    decreases s.len(),
{
    if s.len() > 0 {
        lemma_ids_where_same(s.drop_last(), t.drop_last(), sel);
    }
}

impl IdeaState {
    /// Creating an idea keeps the board well formed.
    pub proof fn lemma_create_keeps_wf(self, author: String, title: Vec<u8>, body: Vec<u8>, category: Vec<u8>, now: u64)
        requires
            self.wf(),
            self.ideas.len() < usize::MAX,
        ensures
            self.after_create(author, title, body, category, now).wf(),
    {
        let n = self.after_create(author, title, body, category, now);
        let d = self.new_idea(author, title, body, category, now);
        let k = self.ideas.len() as int;
        assert forall|i: int| 0 <= i < n.ideas.len() implies #[trigger] n.ideas[i].id == i + 1 by {
            if i < k {
                assert(n.ideas[i] == self.ideas[i]);
            }
        }
        assert forall|i: int| 0 <= i < n.ideas.len() implies ballots_wf(#[trigger] n.ballots[i]) by {
            if i < k {
                assert(n.ballots[i] == self.ballots[i]);
            }
        }
        assert forall|i: int| 0 <= i < n.ideas.len() implies counts_match(#[trigger] n.counts[i], n.ballots[i]) by {
            if i < k {
                assert(n.counts[i] == self.counts[i]);
                assert(n.ballots[i] == self.ballots[i]);
            } else {
                assert(n.ballots[i] =~= Seq::<Ballot>::empty());
            }
        }
        assert forall|a: Seq<char>| #[trigger] listed(n.by_author, a) == ids_where(n.ideas, by_author_sel(a)) by {
            lemma_ids_where_push(self.ideas, d, by_author_sel(a));
            assert(listed(self.by_author, a) == ids_where(self.ideas, by_author_sel(a)));
        }
        assert forall|c: Seq<u8>| #[trigger] listed(n.by_category, c) == ids_where(n.ideas, by_category_sel(c)) by {
            lemma_ids_where_push(self.ideas, d, by_category_sel(c));
            assert(listed(self.by_category, c) == ids_where(self.ideas, by_category_sel(c)));
        }
    }

    /// Replacing an idea by one with the same id, author and category keeps
    /// the board well formed.
    proof fn lemma_same_keys_keeps_wf(self, id: i128, d: IdeaData)
        requires
            self.wf(),
            self.has_idea(id),
            d.id == self.idea(id).id,
            d.author@ == self.idea(id).author@,
            d.category@ == self.idea(id).category@,
        ensures
            (IdeaState { ideas: self.ideas.update(id - 1, d), ..self }).wf(),
    {
        let n = IdeaState { ideas: self.ideas.update(id - 1, d), ..self };
        assert forall|i: int| 0 <= i < n.ideas.len() implies #[trigger] n.ideas[i].id == i + 1 by {
            assert(self.ideas[i].id == i + 1);
        }
        assert forall|i: int| 0 <= i < n.ideas.len() implies ballots_wf(#[trigger] n.ballots[i]) by {
            assert(ballots_wf(self.ballots[i]));
        }
        assert forall|i: int| 0 <= i < n.ideas.len() implies counts_match(#[trigger] n.counts[i], n.ballots[i]) by {
            assert(counts_match(self.counts[i], self.ballots[i]));
        }
        assert forall|a: Seq<char>| #[trigger] listed(n.by_author, a) == ids_where(n.ideas, by_author_sel(a)) by {
            lemma_ids_where_same(self.ideas, n.ideas, by_author_sel(a));
            assert(listed(self.by_author, a) == ids_where(self.ideas, by_author_sel(a)));
        }
        assert forall|c: Seq<u8>| #[trigger] listed(n.by_category, c) == ids_where(n.ideas, by_category_sel(c)) by {
            lemma_ids_where_same(self.ideas, n.ideas, by_category_sel(c));
            assert(listed(self.by_category, c) == ids_where(self.ideas, by_category_sel(c)));
        }
    }

    /// Replacing an idea's body keeps the board well formed.
    pub proof fn lemma_update_keeps_wf(self, id: i128, body: Vec<u8>, now: u64)
        requires
            self.wf(),
            self.has_idea(id),
        ensures
            self.after_update(id, body, now).wf(),
    {
        self.lemma_same_keys_keeps_wf(id, IdeaData { body, updated_at: now, ..self.idea(id) });
    }

    /// Marking an idea deleted keeps the board well formed.
    pub proof fn lemma_delete_keeps_wf(self, id: i128, now: u64)
        requires
            self.wf(),
            self.has_idea(id),
        ensures
            self.after_delete(id, now).wf(),
    {
        self.lemma_same_keys_keeps_wf(id, IdeaData { deleted: true, updated_at: now, ..self.idea(id) });
    }

    /// Replacing one idea's ballots and tally by ballots that are well formed
    /// and a tally that matches them keeps the board well formed.
    proof fn lemma_ballots_keep_wf(self, id: i128, s: Seq<Ballot>, c: VoteCount)
        requires
            self.wf(),
            self.has_idea(id),
            ballots_wf(s),
            counts_match(c, s),
        ensures
            (IdeaState { ballots: self.ballots.update(id - 1, s), counts: self.counts.update(id - 1, c), ..self }).wf(),
    {
        let n = IdeaState { ballots: self.ballots.update(id - 1, s), counts: self.counts.update(id - 1, c), ..self };
        assert forall|i: int| 0 <= i < n.ideas.len() implies #[trigger] n.ideas[i].id == i + 1 by {
            assert(self.ideas[i].id == i + 1);
        }
        assert forall|i: int| 0 <= i < n.ideas.len() implies ballots_wf(#[trigger] n.ballots[i]) by {
            if i != id - 1 {
                assert(ballots_wf(self.ballots[i]));
            }
        }
        assert forall|i: int| 0 <= i < n.ideas.len() implies counts_match(#[trigger] n.counts[i], n.ballots[i]) by {
            if i != id - 1 {
                assert(counts_match(self.counts[i], self.ballots[i]));
            }
        }
        assert forall|a: Seq<char>| #[trigger] listed(n.by_author, a) == ids_where(n.ideas, by_author_sel(a)) by {
            assert(listed(self.by_author, a) == ids_where(self.ideas, by_author_sel(a)));
        }
        assert forall|c: Seq<u8>| #[trigger] listed(n.by_category, c) == ids_where(n.ideas, by_category_sel(c)) by {
            assert(listed(self.by_category, c) == ids_where(self.ideas, by_category_sel(c)));
        }
    }

    /// Casting the first ballot of a voter, with a positive weight and a
    /// tally that stays in range, keeps the board well formed.
    pub proof fn lemma_vote_keeps_wf(self, id: i128, ballot: Ballot)
        requires
            self.wf(),
            self.has_idea(id),
            !has_ballot(self.ballots_of(id), ballot.voter@),
            ballot.record.weight > 0,
            delta_in_range(self.count_of(id), None, Some(ballot.record)),
        ensures
            self.after_vote(id, ballot).wf(),
    {
        let s = self.ballots_of(id);
        let t = s.push(ballot);
        assert(ballots_wf(s));
        assert(counts_match(self.count_of(id), s));
        lemma_tally_push(s, ballot, VoteDirection::Up);
        lemma_tally_push(s, ballot, VoteDirection::Down);
        assert forall|i: int, j: int| 0 <= i < t.len() && 0 <= j < t.len() && i != j implies t[i].voter@ != t[j].voter@ by {
            if i == s.len() {
                assert(t[j] == s[j]);
            } else if j == s.len() {
                assert(t[i] == s[i]);
            } else {
                assert(t[i] == s[i] && t[j] == s[j]);
            }
        }
        assert forall|i: int| 0 <= i < t.len() implies t[i].record.weight > 0 by {
            if i < s.len() {
                assert(t[i] == s[i]);
            }
        }
        self.lemma_ballots_keep_wf(id, t, vote_delta(self.count_of(id), None, Some(ballot.record)));
    }

    /// Replacing a voter's vote by one with a positive weight, with a tally
    /// that stays in range, keeps the board well formed.
    pub proof fn lemma_change_keeps_wf(self, id: i128, voter: String, record: VoteRecord)
        requires
            self.wf(),
            self.has_idea(id),
            has_ballot(self.ballots_of(id), voter@),
            record.weight > 0,
            delta_in_range(self.count_of(id), self.vote_of(id, voter@), Some(record)),
        ensures
            self.after_change(id, voter, record).wf(),
            self.after_remove(id, voter@).wf(),
            !has_ballot(self.after_remove(id, voter@).ballots_of(id), voter@),
            delta_in_range(self.after_remove(id, voter@).count_of(id), None, Some(record)),
    {
        let s = self.ballots_of(id);
        let j = ballot_index(s, voter@);
        assert(ballots_wf(s));
        self.lemma_remove_keeps_wf(id, voter@);
        let r = self.after_remove(id, voter@);
        assert(r.ballots_of(id) == s.remove(j));
        lemma_removed_voter_gone(s, j);
        crate::tally::lemma_change_is_remove_then_add(self.count_of(id), s[j].record, record);
        r.lemma_vote_keeps_wf(id, Ballot { voter, record });
    }

    /// Withdrawing a vote never takes the tally out of range.
    pub proof fn lemma_remove_in_range(self, id: i128, voter: Seq<char>)
        requires
            self.wf(),
            self.has_idea(id),
            has_ballot(self.ballots_of(id), voter),
        ensures
            delta_in_range(self.count_of(id), self.vote_of(id, voter), None),
    {
        let s = self.ballots_of(id);
        let j = ballot_index(s, voter);
        assert(ballots_wf(s));
        assert(counts_match(self.count_of(id), s));
        lemma_tally_covers(s, j, VoteDirection::Up);
        lemma_tally_covers(s, j, VoteDirection::Down);
        lemma_tally_remove(s, j, VoteDirection::Up);
        lemma_tally_remove(s, j, VoteDirection::Down);
        lemma_tally_nonneg(s.remove(j), VoteDirection::Up);
        lemma_tally_nonneg(s.remove(j), VoteDirection::Down);
        assert forall|a: int| 0 <= a < s.remove(j).len() implies s.remove(j)[a].record.weight > 0 by {
            if a < j {
                assert(s.remove(j)[a] == s[a]);
            } else {
                assert(s.remove(j)[a] == s[a + 1]);
            }
        }
    }

    /// Withdrawing a vote keeps the board well formed.
    pub proof fn lemma_remove_keeps_wf(self, id: i128, voter: Seq<char>)
        requires
            self.wf(),
            self.has_idea(id),
            has_ballot(self.ballots_of(id), voter),
        ensures
            self.after_remove(id, voter).wf(),
    {
        let s = self.ballots_of(id);
        let j = ballot_index(s, voter);
        let t = s.remove(j);
        self.lemma_remove_in_range(id, voter);
        assert(ballots_wf(s));
        assert(counts_match(self.count_of(id), s));
        lemma_tally_remove(s, j, VoteDirection::Up);
        lemma_tally_remove(s, j, VoteDirection::Down);
        assert forall|a: int| 0 <= a < t.len() implies t[a] == s[if a < j { a } else { a + 1 }] by {}
        assert forall|a: int, c: int| 0 <= a < t.len() && 0 <= c < t.len() && a != c implies t[a].voter@ != t[c].voter@ by {
            assert(t[a] == s[if a < j { a } else { a + 1 }]);
            assert(t[c] == s[if c < j { c } else { c + 1 }]);
        }
        assert forall|a: int| 0 <= a < t.len() implies t[a].record.weight > 0 by {
            assert(t[a] == s[if a < j { a } else { a + 1 }]);
        }
        self.lemma_ballots_keep_wf(id, t, vote_delta(self.count_of(id), Some(s[j].record), None));
    }
}

impl IdeaState {
    /// The stored tally of every idea is the sum of its votes: upvotes are
    /// the summed weight of the up votes, downvotes that of the down votes,
    /// and the net score their difference.
    pub proof fn lemma_counts_are_tallies(self, id: i128)
        requires
            self.wf(),
            self.has_idea(id),
        ensures
            counts_match(self.count_of(id), self.ballots_of(id)),
            self.count_of(id).upvotes >= 0,
            self.count_of(id).downvotes >= 0,
    {
        assert(counts_match(self.counts[id - 1], self.ballots[id - 1]));
        assert(ballots_wf(self.ballots[id - 1]));
        lemma_tally_nonneg(self.ballots_of(id), VoteDirection::Up);
        lemma_tally_nonneg(self.ballots_of(id), VoteDirection::Down);
    }

    /// A new idea gets the next id, is found under it with no votes and a
    /// zero tally, and is listed last under its author and its category;
    /// the ideas already there are unchanged.
    pub proof fn lemma_create_gives_next_id(self, author: String, title: Vec<u8>, body: Vec<u8>, category: Vec<u8>, now: u64)
        requires
            self.wf(),
            self.ideas.len() < usize::MAX,
        ensures
            ({
                let n = self.after_create(author, title, body, category, now);
                let id = self.new_idea(author, title, body, category, now).id;
                &&& id == self.ideas.len() + 1
                &&& n.has_idea(id)
                &&& n.idea(id) == self.new_idea(author, title, body, category, now)
                &&& n.count_of(id) == zero_count()
                &&& n.ballots_of(id).len() == 0
                &&& listed(n.by_author, author@) == listed(self.by_author, author@).push(id)
                &&& listed(n.by_category, category@) == listed(self.by_category, category@).push(id)
                &&& forall|other: i128| self.has_idea(other) ==> n.has_idea(other) && n.idea(other) == self.idea(other)
            }),
    {
    }

    /// A vote once cast is what `get_vote` reports, and withdrawing it right
    /// away gives back the board as it was before the vote.
    pub proof fn lemma_vote_then_remove_restores(self, id: i128, voter: String, direction: VoteDirection, score: i32)
        requires
            self.wf(),
            self.vote_check(id, voter@, score) is Ok,
            self.vote_in_range(id, voter@, direction, score),
        ensures
            ({
                let w = self.vote_check(id, voter@, score)->Ok_0;
                let rec = VoteRecord { direction, weight: w };
                let n = self.after_vote(id, Ballot { voter, record: rec });
                &&& n.vote_of(id, voter@) == Some(rec)
                &&& n.remove_check(id, voter@) == Ok::<VoteRecord, IdeaError>(rec)
                &&& n.after_remove(id, voter@) == self
            }),
    {
        let w = self.vote_check(id, voter@, score)->Ok_0;
        let rec = VoteRecord { direction, weight: w };
        let b = Ballot { voter, record: rec };
        let n = self.after_vote(id, b);
        let s = self.ballots_of(id);
        let t = s.push(b);
        assert(w > 0);
        self.lemma_vote_keeps_wf(id, b);
        assert(n.ballots_of(id) == t);
        assert(ballots_wf(n.ballots[id - 1]));
        lemma_ballot_index_unique(t, s.len() as int);
        assert(t[s.len() as int] == b);
        assert(n.vote_of(id, voter@) == Some(rec));
        assert(t.remove(s.len() as int) =~= s);
        crate::tally::lemma_remove_undoes_add(self.count_of(id), rec);
        let m = n.after_remove(id, voter@);
        assert(m.ballots =~= self.ballots);
        assert(m.counts =~= self.counts);
    }

    /// Changing a vote is what `get_vote` then reports, and the tally moves
    /// as if the old vote were withdrawn and the new one cast.
    pub proof fn lemma_change_replaces_vote(self, id: i128, voter: String, record: VoteRecord)
        requires
            self.wf(),
            self.has_idea(id),
            has_ballot(self.ballots_of(id), voter@),
            record.weight > 0,
            delta_in_range(self.count_of(id), self.vote_of(id, voter@), Some(record)),
        ensures
            self.after_change(id, voter, record).vote_of(id, voter@) == Some(record),
            self.after_change(id, voter, record).count_of(id) == vote_delta(
                vote_delta(self.count_of(id), self.vote_of(id, voter@), None),
                None,
                Some(record),
            ),
    {
        self.lemma_change_keeps_wf(id, voter, record);
        let r = self.after_remove(id, voter@);
        let n = self.after_change(id, voter, record);
        let t = n.ballots_of(id);
        assert(t == r.ballots_of(id).push(Ballot { voter, record }));
        assert(ballots_wf(n.ballots[id - 1]));
        let k = r.ballots_of(id).len() as int;
        assert(t[k].voter@ == voter@);
        lemma_ballot_index_unique(t, k);
    }

    /// Changing a vote is withdrawing it and casting the new one: whenever
    /// `change_vote` succeeds, `remove_vote` succeeds on the same board, a
    /// `vote` with the same score then succeeds with the same weight, and
    /// the board it leaves is the one `change_vote` leaves, every other
    /// vote included.
    pub proof fn lemma_change_is_remove_then_vote(self, id: i128, voter: String, direction: VoteDirection, score: i32)
        requires
            self.wf(),
            self.change_check(id, voter@, score) is Ok,
            self.change_in_range(id, voter@, direction, score),
        ensures
            ({
                let w = self.change_check(id, voter@, score)->Ok_0;
                let rec = VoteRecord { direction, weight: w };
                let r = self.after_remove(id, voter@);
                &&& self.remove_check(id, voter@) == Ok::<VoteRecord, IdeaError>(self.vote_of(id, voter@)->Some_0)
                &&& r.vote_check(id, voter@, score) == Ok::<i32, IdeaError>(w)
                &&& r.vote_in_range(id, voter@, direction, score)
                &&& self.after_change(id, voter, rec) == r.after_vote(id, Ballot { voter, record: rec })
            }),
    {
        let w = self.change_check(id, voter@, score)->Ok_0;
        let rec = VoteRecord { direction, weight: w };
        assert(w > 0);
        self.lemma_change_keeps_wf(id, voter, rec);
        let r = self.after_remove(id, voter@);
        assert(r.ideas == self.ideas);
        assert(r.vote_of(id, voter@) is None);
    }

    /// A voter has at most one vote per idea: once cast, a second vote is
    /// refused with `VoteAlreadyExists` while the idea is open.
    pub proof fn lemma_one_vote_per_voter(self, id: i128, voter: String, direction: VoteDirection, score: i32, score2: i32)
        requires
            self.wf(),
            self.vote_check(id, voter@, score) is Ok,
            self.vote_in_range(id, voter@, direction, score),
        ensures
            ({
                let w = self.vote_check(id, voter@, score)->Ok_0;
                let n = self.after_vote(id, Ballot { voter, record: VoteRecord { direction, weight: w } });
                n.vote_check(id, voter@, score2) == Err::<i32, IdeaError>(IdeaError::VoteAlreadyExists)
            }),
    {
        self.lemma_vote_then_remove_restores(id, voter, direction, score);
    }

    /// A deleted idea is frozen: it takes no vote, no change or withdrawal
    /// of a vote, no edit and no second deletion, all refused with
    /// `Deleted`.
    pub proof fn lemma_deleted_idea_is_frozen(self, id: i128, now: u64, caller: Seq<char>, voter: Seq<char>, score: i32)
        requires
            self.has_idea(id),
        ensures
            ({
                let n = self.after_delete(id, now);
                &&& n.votable(id) == Err::<(), IdeaError>(IdeaError::Deleted)
                &&& n.editable(id, caller) == Err::<(), IdeaError>(IdeaError::Deleted)
                &&& n.vote_check(id, voter, score) == Err::<i32, IdeaError>(IdeaError::Deleted)
                &&& n.change_check(id, voter, score) == Err::<i32, IdeaError>(IdeaError::Deleted)
                &&& n.remove_check(id, voter) == Err::<VoteRecord, IdeaError>(IdeaError::Deleted)
            }),
    {
    }

    /// Only an idea's author may edit or delete it: anyone else is refused
    /// with `Unauthorized` while the idea is open.
    pub proof fn lemma_only_author_edits(self, id: i128, caller: Seq<char>)
        requires
            self.votable(id) is Ok,
            caller != self.idea(id).author@,
        ensures
            self.editable(id, caller) == Err::<(), IdeaError>(IdeaError::Unauthorized),
            self.editable(id, self.idea(id).author@) is Ok,
    {
    }
}

/// A call on the board, with what the host supplies for it: the ledger time
/// of edits and the reputation score of votes. Addresses a call only compares
/// are given by their text.
pub enum BoardCall {
    SetReputation { contract: Seq<char> },
    Create { author: String, title: Vec<u8>, body: Vec<u8>, category: Vec<u8>, now: u64 },
    Update { caller: Seq<char>, id: i128, body: Vec<u8>, now: u64 },
    Delete { caller: Seq<char>, id: i128, now: u64 },
    Vote { id: i128, voter: String, direction: VoteDirection, score: i32 },
    Change { id: i128, voter: String, direction: VoteDirection, score: i32 },
    Remove { id: i128, voter: Seq<char> },
}

/// Whether `c` withdraws `voter`'s vote on the idea `id`.
pub open spec fn removes_vote(c: BoardCall, id: i128, voter: Seq<char>) -> bool {
    c matches BoardCall::Remove { id: i, voter: v } && i == id && v == voter
}

impl IdeaState {
    /// The board after a call: the call's transition where it is accepted,
    /// the board unchanged where it is refused or where it would overflow a
    /// tally (the contract aborts there). An idea cannot be created once the
    /// board holds as many ideas as a `Vec` can.
    pub open spec fn step(self, c: BoardCall) -> IdeaState {
        match c {
            BoardCall::SetReputation { contract } => self.with_reputation(contract),
            BoardCall::Create { author, title, body, category, now } => if self.ideas.len() < usize::MAX {
                self.after_create(author, title, body, category, now)
            } else {
                self
            },
            BoardCall::Update { caller, id, body, now } => if self.editable(id, caller) is Ok {
                self.after_update(id, body, now)
            } else {
                self
            },
            BoardCall::Delete { caller, id, now } => if self.editable(id, caller) is Ok {
                self.after_delete(id, now)
            } else {
                self
            },
            BoardCall::Vote { id, voter, direction, score } => match self.vote_check(id, voter@, score) {
                Ok(w) => if self.vote_in_range(id, voter@, direction, score) {
                    self.after_vote(id, Ballot { voter, record: VoteRecord { direction, weight: w } })
                } else {
                    self
                },
                Err(_) => self,
            },
            BoardCall::Change { id, voter, direction, score } => match self.change_check(id, voter@, score) {
                Ok(w) => if self.change_in_range(id, voter@, direction, score) {
                    self.after_change(id, voter, VoteRecord { direction, weight: w })
                } else {
                    self
                },
                Err(_) => self,
            },
            BoardCall::Remove { id, voter } => if self.remove_check(id, voter) is Ok {
                self.after_remove(id, voter)
            } else {
                self
            },
        }
    }

    /// The board after the calls, in order.
    pub open spec fn run(self, calls: Seq<BoardCall>) -> IdeaState
        decreases calls.len(),
    {
        if calls.len() == 0 {
            self
        } else {
            self.run(calls.drop_last()).step(calls.last())
        }
    }

    /// The ids that the calls' successful `create_idea`s by `author` return,
    /// in call order.
    pub open spec fn created_by(self, calls: Seq<BoardCall>, author: Seq<char>) -> Seq<i128>
        decreases calls.len(),
    {
        if calls.len() == 0 {
            Seq::empty()
        } else {
            let before = self.run(calls.drop_last());
            let prev = self.created_by(calls.drop_last(), author);
            match calls.last() {
                BoardCall::Create { author: a, .. } => if a@ == author && before.ideas.len() < usize::MAX {
                    prev.push((before.ideas.len() + 1) as i128)
                } else {
                    prev
                },
                _ => prev,
            }
        }
    }

    /// The empty board is well formed.
    pub proof fn lemma_empty_wf()
        ensures
            IdeaState::empty().wf(),
    {
        let e = IdeaState::empty();
        assert forall|a: Seq<char>| #[trigger] listed(e.by_author, a) == ids_where(e.ideas, by_author_sel(a)) by {
            assert(listed(e.by_author, a) =~= Seq::<i128>::empty());
        }
        assert forall|c: Seq<u8>| #[trigger] listed(e.by_category, c) == ids_where(e.ideas, by_category_sel(c)) by {
            assert(listed(e.by_category, c) =~= Seq::<i128>::empty());
        }
    }

    /// Every call keeps the board well formed.
    pub proof fn lemma_step_keeps_wf(self, c: BoardCall)
        requires
            self.wf(),
        ensures
            self.step(c).wf(),
    {
        match c {
            BoardCall::SetReputation { contract } => {},
            BoardCall::Create { author, title, body, category, now } => {
                if self.ideas.len() < usize::MAX {
                    self.lemma_create_keeps_wf(author, title, body, category, now);
                }
            },
            BoardCall::Update { caller, id, body, now } => {
                if self.editable(id, caller) is Ok {
                    self.lemma_update_keeps_wf(id, body, now);
                }
            },
            BoardCall::Delete { caller, id, now } => {
                if self.editable(id, caller) is Ok {
                    self.lemma_delete_keeps_wf(id, now);
                }
            },
            BoardCall::Vote { id, voter, direction, score } => {
                if self.vote_check(id, voter@, score) is Ok && self.vote_in_range(id, voter@, direction, score) {
                    let w = self.vote_check(id, voter@, score)->Ok_0;
                    self.lemma_vote_keeps_wf(id, Ballot { voter, record: VoteRecord { direction, weight: w } });
                }
            },
            BoardCall::Change { id, voter, direction, score } => {
                if self.change_check(id, voter@, score) is Ok && self.change_in_range(id, voter@, direction, score) {
                    let w = self.change_check(id, voter@, score)->Ok_0;
                    self.lemma_change_keeps_wf(id, voter, VoteRecord { direction, weight: w });
                }
            },
            BoardCall::Remove { id, voter } => {
                if self.remove_check(id, voter) is Ok {
                    self.lemma_remove_keeps_wf(id, voter);
                }
            },
        }
    }

    /// Every sequence of calls keeps the board well formed.
    pub proof fn lemma_run_keeps_wf(self, calls: Seq<BoardCall>)
        requires
            self.wf(),
        ensures
            self.run(calls).wf(),
        decreases calls.len(),
    {
        if calls.len() > 0 {
            self.lemma_run_keeps_wf(calls.drop_last());
            self.run(calls.drop_last()).lemma_step_keeps_wf(calls.last());
        }
    }

    /// No call removes an idea.
    pub proof fn lemma_run_keeps_ideas(self, calls: Seq<BoardCall>)
        ensures
            self.run(calls).ideas.len() >= self.ideas.len(),
        decreases calls.len(),
    {
        if calls.len() > 0 {
            self.lemma_run_keeps_ideas(calls.drop_last());
        }
    }

    /// Ids strictly increase and are never reused: whatever calls come
    /// between two successful `create_idea`s, the second returns a larger id
    /// than the first, and each returns an id that no idea had before.
    pub proof fn lemma_ids_never_reused(
        self,
        author: String,
        title: Vec<u8>,
        body: Vec<u8>,
        category: Vec<u8>,
        now: u64,
        calls: Seq<BoardCall>,
        author2: String,
        title2: Vec<u8>,
        body2: Vec<u8>,
        category2: Vec<u8>,
        now2: u64,
    )
        requires
            self.ideas.len() < usize::MAX,
            self.after_create(author, title, body, category, now).run(calls).ideas.len() < usize::MAX,
        ensures
            ({
                let r1 = self.new_idea(author, title, body, category, now).id;
                let s2 = self.after_create(author, title, body, category, now).run(calls);
                let r2 = s2.new_idea(author2, title2, body2, category2, now2).id;
                &&& 1 <= r1 < r2
                &&& !self.has_idea(r1)
                &&& !s2.has_idea(r2)
                &&& s2.has_idea(r1)
            }),
    {
        self.after_create(author, title, body, category, now).lemma_run_keeps_ideas(calls);
    }

    /// One call that does not withdraw `voter`'s vote on the idea keeps it.
    proof fn lemma_step_keeps_vote(self, id: i128, voter: Seq<char>, c: BoardCall)
        requires
            self.wf(),
            self.vote_of(id, voter) is Some,
            !removes_vote(c, id, voter),
        ensures
            self.step(c).vote_of(id, voter) is Some,
    {
        let s = self.ballots_of(id);
        assert(has_ballot(s, voter));
        let n = self.step(c);
        assert(n.ideas.len() >= self.ideas.len()) by {
            match c {
                BoardCall::Create { .. } => {},
                _ => {},
            }
        }
        match c {
            BoardCall::Vote { id: i2, voter: v2, direction, score } => {
                if self.vote_check(i2, v2@, score) is Ok && self.vote_in_range(i2, v2@, direction, score) && i2 == id {
                    let w = self.vote_check(i2, v2@, score)->Ok_0;
                    let b = Ballot { voter: v2, record: VoteRecord { direction, weight: w } };
                    let k = choose|k: int| 0 <= k < s.len() && s[k].voter@ == voter;
                    assert(n.ballots_of(id) == s.push(b));
                    assert(s.push(b)[k] == s[k]);
                }
            },
            BoardCall::Change { id: i2, voter: v2, direction, score } => {
                if self.change_check(i2, v2@, score) is Ok && self.change_in_range(i2, v2@, direction, score) && i2 == id {
                    let w = self.change_check(i2, v2@, score)->Ok_0;
                    let b = Ballot { voter: v2, record: VoteRecord { direction, weight: w } };
                    let j = ballot_index(s, v2@);
                    let t = s.remove(j);
                    assert(n.ballots_of(id) == t.push(b));
                    if v2@ == voter {
                        assert(t.push(b)[t.len() as int] == b);
                    } else {
                        lemma_other_voter_kept(s, j, voter);
                        let k = choose|k: int| 0 <= k < t.len() && t[k].voter@ == voter;
                        assert(t.push(b)[k] == t[k]);
                    }
                }
            },
            BoardCall::Remove { id: i2, voter: v2 } => {
                if self.remove_check(i2, v2) is Ok && i2 == id {
                    let j = ballot_index(s, v2);
                    lemma_other_voter_kept(s, j, voter);
                    assert(n.ballots_of(id) == s.remove(j));
                }
            },
            BoardCall::Create { author, title, body, category, now } => {
                if self.ideas.len() < usize::MAX {
                    assert(n.ballots_of(id) == s);
                }
            },
            _ => {},
        }
    }

    /// A vote persists through every call but its own withdrawal, so while
    /// it stands a second vote by the same voter on the same idea is refused,
    /// with `VoteAlreadyExists` while the idea is open.
    pub proof fn lemma_vote_persists(self, id: i128, voter: Seq<char>, calls: Seq<BoardCall>, score: i32)
        requires
            self.wf(),
            self.vote_of(id, voter) is Some,
            forall|i: int| 0 <= i < calls.len() ==> !removes_vote(#[trigger] calls[i], id, voter),
        ensures
            self.run(calls).vote_of(id, voter) is Some,
            self.run(calls).vote_check(id, voter, score) is Err,
            self.run(calls).votable(id) is Ok ==> self.run(calls).vote_check(id, voter, score)
                == Err::<i32, IdeaError>(IdeaError::VoteAlreadyExists),
        decreases calls.len(),
    {
        if calls.len() > 0 {
            let prefix = calls.drop_last();
            assert forall|i: int| 0 <= i < prefix.len() implies !removes_vote(#[trigger] prefix[i], id, voter) by {
                assert(prefix[i] == calls[i]);
            }
            self.lemma_vote_persists(id, voter, prefix, score);
            self.lemma_run_keeps_wf(prefix);
            assert(!removes_vote(calls[calls.len() - 1], id, voter));
            self.run(prefix).lemma_step_keeps_vote(id, voter, calls.last());
        }
    }

    /// The author list grows by exactly the ids that the author's
    /// `create_idea` calls return, in call order.
    pub proof fn lemma_run_author_list(self, calls: Seq<BoardCall>, author: Seq<char>)
        ensures
            listed(self.run(calls).by_author, author) == listed(self.by_author, author) + self.created_by(calls, author),
        decreases calls.len(),
    {
        if calls.len() == 0 {
            assert(listed(self.by_author, author) + Seq::<i128>::empty() =~= listed(self.by_author, author));
        } else {
            let prefix = calls.drop_last();
            self.lemma_run_author_list(prefix, author);
            let before = self.run(prefix);
            let x = listed(self.by_author, author);
            let y = self.created_by(prefix, author);
            match calls.last() {
                BoardCall::Create { author: a, title, body, category, now } => {
                    if before.ideas.len() < usize::MAX && a@ == author {
                        let id = (before.ideas.len() + 1) as i128;
                        assert((x + y).push(id) =~= x + y.push(id));
                    }
                },
                _ => {},
            }
        }
    }

    /// From a fresh board, `list_ideas_by_author` gives exactly the ids that
    /// the author's successful `create_idea` calls returned, in call order,
    /// strictly increasing, deleted ideas included; an author who never
    /// posted gets an empty list.
    pub proof fn lemma_author_list_is_created_ids(calls: Seq<BoardCall>, author: Seq<char>)
        ensures
            ({
                let s = IdeaState::empty().run(calls);
                let l = listed(s.by_author, author);
                &&& l == IdeaState::empty().created_by(calls, author)
                &&& forall|i: int, j: int| 0 <= i < j < l.len() ==> l[i] < l[j]
                &&& forall|i: int| 0 <= i < l.len() ==> s.has_idea(l[i]) && s.idea(l[i]).author@ == author
            }),
    {
        let e = IdeaState::empty();
        e.lemma_run_author_list(calls, author);
        assert(listed(e.by_author, author) =~= Seq::<i128>::empty());
        assert(Seq::<i128>::empty() + e.created_by(calls, author) =~= e.created_by(calls, author));
        IdeaState::lemma_empty_wf();
        e.lemma_run_keeps_wf(calls);
        let s = e.run(calls);
        lemma_ids_where_ordered(s.ideas, by_author_sel(author));
    }
}

/// Where ideas are numbered by position, a selection holds ids of selected
/// ideas, strictly increasing.
pub proof fn lemma_ids_where_ordered(s: Seq<IdeaData>, sel: spec_fn(IdeaData) -> bool)
    requires
        forall|i: int| 0 <= i < s.len() ==> #[trigger] s[i].id == i + 1,
    ensures
        forall|i: int, j: int| 0 <= i < j < ids_where(s, sel).len() ==> ids_where(s, sel)[i] < ids_where(s, sel)[j],
        forall|i: int| 0 <= i < ids_where(s, sel).len() ==> 1 <= #[trigger] ids_where(s, sel)[i] <= s.len()
            && sel(s[ids_where(s, sel)[i] - 1]),
    decreases s.len(),
{
    if s.len() > 0 {
        let p = s.drop_last();
        assert forall|i: int| 0 <= i < p.len() implies #[trigger] p[i].id == i + 1 by {
            assert(p[i] == s[i]);
        }
        lemma_ids_where_ordered(p, sel);
        let q = ids_where(p, sel);
        assert forall|i: int| 0 <= i < q.len() implies sel(s[q[i] - 1]) by {
            assert(s[q[i] - 1] == p[q[i] - 1]);
        }
        assert(s.last().id == s.len());
    }
}

} // verus!
