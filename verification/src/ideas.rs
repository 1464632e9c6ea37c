//! The idea board: authors post ideas, edit and delete their own, and
//! voters cast one reputation-weighted vote per idea, which they may change
//! or withdraw while the idea is not deleted.

use vstd::prelude::*;
use crate::board::{
    Ballot, IdeaState, ballot_index, ballots_wf, by_author_sel, by_category_sel, counts_match, has_ballot, ids_where,
    listed,
};
use crate::oracle::opt_text;
use crate::tally::{apply_vote_delta, delta_fits, reputation_weight};
use crate::types::{IdeaData, IdeaError, VoteCount, VoteDirection, VoteRecord};

verus! {

/// An idea with the ballots cast on it and its stored tally.
struct IdeaEntry {
    data: IdeaData,
    ballots: Vec<Ballot>,
    counts: VoteCount,
}

/// The ids listed under one author or category.
struct IdList<K> {
    key: K,
    ids: Vec<i128>,
}

/// Each key is listed once.
spec fn keys_unique<K: View>(s: Seq<IdList<K>>) -> bool {
    forall|i: int, j: int| 0 <= i < s.len() && 0 <= j < s.len() && i != j ==> s[i].key@ != s[j].key@
}

/// The lists of an index, by the view of their key.
spec fn index_map<K: View>(s: Seq<IdList<K>>) -> Map<K::V, Seq<i128>> {
    Map::new(
        |k: K::V| exists|j: int| 0 <= j < s.len() && s[j].key@ == k,
        |k: K::V| s[choose|j: int| 0 <= j < s.len() && s[j].key@ == k].ids@,
    )
}

/// Where `key` is listed in an index, if anywhere.
spec fn found_at<K: View>(s: Seq<IdList<K>>, key: K::V, r: Option<usize>) -> bool {
    match r {
        Some(j) => j < s.len() && s[j as int].key@ == key,
        None => forall|j: int| 0 <= j < s.len() ==> s[j].key@ != key,
    }
}

/// With unique keys, the list at a position is the one stored under its key.
proof fn lemma_index_at<K: View>(s: Seq<IdList<K>>, j: int)
    requires
        keys_unique(s),
        0 <= j < s.len(),
    ensures
        index_map(s).contains_key(s[j].key@),
        index_map(s)[s[j].key@] == s[j].ids@,
{
    let k = s[j].key@;
    assert(exists|x: int| 0 <= x < s.len() && s[x].key@ == k);
    let c = choose|x: int| 0 <= x < s.len() && s[x].key@ == k;
    assert(c == j);
}

/// Whether two byte strings have the same contents.
fn bytes_eq(a: &Vec<u8>, b: &Vec<u8>) -> (r: bool)
    ensures
        r == (a@ == b@),
{
    let n = a.len();
    if n != b.len() {
        return false;
    }
    let mut i: usize = 0;
    while i < n
        invariant
            n == a@.len(),
            n == b@.len(),
            i <= n,
            forall|j: int| 0 <= j < i ==> a@[j] == b@[j],
        decreases n - i,
    {
        if a[i] != b[i] {
            return false;
        }
        i = i + 1;
    }
    assert(a@ =~= b@);
    true
}

/// The position of `author` in the author index, if it is listed.
fn find_author(index: &Vec<IdList<String>>, author: &String) -> (r: Option<usize>)
    ensures
        found_at(index@, author@, r),
{
    let n = index.len();
    let mut i: usize = 0;
    while i < n
        invariant
            n == index@.len(),
            i <= n,
            forall|j: int| 0 <= j < i ==> index@[j].key@ != author@,
        decreases n - i,
    {
        if index[i].key == *author {
            return Some(i);
        }
        i = i + 1;
    }
    None
}

/// The position of `category` in the category index, if it is listed.
fn find_category(index: &Vec<IdList<Vec<u8>>>, category: &Vec<u8>) -> (r: Option<usize>)
    ensures
        found_at(index@, category@, r),
{
    let n = index.len();
    let mut i: usize = 0;
    while i < n
        invariant
            n == index@.len(),
            i <= n,
            forall|j: int| 0 <= j < i ==> index@[j].key@ != category@,
        decreases n - i,
    {
        if bytes_eq(&index[i].key, category) {
            return Some(i);
        }
        i = i + 1;
    }
    None
}

/// Appends `id` to the list stored under `key`, starting the list if there
/// is none; `found` is where `key` is listed.
fn append_id<K: View>(index: &mut Vec<IdList<K>>, found: Option<usize>, key: K, id: i128)
    requires
        keys_unique(old(index)@),
        found_at(old(index)@, key@, found),
    ensures
        keys_unique(final(index)@),
        index_map(final(index)@) == index_map(old(index)@).insert(
            key@,
            listed(index_map(old(index)@), key@).push(id),
        ),
{
    let ghost s0 = index@;
    match found {
        Some(j) => {
            proof {
                lemma_index_at(s0, j as int);
            }
            index[j].ids.push(id);
            let ghost s1 = index@;
            proof {
                assert(s1.len() == s0.len());
                assert forall|a: int| 0 <= a < s1.len() && a != j implies s1[a] == s0[a] by {}
                assert(s1[j as int].key == s0[j as int].key);
                assert(s1[j as int].ids@ == s0[j as int].ids@.push(id));
                assert forall|a: int, b: int| 0 <= a < s1.len() && 0 <= b < s1.len() && a != b
                    implies s1[a].key@ != s1[b].key@ by {
                    assert(s1[a].key == s0[a].key && s1[b].key == s0[b].key);
                }
                let m0 = index_map(s0).insert(key@, listed(index_map(s0), key@).push(id));
                assert forall|k: K::V| index_map(s1).contains_key(k) <==> m0.contains_key(k) by {
                    if index_map(s1).contains_key(k) {
                        let x = choose|x: int| 0 <= x < s1.len() && s1[x].key@ == k;
                        assert(s0[x].key@ == k);
                    }
                    if index_map(s0).contains_key(k) {
                        let x = choose|x: int| 0 <= x < s0.len() && s0[x].key@ == k;
                        assert(s1[x].key@ == k);
                    }
                }
                assert forall|k: K::V| index_map(s1).contains_key(k) implies index_map(s1)[k] == m0[k] by {
                    let x = choose|x: int| 0 <= x < s1.len() && s1[x].key@ == k;
                    lemma_index_at(s1, x);
                    lemma_index_at(s0, x);
                }
                assert(index_map(s1) =~= m0);
            }
        },
        None => {
            let ghost kv = key@;
            let mut ids: Vec<i128> = Vec::new();
            ids.push(id);
            index.push(IdList { key, ids });
            let ghost s1 = index@;
            proof {
                let n = s0.len() as int;
                assert(s1[n].key@ == kv);
                assert(s1[n].ids@ =~= seq![id]);
                assert(!index_map(s0).contains_key(kv));
                assert(listed(index_map(s0), kv) =~= Seq::<i128>::empty());
                assert forall|a: int, b: int| 0 <= a < s1.len() && 0 <= b < s1.len() && a != b
                    implies s1[a].key@ != s1[b].key@ by {
                    if a < n && b < n {
                        assert(s1[a] == s0[a] && s1[b] == s0[b]);
                    } else if a < n {
                        assert(s1[a] == s0[a]);
                    } else {
                        assert(s1[b] == s0[b]);
                    }
                }
                let m0 = index_map(s0).insert(kv, seq![id]);
                assert forall|k: K::V| index_map(s1).contains_key(k) <==> m0.contains_key(k) by {
                    if index_map(s1).contains_key(k) {
                        let x = choose|x: int| 0 <= x < s1.len() && s1[x].key@ == k;
                        if x < n {
                            assert(s0[x].key@ == k);
                        }
                    }
                    if index_map(s0).contains_key(k) {
                        let x = choose|x: int| 0 <= x < s0.len() && s0[x].key@ == k;
                        assert(s1[x].key@ == k);
                    }
                    if k == kv {
                        assert(s1[n].key@ == k);
                    }
                }
                assert forall|k: K::V| index_map(s1).contains_key(k) implies index_map(s1)[k] == m0[k] by {
                    let x = choose|x: int| 0 <= x < s1.len() && s1[x].key@ == k;
                    lemma_index_at(s1, x);
                    if x < n {
                        assert(s1[x] == s0[x]);
                        lemma_index_at(s0, x);
                    }
                }
                assert(index_map(s1) =~= m0);
            }
        },
    }
}

/// The ids listed under `key`, in the order they were appended; `found` is
/// where `key` is listed.
fn lookup_ids<K: View>(index: &Vec<IdList<K>>, found: Option<usize>, key: &K) -> (r: Vec<i128>)
    requires
        keys_unique(index@),
        found_at(index@, key@, found),
    ensures
        r@ == listed(index_map(index@), key@),
{
    match found {
        Some(j) => {
            proof {
                lemma_index_at(index@, j as int);
            }
            let r = index[j].ids.clone();
            assert(r@ =~= index@[j as int].ids@);
            r
        },
        None => Vec::new(),
    }
}

/// The position of `voter`'s ballot, if there is one.
fn find_ballot(ballots: &Vec<Ballot>, voter: &String) -> (r: Option<usize>)
    ensures
        match r {
            Some(j) => j < ballots@.len() && ballots@[j as int].voter@ == voter@,
            None => !has_ballot(ballots@, voter@),
        },
{
    let n = ballots.len();
    let mut i: usize = 0;
    while i < n
        invariant
            n == ballots@.len(),
            i <= n,
            forall|j: int| 0 <= j < i ==> ballots@[j].voter@ != voter@,
        decreases n - i,
    {
        if ballots[i].voter == *voter {
            return Some(i);
        }
        i = i + 1;
    }
    None
}

/// Storage of the idea board.
pub struct IdeaContract {
    entries: Vec<IdeaEntry>,
    by_author: Vec<IdList<String>>,
    by_category: Vec<IdList<Vec<u8>>>,
    reputation_contract: Option<String>,
}

impl View for IdeaContract {
    type V = IdeaState;

    closed spec fn view(&self) -> IdeaState {
        IdeaState {
            ideas: self.entries@.map_values(|e: IdeaEntry| e.data),
            ballots: self.entries@.map_values(|e: IdeaEntry| e.ballots@),
            counts: self.entries@.map_values(|e: IdeaEntry| e.counts),
            by_author: index_map(self.by_author@),
            by_category: index_map(self.by_category@),
            reputation_contract: opt_text(self.reputation_contract),
        }
    }
}

impl IdeaContract {
    /// The board is well formed (see `IdeaState::wf`) and its indexes list
    /// each key once.
    pub closed spec fn wf(&self) -> bool {
        &&& self@.wf()
        &&& keys_unique(self.by_author@)
        &&& keys_unique(self.by_category@)
    }

    /// A well-formed board's state is well formed, so the laws of
    /// `IdeaState` apply to it.
    pub proof fn lemma_view_wf(&self)
        requires
            self.wf(),
        ensures
            self@.wf(),
    {
    }

    /// An empty board with no reputation contract.
    pub fn new() -> (r: IdeaContract)
        ensures
            r@ == IdeaState::empty(),
            r.wf(),
    {
        let r = IdeaContract {
            entries: Vec::new(),
            by_author: Vec::new(),
            by_category: Vec::new(),
            reputation_contract: None,
        };
        proof {
            assert(r@.ideas =~= Seq::<IdeaData>::empty());
            assert(r@.ballots =~= Seq::<Seq<Ballot>>::empty());
            assert(r@.counts =~= Seq::<VoteCount>::empty());
            assert(r@.by_author =~= Map::<Seq<char>, Seq<i128>>::empty());
            assert(r@.by_category =~= Map::<Seq<u8>, Seq<i128>>::empty());
            assert forall|a: Seq<char>| #[trigger] listed(r@.by_author, a) == ids_where(r@.ideas, by_author_sel(a)) by {
                assert(listed(r@.by_author, a) =~= Seq::<i128>::empty());
            }
            assert forall|c: Seq<u8>| #[trigger] listed(r@.by_category, c) == ids_where(r@.ideas, by_category_sel(c)) by {
                assert(listed(r@.by_category, c) =~= Seq::<i128>::empty());
            }
        }
        r
    }

    /// Makes `contract` the reputation contract that vote weights come from.
    pub fn set_reputation_contract(&mut self, contract: String)
        requires
            old(self).wf(),
        ensures
            final(self)@ == old(self)@.with_reputation(contract@),
            final(self).wf(),
    {
        self.reputation_contract = Some(contract);
        proof {
            assert(self@.ideas =~= old(self)@.ideas);
            assert(self@.ballots =~= old(self)@.ballots);
            assert(self@.counts =~= old(self)@.counts);
        }
    }

    /// The id the next idea gets.
    fn next_idea_id(&self) -> (r: i128)
        ensures
            r == self@.ideas.len() + 1,
    {
        self.entries.len() as i128 + 1
    }

    /// Posts an idea by `author` at ledger time `now` and returns its id:
    /// ids are 1, 2, 3, ... in the order ideas are posted. The id is
    /// appended to the author's list and to the category's list.
    pub fn create_idea(&mut self, author: String, title: Vec<u8>, body: Vec<u8>, category: Vec<u8>, now: u64) -> (r: i128)
        requires
            old(self).wf(),
        ensures
            r == old(self)@.ideas.len() + 1,
            final(self)@ == old(self)@.after_create(author, title, body, category, now),
            final(self).wf(),
    {
        let idea_id = self.next_idea_id();
        let category_key = category.clone();
        proof {
            assert(category_key@ =~= category@);
        }
        let ghost cat = category;
        let idea = IdeaData {
            id: idea_id,
            author: author.clone(),
            title,
            body,
            category,
            created_at: now,
            updated_at: now,
            deleted: false,
        };
        let ghost d = idea;
        self.entries.push(IdeaEntry { data: idea, ballots: Vec::new(), counts: VoteCount::zero() });
        let author_at = find_author(&self.by_author, &author);
        append_id(&mut self.by_author, author_at, author, idea_id);
        let category_at = find_category(&self.by_category, &category_key);
        append_id(&mut self.by_category, category_at, category_key, idea_id);
        proof {
            let o = old(self)@;
            assert(self.entries@.len() == self.entries.len());
            assert(d == o.new_idea(author, title, body, cat, now));
            assert(self@.ideas =~= o.ideas.push(d));
            assert(self@.ballots =~= o.ballots.push(Seq::<Ballot>::empty()));
            assert(self@.counts =~= o.counts.push(crate::types::zero_count()));
            assert(self@ == o.after_create(author, title, body, category, now));
            o.lemma_create_keeps_wf(author, title, body, category, now);
        }
        idea_id
    }

    /// The idea with this id, or `NotFound`.
    pub fn get_idea(&self, idea_id: i128) -> (r: Result<&IdeaData, IdeaError>)
        ensures
            match r {
                Ok(d) => self@.has_idea(idea_id) && *d == self@.idea(idea_id),
                Err(e) => !self@.has_idea(idea_id) && e == IdeaError::NotFound,
            },
    {
        if 1 <= idea_id && idea_id <= self.entries.len() as i128 {
            let i = (idea_id - 1) as usize;
            Ok(&self.entries[i].data)
        } else {
            Err(IdeaError::NotFound)
        }
    }

    /// Checks that the idea exists and is not deleted; on success, its
    /// position.
    fn ensure_votable(&self, idea_id: i128) -> (r: Result<usize, IdeaError>)
        ensures
            match r {
                Ok(i) => self@.votable(idea_id) is Ok && i == idea_id - 1 && i < self@.ideas.len(),
                Err(e) => self@.votable(idea_id) == Err::<(), IdeaError>(e),
            },
    {
        if idea_id < 1 || idea_id > self.entries.len() as i128 {
            return Err(IdeaError::NotFound);
        }
        let i = (idea_id - 1) as usize;
        if self.entries[i].data.deleted {
            return Err(IdeaError::Deleted);
        }
        Ok(i)
    }

    /// Checks that the idea exists, is not deleted and is authored by
    /// `caller`; on success, its position.
    fn ensure_active_and_author(&self, idea_id: i128, caller: &String) -> (r: Result<usize, IdeaError>)
        ensures
            match r {
                Ok(i) => self@.editable(idea_id, caller@) is Ok && i == idea_id - 1 && i < self@.ideas.len(),
                Err(e) => self@.editable(idea_id, caller@) == Err::<(), IdeaError>(e),
            },
    {
        if idea_id < 1 || idea_id > self.entries.len() as i128 {
            return Err(IdeaError::NotFound);
        }
        let i = (idea_id - 1) as usize;
        if self.entries[i].data.deleted {
            return Err(IdeaError::Deleted);
        }
        if self.entries[i].data.author != *caller {
            return Err(IdeaError::Unauthorized);
        }
        Ok(i)
    }

    /// Replaces the body of `caller`'s idea at ledger time `now`. Refused
    /// for a missing idea, a deleted one, or one that `caller` did not post.
    pub fn update_idea(&mut self, caller: &String, idea_id: i128, new_body: Vec<u8>, now: u64) -> (r: Result<(), IdeaError>)
        requires
            old(self).wf(),
        ensures
            r == old(self)@.editable(idea_id, caller@),
            r is Ok ==> final(self)@ == old(self)@.after_update(idea_id, new_body, now),
            r is Err ==> final(self)@ == old(self)@,
            final(self).wf(),
    {
        let i = match self.ensure_active_and_author(idea_id, caller) {
            Ok(i) => i,
            Err(e) => return Err(e),
        };
        self.entries[i].data.body = new_body;
        self.entries[i].data.updated_at = now;
        proof {
            let o = old(self)@;
            assert(self@.ideas =~= o.ideas.update(idea_id - 1, IdeaData { body: new_body, updated_at: now, ..o.idea(idea_id) }));
            assert(self@.ballots =~= o.ballots);
            assert(self@.counts =~= o.counts);
            assert(self@ == o.after_update(idea_id, new_body, now));
            o.lemma_update_keeps_wf(idea_id, new_body, now);
        }
        Ok(())
    }

    /// Marks `caller`'s idea deleted at ledger time `now`; a deleted idea
    /// takes no more votes or edits. Refused for a missing idea, a deleted
    /// one, or one that `caller` did not post.
    pub fn delete_idea(&mut self, caller: &String, idea_id: i128, now: u64) -> (r: Result<(), IdeaError>)
        requires
            old(self).wf(),
        ensures
            r == old(self)@.editable(idea_id, caller@),
            r is Ok ==> final(self)@ == old(self)@.after_delete(idea_id, now),
            r is Err ==> final(self)@ == old(self)@,
            final(self).wf(),
    {
        let i = match self.ensure_active_and_author(idea_id, caller) {
            Ok(i) => i,
            Err(e) => return Err(e),
        };
        self.entries[i].data.deleted = true;
        self.entries[i].data.updated_at = now;
        proof {
            let o = old(self)@;
            assert(self@.ideas =~= o.ideas.update(idea_id - 1, IdeaData { deleted: true, updated_at: now, ..o.idea(idea_id) }));
            assert(self@.ballots =~= o.ballots);
            assert(self@.counts =~= o.counts);
            assert(self@ == o.after_delete(idea_id, now));
            o.lemma_delete_keeps_wf(idea_id, now);
        }
        Ok(())
    }

    /// The ids of `author`'s ideas, in the order they were posted.
    pub fn list_ideas_by_author(&self, author: &String) -> (r: Vec<i128>)
        requires
            self.wf(),
        ensures
            r@ == listed(self@.by_author, author@),
            r@ == ids_where(self@.ideas, by_author_sel(author@)),
    {
        let at = find_author(&self.by_author, author);
        let r = lookup_ids(&self.by_author, at, author);
        proof {
            assert(listed(self@.by_author, author@) == ids_where(self@.ideas, by_author_sel(author@)));
        }
        r
    }

    /// `voter`'s vote on the idea, if there is one.
    pub fn get_vote(&self, idea_id: i128, voter: &String) -> (r: Option<VoteRecord>)
        requires
            self.wf(),
        ensures
            r == self@.vote_of(idea_id, voter@),
    {
        if idea_id < 1 || idea_id > self.entries.len() as i128 {
            return None;
        }
        let i = (idea_id - 1) as usize;
        match find_ballot(&self.entries[i].ballots, voter) {
            Some(j) => {
                proof {
                    assert(self@.ballots[i as int] == self.entries@[i as int].ballots@);
                    assert(ballots_wf(self@.ballots[i as int]));
                    crate::board::lemma_ballot_index_unique(self@.ballots[i as int], j as int);
                }
                Some(self.entries[i].ballots[j].record)
            },
            None => None,
        }
    }

    /// The configured reputation contract, or `ReputationContractNotConfigured`.
    fn reputation_source(&self) -> (r: Result<String, IdeaError>)
        ensures
            match r {
                Ok(c) => self@.reputation_check() == Ok::<Seq<char>, IdeaError>(c@),
                Err(e) => self@.reputation_check() == Err::<Seq<char>, IdeaError>(e),
            },
    {
        match &self.reputation_contract {
            Some(c) => Ok(c.clone()),
            None => Err(IdeaError::ReputationContractNotConfigured),
        }
    }

    /// The checks that come before a new vote: the idea must exist and not
    /// be deleted, `voter` must not have voted on it, and a reputation
    /// contract must be configured. On success, the reputation contract to
    /// ask for `voter`'s score.
    pub fn reputation_source_for_vote(&self, idea_id: i128, voter: &String) -> (r: Result<String, IdeaError>)
        requires
            self.wf(),
        ensures
            match r {
                Ok(c) => self@.vote_precheck(idea_id, voter@) == Ok::<Seq<char>, IdeaError>(c@),
                Err(e) => self@.vote_precheck(idea_id, voter@) == Err::<Seq<char>, IdeaError>(e),
            },
    {
        if let Err(e) = self.ensure_votable(idea_id) {
            return Err(e);
        }
        if self.get_vote(idea_id, voter).is_some() {
            return Err(IdeaError::VoteAlreadyExists);
        }
        self.reputation_source()
    }

    /// The checks that come before a changed vote: the idea must exist and
    /// not be deleted, `voter` must have voted on it, and a reputation
    /// contract must be configured. On success, the reputation contract to
    /// ask for `voter`'s score.
    pub fn reputation_source_for_change(&self, idea_id: i128, voter: &String) -> (r: Result<String, IdeaError>)
        requires
            self.wf(),
        ensures
            match r {
                Ok(c) => self@.change_precheck(idea_id, voter@) == Ok::<Seq<char>, IdeaError>(c@),
                Err(e) => self@.change_precheck(idea_id, voter@) == Err::<Seq<char>, IdeaError>(e),
            },
    {
        if let Err(e) = self.ensure_votable(idea_id) {
            return Err(e);
        }
        if self.get_vote(idea_id, voter).is_none() {
            return Err(IdeaError::VoteNotFound);
        }
        self.reputation_source()
    }

    /// Whether a new vote with reputation `score` keeps the idea's tally in
    /// the `i32` range; `vote` may be called exactly when it does.
    pub fn vote_fits(&self, idea_id: i128, voter: &String, direction: VoteDirection, score: i32) -> (r: bool)
        requires
            self.wf(),
        ensures
            r == self@.vote_in_range(idea_id, voter@, direction, score),
    {
        if self.reputation_source_for_vote(idea_id, voter).is_err() {
            return true;
        }
        match reputation_weight(score) {
            Err(_) => true,
            Ok(w) => {
                let i = (idea_id - 1) as usize;
                proof {
                    assert(self@.has_idea(idea_id));
                    assert(self.entries@.len() == self.entries.len());
                    assert(i == idea_id - 1);
                    assert(self@.count_of(idea_id) == self.entries@[i as int].counts);
                }
                delta_fits(self.entries[i].counts, None, Some(VoteRecord { direction, weight: w }))
            },
        }
    }

    /// Whether a changed vote with reputation `score` keeps the idea's tally
    /// in the `i32` range; `change_vote` may be called exactly when it does.
    pub fn change_vote_fits(&self, idea_id: i128, voter: &String, direction: VoteDirection, score: i32) -> (r: bool)
        requires
            self.wf(),
        ensures
            r == self@.change_in_range(idea_id, voter@, direction, score),
    {
        if self.reputation_source_for_change(idea_id, voter).is_err() {
            return true;
        }
        match reputation_weight(score) {
            Err(_) => true,
            Ok(w) => {
                let i = (idea_id - 1) as usize;
                proof {
                    assert(self@.has_idea(idea_id));
                    assert(self.entries@.len() == self.entries.len());
                    assert(i == idea_id - 1);
                    assert(self@.count_of(idea_id) == self.entries@[i as int].counts);
                }
                let old_vote = self.get_vote(idea_id, voter);
                delta_fits(self.entries[i].counts, old_vote, Some(VoteRecord { direction, weight: w }))
            },
        }
    }

    /// The stored tally of the idea, which always equals the sum of the
    /// weights of its votes in each direction. Refused for a missing or
    /// deleted idea.
    pub fn get_vote_count(&self, idea_id: i128) -> (r: Result<VoteCount, IdeaError>)
        requires
            self.wf(),
        ensures
            match self@.votable(idea_id) {
                Ok(_) => r == Ok::<VoteCount, IdeaError>(self@.count_of(idea_id)),
                Err(e) => r == Err::<VoteCount, IdeaError>(e),
            },
            r matches Ok(c) ==> counts_match(c, self@.ballots_of(idea_id)),
    {
        match self.ensure_votable(idea_id) {
            Ok(i) => {
                proof {
                    assert(counts_match(self@.counts[i as int], self@.ballots[i as int]));
                }
                Ok(self.entries[i].counts)
            },
            Err(e) => Err(e),
        }
    }

    /// Casts `voter`'s vote on the idea with the weight that the reputation
    /// score `score` gives it; `score` is what the configured reputation
    /// contract reports for `voter`. Refused, in this order, for a missing
    /// or deleted idea, a voter who has already voted, a board with no
    /// reputation contract, and a score that gives no positive weight.
    pub fn vote(&mut self, idea_id: i128, voter: String, direction: VoteDirection, score: i32) -> (r: Result<(), IdeaError>)
        requires
            old(self).wf(),
            old(self)@.vote_in_range(idea_id, voter@, direction, score),
        ensures
            match old(self)@.vote_check(idea_id, voter@, score) {
                Ok(w) => r is Ok && final(self)@ == old(self)@.after_vote(
                    idea_id,
                    Ballot { voter, record: VoteRecord { direction, weight: w } },
                ),
                Err(e) => r == Err::<(), IdeaError>(e) && final(self)@ == old(self)@,
            },
            final(self).wf(),
    {
        let i = match self.ensure_votable(idea_id) {
            Ok(i) => i,
            Err(e) => return Err(e),
        };
        if find_ballot(&self.entries[i].ballots, &voter).is_some() {
            proof {
                assert(self@.ballots[i as int] == self.entries@[i as int].ballots@);
            }
            return Err(IdeaError::VoteAlreadyExists);
        }
        proof {
            assert(self@.ballots[i as int] == self.entries@[i as int].ballots@);
        }
        if self.reputation_contract.is_none() {
            return Err(IdeaError::ReputationContractNotConfigured);
        }
        let weight = match reputation_weight(score) {
            Ok(w) => w,
            Err(e) => return Err(e),
        };
        let record = VoteRecord { direction, weight };
        proof {
            assert(self@.counts[i as int] == self.entries@[i as int].counts);
        }
        let counts = apply_vote_delta(self.entries[i].counts, None, Some(record));
        let ghost b = Ballot { voter, record };
        self.entries[i].ballots.push(Ballot { voter, record });
        self.entries[i].counts = counts;
        proof {
            let o = old(self)@;
            assert(self@.ideas =~= o.ideas);
            assert(self@.ballots =~= o.ballots.update(idea_id - 1, o.ballots_of(idea_id).push(b)));
            assert(self@.counts =~= o.counts.update(idea_id - 1, crate::tally::vote_delta(o.count_of(idea_id), None, Some(record))));
            assert(self@ == o.after_vote(idea_id, b));
            o.lemma_vote_keeps_wf(idea_id, b);
        }
        Ok(())
    }

    /// Replaces `voter`'s vote on the idea by one in `new_direction`, with
    /// the weight that the reputation score `score` gives it. Refused, in
    /// this order, for a missing or deleted idea, a voter who has not voted,
    /// a board with no reputation contract, and a score that gives no
    /// positive weight.
    pub fn change_vote(&mut self, idea_id: i128, voter: &String, new_direction: VoteDirection, score: i32) -> (r: Result<(), IdeaError>)
        requires
            old(self).wf(),
            old(self)@.change_in_range(idea_id, voter@, new_direction, score),
        ensures
            match old(self)@.change_check(idea_id, voter@, score) {
                Ok(w) => r is Ok && final(self)@ == old(self)@.after_change(
                    idea_id,
                    *voter,
                    VoteRecord { direction: new_direction, weight: w },
                ),
                Err(e) => r == Err::<(), IdeaError>(e) && final(self)@ == old(self)@,
            },
            final(self).wf(),
    {
        let i = match self.ensure_votable(idea_id) {
            Ok(i) => i,
            Err(e) => return Err(e),
        };
        proof {
            assert(self@.ballots[i as int] == self.entries@[i as int].ballots@);
            assert(self@.counts[i as int] == self.entries@[i as int].counts);
        }
        let j = match find_ballot(&self.entries[i].ballots, voter) {
            Some(j) => j,
            None => return Err(IdeaError::VoteNotFound),
        };
        proof {
            assert(ballots_wf(self@.ballots[i as int]));
            crate::board::lemma_ballot_index_unique(self@.ballots[i as int], j as int);
        }
        if self.reputation_contract.is_none() {
            return Err(IdeaError::ReputationContractNotConfigured);
        }
        let weight = match reputation_weight(score) {
            Ok(w) => w,
            Err(e) => return Err(e),
        };
        let existing = self.entries[i].ballots[j].record;
        let updated = VoteRecord { direction: new_direction, weight };
        let counts = apply_vote_delta(self.entries[i].counts, Some(existing), Some(updated));
        let ghost s0 = self.entries@[i as int].ballots@;
        self.entries[i].ballots.remove(j);
        self.entries[i].ballots.push(Ballot { voter: voter.clone(), record: updated });
        self.entries[i].counts = counts;
        proof {
            let o = old(self)@;
            let s = o.ballots_of(idea_id);
            assert(s0 == s);
            assert(ballot_index(s, voter@) == j);
            crate::tally::lemma_change_is_remove_then_add(o.count_of(idea_id), existing, updated);
            let b = Ballot { voter: *voter, record: updated };
            let r = o.after_remove(idea_id, voter@);
            assert(self@.ideas =~= r.ideas);
            assert(self@.ballots =~= r.ballots.update(idea_id - 1, r.ballots_of(idea_id).push(b)));
            assert(self@.counts =~= r.counts.update(idea_id - 1, crate::tally::vote_delta(r.count_of(idea_id), None, Some(updated))));
            assert(self@ == o.after_change(idea_id, *voter, updated));
            o.lemma_change_keeps_wf(idea_id, *voter, updated);
        }
        Ok(())
    }

    /// Withdraws `voter`'s vote on the idea and returns it. Refused, in this
    /// order, for a missing or deleted idea and a voter who has not voted.
    pub fn remove_vote(&mut self, idea_id: i128, voter: &String) -> (r: Result<VoteRecord, IdeaError>)
        requires
            old(self).wf(),
        ensures
            r == old(self)@.remove_check(idea_id, voter@),
            r is Ok ==> final(self)@ == old(self)@.after_remove(idea_id, voter@),
            r is Err ==> final(self)@ == old(self)@,
            final(self).wf(),
    {
        let i = match self.ensure_votable(idea_id) {
            Ok(i) => i,
            Err(e) => return Err(e),
        };
        proof {
            assert(self@.ballots[i as int] == self.entries@[i as int].ballots@);
            assert(self@.counts[i as int] == self.entries@[i as int].counts);
        }
        let j = match find_ballot(&self.entries[i].ballots, voter) {
            Some(j) => j,
            None => return Err(IdeaError::VoteNotFound),
        };
        proof {
            assert(ballots_wf(self@.ballots[i as int]));
            crate::board::lemma_ballot_index_unique(self@.ballots[i as int], j as int);
            old(self)@.lemma_remove_in_range(idea_id, voter@);
        }
        let existing = self.entries[i].ballots[j].record;
        let counts = apply_vote_delta(self.entries[i].counts, Some(existing), None);
        self.entries[i].ballots.remove(j);
        self.entries[i].counts = counts;
        proof {
            let o = old(self)@;
            let s = o.ballots_of(idea_id);
            assert(ballot_index(s, voter@) == j);
            assert(self@.ideas =~= o.ideas);
            assert(self@.ballots =~= o.ballots.update(idea_id - 1, s.remove(j as int)));
            assert(self@.counts =~= o.counts.update(idea_id - 1, crate::tally::vote_delta(o.count_of(idea_id), Some(s[j as int].record), None)));
            assert(self@ == o.after_remove(idea_id, voter@));
            o.lemma_remove_keeps_wf(idea_id, voter@);
        }
        Ok(existing)
    }
}

} // verus!
