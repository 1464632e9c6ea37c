//! The prediction verifier: an admin keeps a whitelist of oracles, and a
//! whitelisted oracle resolves a prediction once its deadline has passed by
//! reporting the actual price. A resolution is recorded once and never
//! changes afterwards.

use std::collections::HashMap;
use vstd::prelude::*;
use crate::types::{Resolution, ResolutionResult, VerifierError};

verus! {

broadcast use vstd::std_specs::hash::group_hash_axioms;

/// What the verifier holds, with addresses taken by their text.
pub struct VerifierState {
    pub admin: Option<Seq<char>>,
    pub oracles: Seq<Seq<char>>,
    pub resolutions: Map<i128, Resolution>,
}

/// The outcome of a prediction: correct when the actual price reached the
/// target.
pub open spec fn resolution_outcome(actual_price: u128, target_price: u128) -> ResolutionResult {
    if actual_price >= target_price {
        ResolutionResult::Correct
    } else {
        ResolutionResult::Incorrect
    }
}

/// The text of an optional address.
pub open spec fn opt_text(a: Option<String>) -> Option<Seq<char>> {
    match a {
        Some(s) => Some(s@),
        None => None,
    }
}

impl VerifierState {
    /// The state of a verifier that has not been initialised.
    pub open spec fn empty() -> VerifierState {
        VerifierState { admin: None, oracles: Seq::empty(), resolutions: Map::empty() }
    }

    /// The whitelist holds each oracle once.
    pub open spec fn wf(self) -> bool {
        self.oracles.no_duplicates()
    }

    /// Whether `oracle` is whitelisted.
    pub open spec fn is_oracle(self, oracle: Seq<char>) -> bool {
        self.oracles.contains(oracle)
    }

    /// Whether `prediction_id` has been resolved.
    pub open spec fn is_resolved(self, prediction_id: i128) -> bool {
        self.resolutions.contains_key(prediction_id)
    }

    /// Outcome of `init`: refused once an admin is set.
    pub open spec fn init_check(self) -> Result<(), VerifierError> {
        if self.admin is Some {
            Err(VerifierError::AlreadyInitialised)
        } else {
            Ok(())
        }
    }

    /// The state after `admin` has been made the admin.
    pub open spec fn initialised(self, admin: Seq<char>) -> VerifierState {
        VerifierState { admin: Some(admin), ..self }
    }

    /// Whether `caller` may manage the whitelist.
    pub open spec fn admin_check(self, caller: Seq<char>) -> Result<(), VerifierError> {
        match self.admin {
            None => Err(VerifierError::NotInitialised),
            Some(a) => if a == caller {
                Ok(())
            } else {
                Err(VerifierError::Unauthorized)
            },
        }
    }

    /// The state with `oracle` whitelisted; whitelisting it again changes
    /// nothing.
    pub open spec fn with_oracle(self, oracle: Seq<char>) -> VerifierState {
        if self.oracles.contains(oracle) {
            self
        } else {
            VerifierState { oracles: self.oracles.push(oracle), ..self }
        }
    }

    /// The state with `oracle` taken off the whitelist; the others keep
    /// their order.
    pub open spec fn without_oracle(self, oracle: Seq<char>) -> VerifierState {
        if self.oracles.contains(oracle) {
            VerifierState { oracles: self.oracles.remove(self.oracles.index_of(oracle)), ..self }
        } else {
            self
        }
    }

    /// Outcome of a resolution request: the oracle must be whitelisted, the
    /// ledger time `now` must be past the deadline, and the prediction must
    /// not have been resolved yet, checked in that order.
    pub open spec fn resolve_check(self, oracle: Seq<char>, prediction_id: i128, deadline: u64, now: u64) -> Result<(), VerifierError> {
        if !self.is_oracle(oracle) {
            Err(VerifierError::OracleNotAuthorized)
        } else if now <= deadline {
            Err(VerifierError::DeadlineNotReached)
        } else if self.is_resolved(prediction_id) {
            Err(VerifierError::AlreadyResolved)
        } else {
            Ok(())
        }
    }

    /// The state with `resolution` recorded under its prediction.
    pub open spec fn with_resolution(self, resolution: Resolution) -> VerifierState {
        VerifierState { resolutions: self.resolutions.insert(resolution.prediction_id, resolution), ..self }
    }
}

/// The resolution that an oracle's report makes.
pub open spec fn resolution_of(
    oracle: String,
    prediction_id: i128,
    actual_price: u128,
    target_price: u128,
    resolution_timestamp: u64,
) -> Resolution {
    Resolution {
        prediction_id,
        actual_price,
        oracle,
        resolution_timestamp,
        result: resolution_outcome(actual_price, target_price),
    }
}

/// The outcome of a prediction whose target was `target_price` when the
/// actual price is `actual_price`.
pub fn resolution_result(actual_price: u128, target_price: u128) -> (r: ResolutionResult)
    ensures
        r == resolution_outcome(actual_price, target_price),
{
    if actual_price >= target_price {
        ResolutionResult::Correct
    } else {
        ResolutionResult::Incorrect
    }
}

/// Storage of the prediction verifier.
pub struct PredictionVerifier {
    admin: Option<String>,
    oracles: Vec<String>,
    resolutions: HashMap<i128, Resolution>,
}

impl View for PredictionVerifier {
    type V = VerifierState;

    closed spec fn view(&self) -> VerifierState {
        VerifierState {
            admin: opt_text(self.admin),
            oracles: self.oracles@.map_values(|s: String| s@),
            resolutions: self.resolutions@,
        }
    }
}

impl PredictionVerifier {
    /// A verifier with no admin, no oracle and no resolution.
    pub fn new() -> (r: PredictionVerifier)
        ensures
            r@ == VerifierState::empty(),
            r@.wf(),
    {
        let r = PredictionVerifier { admin: None, oracles: Vec::new(), resolutions: HashMap::new() };
        assert(r@.oracles =~= Seq::<Seq<char>>::empty());
        r
    }

    /// Makes `admin` the admin. Refused once an admin is set.
    pub fn init(&mut self, admin: String) -> (r: Result<(), VerifierError>)
        requires
            old(self)@.wf(),
        ensures
            r == old(self)@.init_check(),
            r is Ok ==> final(self)@ == old(self)@.initialised(admin@),
            r is Err ==> final(self)@ == old(self)@,
            final(self)@.wf(),
    {
        if self.admin.is_some() {
            return Err(VerifierError::AlreadyInitialised);
        }
        self.admin = Some(admin);
        Ok(())
    }

    /// The admin, if one has been set.
    pub fn get_admin(&self) -> (r: Option<String>)
        ensures
            opt_text(r) == self@.admin,
    {
        match &self.admin {
            Some(a) => Some(a.clone()),
            None => None,
        }
    }

    /// Checks that `caller` is the admin.
    fn require_admin(&self, caller: &String) -> (r: Result<(), VerifierError>)
        ensures
            r == self@.admin_check(caller@),
    {
        match &self.admin {
            None => Err(VerifierError::NotInitialised),
            Some(a) => if *a == *caller {
                Ok(())
            } else {
                Err(VerifierError::Unauthorized)
            },
        }
    }

    /// The position of `oracle` on the whitelist, if it is there.
    fn find_oracle(&self, oracle: &String) -> (r: Option<usize>)
        ensures
            match r {
                Some(i) => i < self@.oracles.len() && self@.oracles[i as int] == oracle@,
                None => !self@.is_oracle(oracle@),
            },
    {
        let n = self.oracles.len();
        let mut i: usize = 0;
        while i < n
            invariant
                n == self.oracles@.len(),
                self@.oracles.len() == n,
                i <= n,
                forall|j: int| 0 <= j < i ==> self@.oracles[j] != oracle@,
            decreases n - i,
        {
            if self.oracles[i] == *oracle {
                return Some(i);
            }
            i = i + 1;
        }
        None
    }

    /// Whitelists `oracle`. Only the admin may do so; an oracle already on
    /// the whitelist stays there once.
    pub fn set_authorized_oracle(&mut self, caller: &String, oracle: String) -> (r: Result<(), VerifierError>)
        requires
            old(self)@.wf(),
        ensures
            r == old(self)@.admin_check(caller@),
            r is Ok ==> final(self)@ == old(self)@.with_oracle(oracle@),
            r is Err ==> final(self)@ == old(self)@,
            final(self)@.wf(),
    {
        let checked = self.require_admin(caller);
        if checked.is_err() {
            return checked;
        }
        match self.find_oracle(&oracle) {
            Some(_) => {},
            None => {
                let ghost before = self@;
                self.oracles.push(oracle);
                proof {
                    assert(self@.oracles =~= before.oracles.push(oracle@));
                }
            },
        }
        Ok(())
    }

    /// Takes `oracle` off the whitelist. Only the admin may do so; an
    /// address that is not whitelisted leaves the whitelist as it is.
    pub fn remove_authorized_oracle(&mut self, caller: &String, oracle: &String) -> (r: Result<(), VerifierError>)
        requires
            old(self)@.wf(),
        ensures
            r == old(self)@.admin_check(caller@),
            r is Ok ==> final(self)@ == old(self)@.without_oracle(oracle@),
            r is Err ==> final(self)@ == old(self)@,
            final(self)@.wf(),
    {
        let checked = self.require_admin(caller);
        if checked.is_err() {
            return checked;
        }
        match self.find_oracle(oracle) {
            Some(i) => {
                let ghost before = self@;
                proof {
                    let k = before.oracles.index_of(oracle@);
                    assert(0 <= k < before.oracles.len() && before.oracles[k] == oracle@);
                    assert(k == i);
                }
                self.oracles.remove(i);
                proof {
                    assert(self@.oracles =~= before.oracles.remove(i as int));
                    assert forall|a: int, b: int|
                        0 <= a < self@.oracles.len() && 0 <= b < self@.oracles.len() && a != b
                        implies self@.oracles[a] != self@.oracles[b] by {
                        let a0 = if a < i { a } else { a + 1 };
                        let b0 = if b < i { b } else { b + 1 };
                        assert(self@.oracles[a] == before.oracles[a0]);
                        assert(self@.oracles[b] == before.oracles[b0]);
                    }
                }
            },
            None => {},
        }
        Ok(())
    }

    /// The whitelisted oracles, in the order they were added.
    pub fn get_authorized_oracles(&self) -> (r: Vec<String>)
        ensures
            r@.map_values(|s: String| s@) == self@.oracles,
    {
        let n = self.oracles.len();
        let mut out: Vec<String> = Vec::new();
        let mut i: usize = 0;
        while i < n
            invariant
                n == self.oracles@.len(),
                i <= n,
                out@ == self.oracles@.subrange(0, i as int),
            decreases n - i,
        {
            out.push(self.oracles[i].clone());
            i = i + 1;
            assert(out@ =~= self.oracles@.subrange(0, i as int));
        }
        assert(out@ =~= self.oracles@);
        out
    }

    /// Records the price that `oracle` reports for a prediction whose
    /// deadline has passed at ledger time `now`. The result is `Correct`
    /// when `actual_price >= target_price` and `Incorrect` otherwise.
    pub fn resolve_prediction(
        &mut self,
        oracle: String,
        prediction_id: i128,
        actual_price: u128,
        target_price: u128,
        deadline: u64,
        resolution_timestamp: u64,
        now: u64,
    ) -> (r: Result<(), VerifierError>)
        requires
            old(self)@.wf(),
        ensures
            r == old(self)@.resolve_check(oracle@, prediction_id, deadline, now),
            r is Ok ==> final(self)@ == old(self)@.with_resolution(
                resolution_of(oracle, prediction_id, actual_price, target_price, resolution_timestamp),
            ),
            r is Err ==> final(self)@ == old(self)@,
            final(self)@.wf(),
    {
        if self.find_oracle(&oracle).is_none() {
            return Err(VerifierError::OracleNotAuthorized);
        }
        if now <= deadline {
            return Err(VerifierError::DeadlineNotReached);
        }
        if self.resolutions.contains_key(&prediction_id) {
            return Err(VerifierError::AlreadyResolved);
        }
        let result = resolution_result(actual_price, target_price);
        let resolution = Resolution {
            prediction_id,
            actual_price,
            oracle,
            resolution_timestamp,
            result,
        };
        self.resolutions.insert(prediction_id, resolution);
        Ok(())
    }

    /// The resolution recorded for a prediction, if any.
    pub fn get_resolution(&self, prediction_id: i128) -> (r: Option<Resolution>)
        ensures
            r == (if self@.is_resolved(prediction_id) {
                Some(self@.resolutions[prediction_id])
            } else {
                None
            }),
    {
        match self.resolutions.get(&prediction_id) {
            Some(res) => Some(res.copied()),
            None => None,
        }
    }

    /// Whether a prediction has been resolved.
    pub fn is_resolved(&self, prediction_id: i128) -> (r: bool)
        ensures
            r == self@.is_resolved(prediction_id),
    {
        self.resolutions.contains_key(&prediction_id)
    }
}

/// Once an admin is set, a second `init` is refused.
pub proof fn lemma_init_only_once(s: VerifierState, first: Seq<char>)
    requires
        s.init_check() is Ok,
    ensures
        s.initialised(first).admin == Some(first),
        s.initialised(first).init_check() == Err::<(), VerifierError>(VerifierError::AlreadyInitialised),
{
}

/// Whitelisting an oracle puts it on the whitelist and keeps every oracle
/// that was there.
pub proof fn lemma_set_oracle_whitelists(s: VerifierState, oracle: Seq<char>)
    requires
        s.wf(),
    ensures
        s.with_oracle(oracle).wf(),
        s.with_oracle(oracle).is_oracle(oracle),
        forall|x: Seq<char>| s.is_oracle(x) ==> s.with_oracle(oracle).is_oracle(x),
        forall|x: Seq<char>| x != oracle ==> (s.with_oracle(oracle).is_oracle(x) <==> s.is_oracle(x)),
{
    if !s.oracles.contains(oracle) {
        let t = s.oracles.push(oracle);
        assert forall|x: Seq<char>| s.is_oracle(x) implies s.with_oracle(oracle).is_oracle(x) by {
            let j = choose|j: int| 0 <= j < s.oracles.len() && s.oracles[j] == x;
            assert(t[j] == x);
        }
        assert(t[s.oracles.len() as int] == oracle);
        assert forall|x: Seq<char>| x != oracle && s.with_oracle(oracle).is_oracle(x) implies s.is_oracle(x) by {
            let j = choose|j: int| 0 <= j < t.len() && t[j] == x;
            assert(s.oracles[j] == x);
        }
    }
}

/// Revoking an oracle takes it off the whitelist and leaves every other
/// oracle as it was.
pub proof fn lemma_remove_oracle_revokes(s: VerifierState, oracle: Seq<char>)
    requires
        s.wf(),
    ensures
        s.without_oracle(oracle).wf(),
        !s.without_oracle(oracle).is_oracle(oracle),
        forall|x: Seq<char>| x != oracle ==> (s.without_oracle(oracle).is_oracle(x) <==> s.is_oracle(x)),
{
    if s.oracles.contains(oracle) {
        let i = s.oracles.index_of(oracle);
        let t = s.oracles.remove(i);
        assert(0 <= i < s.oracles.len() && s.oracles[i] == oracle);
        assert forall|a: int| 0 <= a < t.len() implies t[a] == s.oracles[if a < i { a } else { a + 1 }] by {}
        assert forall|a: int, b: int| 0 <= a < t.len() && 0 <= b < t.len() && a != b implies t[a] != t[b] by {
            let a0 = if a < i { a } else { a + 1 };
            let b0 = if b < i { b } else { b + 1 };
            assert(t[a] == s.oracles[a0]);
            assert(t[b] == s.oracles[b0]);
        }
        assert forall|a: int| 0 <= a < t.len() implies t[a] != oracle by {
            let a0 = if a < i { a } else { a + 1 };
            assert(t[a] == s.oracles[a0]);
        }
        assert forall|x: Seq<char>| x != oracle && s.is_oracle(x) implies s.without_oracle(oracle).is_oracle(x) by {
            let j = choose|j: int| 0 <= j < s.oracles.len() && s.oracles[j] == x;
            assert(j != i);
            if j < i {
                assert(t[j] == x);
            } else {
                assert(t[j - 1] == x);
            }
        }
        assert forall|x: Seq<char>| s.without_oracle(oracle).is_oracle(x) implies s.is_oracle(x) by {
            let j = choose|j: int| 0 <= j < t.len() && t[j] == x;
            let j0 = if j < i { j } else { j + 1 };
            assert(s.oracles[j0] == x);
        }
    }
}

/// An oracle that has been revoked cannot resolve any prediction.
pub proof fn lemma_revoked_oracle_cannot_resolve(s: VerifierState, oracle: Seq<char>, prediction_id: i128, deadline: u64, now: u64)
    requires
        s.wf(),
    ensures
        s.without_oracle(oracle).resolve_check(oracle, prediction_id, deadline, now)
            == Err::<(), VerifierError>(VerifierError::OracleNotAuthorized),
{
    lemma_remove_oracle_revokes(s, oracle);
}

/// A prediction's outcome is `Correct` exactly when the actual price
/// reached the target.
pub proof fn lemma_outcome_rule(actual_price: u128, target_price: u128)
    ensures
        (resolution_outcome(actual_price, target_price) == ResolutionResult::Correct) <==> actual_price >= target_price,
        (resolution_outcome(actual_price, target_price) == ResolutionResult::Incorrect) <==> actual_price < target_price,
{
}

/// A resolution is final: once recorded, every later request to resolve
/// the same prediction is refused, with `AlreadyResolved` when the oracle
/// is whitelisted and the deadline has passed, and the recorded resolution
/// is the one the oracle reported.
pub proof fn lemma_resolution_is_final(
    s: VerifierState,
    oracle: String,
    prediction_id: i128,
    actual_price: u128,
    target_price: u128,
    deadline: u64,
    resolution_timestamp: u64,
    now: u64,
    later_oracle: Seq<char>,
    later_deadline: u64,
    later_now: u64,
)
    requires
        s.resolve_check(oracle@, prediction_id, deadline, now) is Ok,
    ensures
        ({
            let t = s.with_resolution(resolution_of(oracle, prediction_id, actual_price, target_price, resolution_timestamp));
            &&& t.is_resolved(prediction_id)
            &&& t.resolutions[prediction_id] == resolution_of(oracle, prediction_id, actual_price, target_price, resolution_timestamp)
            &&& t.resolve_check(later_oracle, prediction_id, later_deadline, later_now) is Err
            &&& (t.is_oracle(later_oracle) && later_now > later_deadline) ==> t.resolve_check(
                later_oracle,
                prediction_id,
                later_deadline,
                later_now,
            ) == Err::<(), VerifierError>(VerifierError::AlreadyResolved)
        }),
{
}

/// A recorded resolution is kept by every other operation: whitelisting,
/// revoking, initialising, and resolving other predictions.
pub proof fn lemma_resolution_kept(s: VerifierState, prediction_id: i128, oracle: Seq<char>, admin: Seq<char>, other: Resolution)
    requires
        s.is_resolved(prediction_id),
        !s.is_resolved(other.prediction_id),
    ensures
        s.with_oracle(oracle).resolutions[prediction_id] == s.resolutions[prediction_id],
        s.without_oracle(oracle).resolutions[prediction_id] == s.resolutions[prediction_id],
        s.initialised(admin).resolutions[prediction_id] == s.resolutions[prediction_id],
        s.with_resolution(other).resolutions[prediction_id] == s.resolutions[prediction_id],
        s.with_resolution(other).is_resolved(prediction_id),
{
}

/// Predictions are independent: resolving one leaves whether any other is
/// resolved, and its resolution, as they were.
pub proof fn lemma_predictions_independent(s: VerifierState, r: Resolution, other: i128)
    requires
        other != r.prediction_id,
    ensures
        s.with_resolution(r).is_resolved(other) == s.is_resolved(other),
        s.is_resolved(other) ==> s.with_resolution(r).resolutions[other] == s.resolutions[other],
        s.with_resolution(r).is_resolved(r.prediction_id),
        s.with_resolution(r).resolutions[r.prediction_id] == r,
{
}

/// A call on the verifier, with the ledger time for a resolution. Addresses
/// a call only compares are given by their text.
pub enum VerifierCall {
    Init { admin: Seq<char> },
    SetOracle { caller: Seq<char>, oracle: Seq<char> },
    RemoveOracle { caller: Seq<char>, oracle: Seq<char> },
    Resolve {
        oracle: String,
        prediction_id: i128,
        actual_price: u128,
        target_price: u128,
        deadline: u64,
        resolution_timestamp: u64,
        now: u64,
    },
}

impl VerifierState {
    /// The verifier after a call: the call's transition where it is
    /// accepted, the verifier unchanged where it is refused.
    pub open spec fn step(self, c: VerifierCall) -> VerifierState {
        match c {
            VerifierCall::Init { admin } => if self.init_check() is Ok {
                self.initialised(admin)
            } else {
                self
            },
            VerifierCall::SetOracle { caller, oracle } => if self.admin_check(caller) is Ok {
                self.with_oracle(oracle)
            } else {
                self
            },
            VerifierCall::RemoveOracle { caller, oracle } => if self.admin_check(caller) is Ok {
                self.without_oracle(oracle)
            } else {
                self
            },
            VerifierCall::Resolve {
                oracle,
                prediction_id,
                actual_price,
                target_price,
                deadline,
                resolution_timestamp,
                now,
            } => if self.resolve_check(oracle@, prediction_id, deadline, now) is Ok {
                self.with_resolution(
                    resolution_of(oracle, prediction_id, actual_price, target_price, resolution_timestamp),
                )
            } else {
                self
            },
        }
    }

    /// The verifier after the calls, in order.
    pub open spec fn run(self, calls: Seq<VerifierCall>) -> VerifierState
        decreases calls.len(),
    {
        if calls.len() == 0 {
            self
        } else {
            self.run(calls.drop_last()).step(calls.last())
        }
    }
}

/// A recorded resolution survives any sequence of calls: the prediction
/// stays resolved with the same resolution, and every later request to
/// resolve it is refused.
pub proof fn lemma_resolution_survives(s: VerifierState, prediction_id: i128, calls: Seq<VerifierCall>, oracle: Seq<char>, deadline: u64, now: u64)
    requires
        s.is_resolved(prediction_id),
    ensures
        s.run(calls).is_resolved(prediction_id),
        s.run(calls).resolutions[prediction_id] == s.resolutions[prediction_id],
        s.run(calls).resolve_check(oracle, prediction_id, deadline, now) is Err,
    decreases calls.len(),
{
    if calls.len() > 0 {
        lemma_resolution_survives(s, prediction_id, calls.drop_last(), oracle, deadline, now);
    }
}

/// Every sequence of calls keeps the whitelist free of repeats.
pub proof fn lemma_run_keeps_wf(s: VerifierState, calls: Seq<VerifierCall>)
    requires
        s.wf(),
    ensures
        s.run(calls).wf(),
    decreases calls.len(),
{
    if calls.len() > 0 {
        lemma_run_keeps_wf(s, calls.drop_last());
        let t = s.run(calls.drop_last());
        match calls.last() {
            VerifierCall::SetOracle { caller, oracle } => lemma_set_oracle_whitelists(t, oracle),
            VerifierCall::RemoveOracle { caller, oracle } => lemma_remove_oracle_revokes(t, oracle),
            _ => {},
        }
    }
}

} // verus!
