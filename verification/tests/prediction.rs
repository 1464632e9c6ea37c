use prediction_verifier::{PredictionVerifier, Resolution, ResolutionResult, VerifierError};

/// Seed data for a typical prediction scenario: an admin, a whitelisted
/// oracle, a rogue address, and a prediction with its target and deadline.
struct TestContext {
    verifier: PredictionVerifier,
    now: u64,
    admin: String,
    oracle: String,
    rogue: String,
    prediction_id: i128,
    target_price: u128,
    deadline: u64,
}

impl TestContext {
    fn new() -> Self {
        let mut verifier = PredictionVerifier::new();
        let admin = String::from("GADMINADDRESS");
        let oracle = String::from("GORACLEADDRESS");
        let rogue = String::from("GROGUEADDRESS");

        // Initialise; the ledger starts at time 0, before the deadline.
        verifier.init(admin.clone()).unwrap();
        verifier.set_authorized_oracle(&admin, oracle.clone()).unwrap();

        Self {
            verifier,
            now: 0,
            admin,
            oracle,
            rogue,
            prediction_id: 42,
            target_price: 100_000_u128,
            deadline: 1_000,
        }
    }

    /// Advance the ledger past the deadline.
    fn advance_past_deadline(&mut self) {
        self.now = self.deadline + 1;
    }

    /// Resolve with actual == target, which is `Correct`.
    fn resolve_correct(&mut self) -> Resolution {
        self.advance_past_deadline();
        self.verifier
            .resolve_prediction(
                self.oracle.clone(),
                self.prediction_id,
                self.target_price,
                self.target_price,
                self.deadline,
                self.deadline + 1,
                self.now,
            )
            .unwrap();
        self.verifier
            .get_resolution(self.prediction_id)
            .expect("resolution must exist after resolve_prediction")
    }
}

#[test]
fn test_init_sets_admin() {
    let ctx = TestContext::new();
    assert_eq!(ctx.verifier.get_admin(), Some(ctx.admin));
}

#[test]
#[should_panic(expected = "AlreadyInitialised")]
fn test_init_cannot_be_called_twice() {
    let mut ctx = TestContext::new();
    let admin = ctx.admin.clone();
    ctx.verifier.init(admin).unwrap();
}

#[test]
fn test_set_authorized_oracle_adds_to_list() {
    let ctx = TestContext::new();
    let oracles = ctx.verifier.get_authorized_oracles();
    assert!(oracles.contains(&ctx.oracle));
}

#[test]
fn test_remove_authorized_oracle_removes_from_list() {
    let mut ctx = TestContext::new();
    let (admin, oracle) = (ctx.admin.clone(), ctx.oracle.clone());
    ctx.verifier.remove_authorized_oracle(&admin, &oracle).unwrap();
    let oracles = ctx.verifier.get_authorized_oracles();
    assert!(!oracles.contains(&ctx.oracle));
}

#[test]
#[should_panic(expected = "Unauthorized")]
fn test_non_admin_cannot_add_oracle() {
    let mut ctx = TestContext::new();
    let rogue = ctx.rogue.clone();
    ctx.verifier.set_authorized_oracle(&rogue, rogue.clone()).unwrap();
}

#[test]
#[should_panic(expected = "Unauthorized")]
fn test_non_admin_cannot_remove_oracle() {
    let mut ctx = TestContext::new();
    let (rogue, oracle) = (ctx.rogue.clone(), ctx.oracle.clone());
    ctx.verifier.remove_authorized_oracle(&rogue, &oracle).unwrap();
}

#[test]
fn test_multiple_oracles_can_be_whitelisted() {
    let mut ctx = TestContext::new();
    let oracle2 = String::from("GORACLETWO");
    let oracle3 = String::from("GORACLETHREE");
    let admin = ctx.admin.clone();

    ctx.verifier.set_authorized_oracle(&admin, oracle2).unwrap();
    ctx.verifier.set_authorized_oracle(&admin, oracle3).unwrap();

    let list = ctx.verifier.get_authorized_oracles();
    assert_eq!(list.len(), 3);
}

#[test]
fn test_resolve_prediction_correct_when_actual_gte_target() {
    let mut ctx = TestContext::new();
    let resolution = ctx.resolve_correct();

    assert_eq!(resolution.result, ResolutionResult::Correct);
    assert_eq!(resolution.prediction_id, ctx.prediction_id);
    assert_eq!(resolution.actual_price, ctx.target_price);
    assert_eq!(resolution.oracle, ctx.oracle);
}

#[test]
fn test_resolve_prediction_correct_when_actual_exceeds_target() {
    let mut ctx = TestContext::new();
    ctx.advance_past_deadline();

    ctx.verifier
        .resolve_prediction(
            ctx.oracle.clone(),
            ctx.prediction_id,
            ctx.target_price + 50_000,
            ctx.target_price,
            ctx.deadline,
            ctx.deadline + 1,
            ctx.now,
        )
        .unwrap();

    let res = ctx.verifier.get_resolution(ctx.prediction_id).unwrap();
    assert_eq!(res.result, ResolutionResult::Correct);
}

#[test]
fn test_resolve_prediction_incorrect_when_actual_below_target() {
    let mut ctx = TestContext::new();
    ctx.advance_past_deadline();

    ctx.verifier
        .resolve_prediction(
            ctx.oracle.clone(),
            ctx.prediction_id,
            ctx.target_price - 1,
            ctx.target_price,
            ctx.deadline,
            ctx.deadline + 1,
            ctx.now,
        )
        .unwrap();

    let res = ctx.verifier.get_resolution(ctx.prediction_id).unwrap();
    assert_eq!(res.result, ResolutionResult::Incorrect);
}

#[test]
fn test_resolution_stores_all_fields_correctly() {
    let mut ctx = TestContext::new();
    ctx.advance_past_deadline();

    let actual_price = 98_765_u128;
    let ts = ctx.deadline + 5;

    ctx.verifier
        .resolve_prediction(
            ctx.oracle.clone(),
            ctx.prediction_id,
            actual_price,
            ctx.target_price,
            ctx.deadline,
            ts,
            ctx.now,
        )
        .unwrap();

    let res = ctx.verifier.get_resolution(ctx.prediction_id).unwrap();

    assert_eq!(res.prediction_id, ctx.prediction_id);
    assert_eq!(res.actual_price, actual_price);
    assert_eq!(res.oracle, ctx.oracle);
    assert_eq!(res.resolution_timestamp, ts);
    assert_eq!(res.result, ResolutionResult::Incorrect);
}

#[test]
#[should_panic(expected = "OracleNotAuthorized")]
fn test_resolve_panics_when_oracle_not_whitelisted() {
    let mut ctx = TestContext::new();
    ctx.advance_past_deadline();

    ctx.verifier
        .resolve_prediction(
            ctx.rogue.clone(),
            ctx.prediction_id,
            ctx.target_price,
            ctx.target_price,
            ctx.deadline,
            ctx.deadline + 1,
            ctx.now,
        )
        .unwrap();
}

#[test]
#[should_panic(expected = "DeadlineNotReached")]
fn test_resolve_panics_before_deadline() {
    let mut ctx = TestContext::new();
    // The ledger is at time 0 and the deadline is 1_000: no advance needed.

    ctx.verifier
        .resolve_prediction(
            ctx.oracle.clone(),
            ctx.prediction_id,
            ctx.target_price,
            ctx.target_price,
            ctx.deadline,
            ctx.deadline,
            ctx.now,
        )
        .unwrap();
}

#[test]
#[should_panic(expected = "AlreadyResolved")]
fn test_resolve_panics_if_already_resolved() {
    let mut ctx = TestContext::new();
    ctx.advance_past_deadline();

    // First resolution: accepted.
    ctx.verifier
        .resolve_prediction(
            ctx.oracle.clone(),
            ctx.prediction_id,
            ctx.target_price,
            ctx.target_price,
            ctx.deadline,
            ctx.deadline + 1,
            ctx.now,
        )
        .unwrap();

    // Second resolution of the same prediction: refused.
    ctx.verifier
        .resolve_prediction(
            ctx.oracle.clone(),
            ctx.prediction_id,
            ctx.target_price,
            ctx.target_price,
            ctx.deadline,
            ctx.deadline + 2,
            ctx.now,
        )
        .unwrap();
}

#[test]
#[should_panic(expected = "OracleNotAuthorized")]
fn test_revoked_oracle_cannot_resolve() {
    let mut ctx = TestContext::new();
    ctx.advance_past_deadline();

    // Revoke the oracle first.
    let (admin, oracle) = (ctx.admin.clone(), ctx.oracle.clone());
    ctx.verifier.remove_authorized_oracle(&admin, &oracle).unwrap();

    // The revoked oracle tries to resolve: refused.
    ctx.verifier
        .resolve_prediction(
            ctx.oracle.clone(),
            ctx.prediction_id,
            ctx.target_price,
            ctx.target_price,
            ctx.deadline,
            ctx.deadline + 1,
            ctx.now,
        )
        .unwrap();
}

#[test]
fn test_get_resolution_returns_none_before_resolve() {
    let ctx = TestContext::new();
    assert_eq!(ctx.verifier.get_resolution(ctx.prediction_id), None);
}

#[test]
fn test_is_resolved_returns_false_before_resolve() {
    let ctx = TestContext::new();
    assert!(!ctx.verifier.is_resolved(ctx.prediction_id));
}

#[test]
fn test_is_resolved_returns_true_after_resolve() {
    let mut ctx = TestContext::new();
    ctx.resolve_correct();
    assert!(ctx.verifier.is_resolved(ctx.prediction_id));
}

#[test]
fn test_independent_predictions_are_isolated() {
    let mut ctx = TestContext::new();
    ctx.advance_past_deadline();

    let pid_a: i128 = 1;
    let pid_b: i128 = 2;

    ctx.verifier
        .resolve_prediction(
            ctx.oracle.clone(),
            pid_a,
            ctx.target_price,
            ctx.target_price,
            ctx.deadline,
            ctx.deadline + 1,
            ctx.now,
        )
        .unwrap();

    assert!(ctx.verifier.is_resolved(pid_a));
    assert!(!ctx.verifier.is_resolved(pid_b));

    let res_a = ctx.verifier.get_resolution(pid_a).unwrap();
    assert_eq!(res_a.prediction_id, pid_a);
}

/// Full scenario: the admin onboards an oracle, the oracle resolves two
/// predictions with opposite outcomes, both are stored, then the oracle is
/// revoked.
#[test]
fn test_mock_oracle_full_roundtrip() {
    let mut verifier = PredictionVerifier::new();
    let admin = String::from("GADMINADDRESS");
    let mock_oracle = String::from("GMOCKORACLE");

    verifier.init(admin.clone()).unwrap();
    verifier.set_authorized_oracle(&admin, mock_oracle.clone()).unwrap();

    let deadline = 500_u64;
    let target = 200_u128;
    let now = deadline + 10;

    // Prediction 10: the price went up, Correct.
    verifier
        .resolve_prediction(mock_oracle.clone(), 10_i128, target + 1, target, deadline, deadline + 10, now)
        .unwrap();
    // Prediction 11: the price fell, Incorrect.
    verifier
        .resolve_prediction(mock_oracle.clone(), 11_i128, target - 1, target, deadline, deadline + 10, now)
        .unwrap();

    assert_eq!(verifier.get_resolution(10).unwrap().result, ResolutionResult::Correct);
    assert_eq!(verifier.get_resolution(11).unwrap().result, ResolutionResult::Incorrect);

    // Revoke the oracle: it is no longer listed.
    verifier.remove_authorized_oracle(&admin, &mock_oracle).unwrap();
    assert!(!verifier.get_authorized_oracles().contains(&mock_oracle));
}

// ─── Further cases ──────────────────────────────────────────────────────────

#[test]
fn test_admin_absent_before_init() {
    let verifier = PredictionVerifier::new();
    assert_eq!(verifier.get_admin(), None);
    assert!(verifier.get_authorized_oracles().is_empty());
}

#[test]
fn test_whitelist_before_init_is_refused() {
    let mut verifier = PredictionVerifier::new();
    let a = String::from("GANYONE");
    assert_eq!(
        verifier.set_authorized_oracle(&a, a.clone()),
        Err(VerifierError::NotInitialised)
    );
    assert_eq!(
        verifier.remove_authorized_oracle(&a, &a),
        Err(VerifierError::NotInitialised)
    );
}

#[test]
fn test_whitelisting_twice_keeps_one_entry() {
    let mut ctx = TestContext::new();
    let (admin, oracle) = (ctx.admin.clone(), ctx.oracle.clone());
    ctx.verifier.set_authorized_oracle(&admin, oracle.clone()).unwrap();
    assert_eq!(ctx.verifier.get_authorized_oracles(), vec![oracle]);
}

#[test]
fn test_removal_keeps_order_of_others() {
    let mut ctx = TestContext::new();
    let admin = ctx.admin.clone();
    let b = String::from("GORACLEB");
    let c = String::from("GORACLEC");
    ctx.verifier.set_authorized_oracle(&admin, b.clone()).unwrap();
    ctx.verifier.set_authorized_oracle(&admin, c.clone()).unwrap();
    let oracle = ctx.oracle.clone();
    ctx.verifier.remove_authorized_oracle(&admin, &b).unwrap();
    assert_eq!(ctx.verifier.get_authorized_oracles(), vec![oracle, c]);
    // Removing an address that is not listed changes nothing.
    ctx.verifier.remove_authorized_oracle(&admin, &b).unwrap();
    assert_eq!(ctx.verifier.get_authorized_oracles().len(), 2);
}

#[test]
fn test_resolution_at_deadline_is_refused() {
    let mut ctx = TestContext::new();
    ctx.now = ctx.deadline;
    assert_eq!(
        ctx.verifier.resolve_prediction(
            ctx.oracle.clone(),
            7,
            1,
            1,
            ctx.deadline,
            ctx.deadline,
            ctx.now
        ),
        Err(VerifierError::DeadlineNotReached)
    );
    assert!(!ctx.verifier.is_resolved(7));
}

#[test]
fn test_refused_resolution_keeps_the_first() {
    let mut ctx = TestContext::new();
    let first = ctx.resolve_correct();
    let oracle = ctx.oracle.clone();
    let second = ctx.verifier.resolve_prediction(oracle, ctx.prediction_id, 1, ctx.target_price, ctx.deadline, 9_999, ctx.now);
    assert_eq!(second, Err(VerifierError::AlreadyResolved));
    assert_eq!(ctx.verifier.get_resolution(ctx.prediction_id), Some(first));
}

#[test]
fn test_resolution_result_rule() {
    assert_eq!(prediction_verifier::resolution_result(5, 5), ResolutionResult::Correct);
    assert_eq!(prediction_verifier::resolution_result(6, 5), ResolutionResult::Correct);
    assert_eq!(prediction_verifier::resolution_result(4, 5), ResolutionResult::Incorrect);
    assert_eq!(prediction_verifier::resolution_result(0, 0), ResolutionResult::Correct);
}

#[test]
fn test_verifier_error_codes() {
    assert_eq!(VerifierError::NotInitialised.code(), 1);
    assert_eq!(VerifierError::AlreadyInitialised.code(), 2);
    assert_eq!(VerifierError::Unauthorized.code(), 3);
    assert_eq!(VerifierError::OracleNotAuthorized.code(), 4);
    assert_eq!(VerifierError::DeadlineNotReached.code(), 5);
    assert_eq!(VerifierError::AlreadyResolved.code(), 6);
}
