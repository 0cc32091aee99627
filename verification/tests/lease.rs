use carlo_mc::lease::{
    check_done_marker, check_ownership, claim_action, claim_is_stale, claim_token, done_marker,
    heartbeat_is_released, new_lease, quarantine_name, quarantined_claim_is_removable, renewal,
    timestamp_age, validate_claim, validate_heartbeat, ClaimAction, ClaimHeartbeat, ClaimLease,
    DoneMarker, Finding, OwnedClaim, Search, CLAIM_SCHEMA_VERSION,
};
use carlo_mc::{GenericJobError, Task};

fn lease(token: &str, renewed_unix_nanos: u128) -> ClaimLease {
    ClaimLease {
        schema_version: CLAIM_SCHEMA_VERSION,
        token: token.to_string(),
        pid: 1,
        renewed_unix_nanos,
    }
}

fn heartbeat(token: &str, renewed_unix_nanos: u128) -> ClaimHeartbeat {
    ClaimHeartbeat {
        schema_version: CLAIM_SCHEMA_VERSION,
        token: token.to_string(),
        renewed_unix_nanos,
    }
}

fn owned(token: &str) -> OwnedClaim {
    OwnedClaim {
        task_index: 0,
        token: token.to_string(),
        path: "d/task0001/run0001.claim".to_string(),
    }
}

fn schema_reason<T>(result: Result<T, GenericJobError>) -> &'static str {
    match result {
        Err(GenericJobError::Schema { reason, .. }) => reason,
        _ => panic!("accepted"),
    }
}

fn is_merge_error<T>(result: Result<T, GenericJobError>) -> bool {
    matches!(result, Err(GenericJobError::Merge("dynamic claim ownership changed")))
}

#[test]
fn fresh_heartbeats_override_stale_claims() {
    let claim = lease("active-owner", 0);
    let beat = Some(heartbeat("active-owner", 1_000));
    assert!(!claim_is_stale(&claim, &beat, 1_010, 60));
    assert!(claim_is_stale(&claim, &beat, 1_061, 60));
    assert!(!claim_is_stale(&claim, &beat, 1_060, 60));
    assert!(claim_is_stale(&claim, &None, 1_010, 60));
    assert!(claim_is_stale(&claim, &Some(heartbeat("other", 1_000)), 1_010, 60));
    let moved = Some(lease("active-owner", 0));
    assert!(!quarantined_claim_is_removable(&moved, "active-owner", Some(60), &beat, 1_010));
    assert!(quarantined_claim_is_removable(&moved, "active-owner", Some(60), &beat, 2_000));
}

#[test]
fn replacement_owners_keep_their_claims() {
    let replacement = Some(lease("replacement", 2));
    assert!(!quarantined_claim_is_removable(&replacement, "observed", Some(0), &None, u128::MAX));
    assert!(!quarantined_claim_is_removable(&replacement, "observed", None, &None, 5));
    assert!(quarantined_claim_is_removable(&replacement, "replacement", None, &None, 0));
    assert!(!quarantined_claim_is_removable(&None, "replacement", None, &None, 0));
}

#[test]
fn ages_saturate_at_both_ends() {
    assert_eq!(timestamp_age(10, 3), 7);
    assert_eq!(timestamp_age(3, 10), 0);
    assert_eq!(timestamp_age(u128::MAX, 0), u64::MAX);
    assert_eq!(timestamp_age(u64::MAX as u128 + 5, 5), u64::MAX);
    assert!(!claim_is_stale(&lease("t", 0), &None, u128::MAX, u64::MAX as u128));
}

#[test]
fn renewal_is_for_the_owner_alone() {
    let mine = owned("mine");
    let beat = renewal(&Some(lease("mine", 1)), &mine, 42).unwrap();
    assert_eq!(beat.token, "mine");
    assert_eq!(beat.renewed_unix_nanos, 42);
    assert_eq!(beat.schema_version, CLAIM_SCHEMA_VERSION);
    assert!(is_merge_error(renewal(&Some(lease("theirs", 1)), &mine, 42)));
    assert!(is_merge_error(renewal(&None, &mine, 42)));
    assert!(check_ownership(&Some(lease("mine", 1)), &mine).is_ok());
    assert!(is_merge_error(check_ownership(&None, &mine)));
}

#[test]
fn heartbeats_go_with_their_own_claim() {
    let mine = owned("mine");
    assert!(heartbeat_is_released(true, &Some(heartbeat("mine", 0)), &mine));
    assert!(!heartbeat_is_released(false, &Some(heartbeat("mine", 0)), &mine));
    assert!(!heartbeat_is_released(true, &Some(heartbeat("theirs", 0)), &mine));
    assert!(!heartbeat_is_released(true, &None, &mine));
}

#[test]
fn claims_and_heartbeats_are_validated() {
    assert!(validate_claim("c", Some(lease("t", 1))).is_ok());
    assert_eq!(schema_reason(validate_claim("c", None)), "invalid dynamic claim");
    assert_eq!(
        schema_reason(validate_claim("c", Some(lease("", 1)))),
        "invalid dynamic claim"
    );
    let wrong = ClaimLease { schema_version: 2, ..lease("t", 1) };
    assert_eq!(schema_reason(validate_claim("c", Some(wrong))), "invalid dynamic claim");
    assert!(validate_heartbeat("h", Some(heartbeat("t", 1))).is_ok());
    assert_eq!(
        schema_reason(validate_heartbeat("h", Some(heartbeat("", 1)))),
        "invalid dynamic heartbeat"
    );
    assert_eq!(schema_reason(validate_heartbeat("h", None)), "invalid dynamic heartbeat");
}

#[test]
fn names_and_tokens_have_their_form() {
    assert_eq!(claim_token(12, 345, 6), "12-345-6");
    assert_ne!(claim_token(1, 23, 4), claim_token(12, 3, 4));
    assert_eq!(
        claim_token(u32::MAX, u128::MAX, u64::MAX),
        "4294967295-340282366920938463463374607431768211455-18446744073709551615"
    );
    assert_eq!(quarantine_name("run0001.claim", 12, 0), "run0001.claim.stale.12.0");
    let made = new_lease(&"t".to_string(), 9, 7);
    assert_eq!((made.pid, made.renewed_unix_nanos, made.schema_version), (9, 7, 1));
    assert_eq!(made.token, "t");
}

#[test]
fn done_markers_must_match_job_and_task() {
    let task = Task::new("t", 3);
    let name = "j".to_string();
    let marker = Some(done_marker(&name, 0, &task));
    assert!(check_done_marker("p", &marker, &name, 0, &task).is_ok());
    assert_eq!(
        schema_reason(check_done_marker("p", &None, &name, 0, &task)),
        "invalid done marker"
    );
    let reason = "done marker does not match job or task";
    assert_eq!(
        schema_reason(check_done_marker("p", &marker, &"other".to_string(), 0, &task)),
        reason
    );
    assert_eq!(schema_reason(check_done_marker("p", &marker, &name, 1, &task)), reason);
    let different = Task::new("different", 3);
    assert_eq!(schema_reason(check_done_marker("p", &marker, &name, 0, &different)), reason);
    let old = Some(DoneMarker { schema_version: 2, ..done_marker(&name, 0, &task) });
    assert_eq!(schema_reason(check_done_marker("p", &old, &name, 0, &task)), reason);
}

#[test]
fn work_is_claimed_where_nobody_works() {
    assert_eq!(claim_action(true, &None, &None, 0, 10), ClaimAction::Next);
    assert_eq!(claim_action(false, &None, &None, 0, 10), ClaimAction::Create);
    let claim = Some(lease("t", 100));
    assert_eq!(claim_action(false, &claim, &None, 105, 10), ClaimAction::Next);
    assert_eq!(claim_action(false, &claim, &None, 111, 10), ClaimAction::Quarantine);
    assert_eq!(
        claim_action(false, &claim, &Some(heartbeat("t", 110)), 111, 10),
        ClaimAction::Next
    );
}

#[test]
fn searches_pass_over_refused_tasks_and_end() {
    let next = Finding::Looked(ClaimAction::Next);
    let stale = Finding::Looked(ClaimAction::Quarantine);
    let free = Finding::Looked(ClaimAction::Create);
    assert_eq!(Search::begin(0), Search::Exhausted);
    let mut search = Search::begin(4);
    assert_eq!(search, Search::Look(0));
    search = search.after(next, 4);
    assert_eq!(search, Search::Look(1));
    search = search.after(stale, 4);
    assert_eq!(search, Search::Evict(1));
    assert_eq!(search.after(Finding::Created(true), 4), Search::Evict(1));
    assert_eq!(search.after(Finding::Evicted(true), 4), Search::Create(1));
    search = search.after(Finding::Evicted(false), 4);
    assert_eq!(search, Search::Look(2));
    search = search.after(free, 4);
    assert_eq!(search, Search::Create(2));
    search = search.after(Finding::Created(false), 4);
    assert_eq!(search, Search::Look(3));
    assert_eq!(search.after(next, 4), Search::Exhausted);
    search = search.after(free, 4).after(Finding::Created(true), 4);
    assert_eq!(search, Search::Claimed(3));
    assert_eq!(search.after(next, 4), Search::Claimed(3));
    assert_eq!(Search::Exhausted.after(free, 4), Search::Exhausted);
}
