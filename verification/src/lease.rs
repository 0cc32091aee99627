//! Leases: how processes that share a directory share its tasks.
//!
//! A process owns a task while its claim file stands and is fresh. Claims are renewed by
//! heartbeats. A stale claim is moved aside, looked at again and then removed or put back. The
//! rules are here; files and clocks belong to the caller.

use crate::error::{schema, GenericJobError};
#[allow(unused_imports)]
use crate::error::is_schema_error;
use crate::model::Task;
#[allow(unused_imports)]
use crate::model::{task_cloned, tasks_agree};
use crate::text::{decimal_text, same_text};
#[allow(unused_imports)]
use crate::text::{all_digits, decimal, is_digit, lemma_decimal_value};
use vstd::prelude::*;
#[allow(unused_imports)]
use vstd::std_specs::cmp::PartialEqSpec;

verus! {

/// The version of done markers.
pub const DONE_SCHEMA_VERSION: u32 = 1;

/// The version of claims and heartbeats.
pub const CLAIM_SCHEMA_VERSION: u32 = 1;

/// The marker that a task is done.
#[derive(Debug)]
pub struct DoneMarker<P> {
    pub schema_version: u32,
    pub job_name: String,
    pub task_index: usize,
    pub task: Task<P>,
}

/// The claim of a process on a task. Times are nanoseconds since the Unix epoch.
#[derive(Debug)]
pub struct ClaimLease {
    pub schema_version: u32,
    pub token: String,
    pub pid: u32,
    pub renewed_unix_nanos: u128,
}

/// The sign that the owner of a claim is alive.
#[derive(Debug)]
pub struct ClaimHeartbeat {
    pub schema_version: u32,
    pub token: String,
    pub renewed_unix_nanos: u128,
}

/// A claim that this process holds.
#[derive(Debug)]
pub struct OwnedClaim {
    pub task_index: usize,
    pub token: String,
    pub path: String,
}

/// Whether a claim has the version and a token.
pub open spec fn is_claim(claim: ClaimLease) -> bool {
    claim.schema_version == CLAIM_SCHEMA_VERSION && claim.token@.len() > 0
}

/// Whether a heartbeat has the version and a token.
pub open spec fn is_heartbeat(heartbeat: ClaimHeartbeat) -> bool {
    heartbeat.schema_version == CLAIM_SCHEMA_VERSION && heartbeat.token@.len() > 0
}

/// Checks a claim that was read. `decoded` is `None` where the file is no claim at all.
pub fn validate_claim(path: &str, decoded: Option<ClaimLease>) -> (claim: Result<
    ClaimLease,
    GenericJobError,
>)
    ensures
        match decoded {
            Some(c) if is_claim(c) => claim matches Ok(d) && d == c,
            _ => claim matches Err(e) && is_schema_error(e, path@, "invalid dynamic claim"@),
        },
{
    match decoded {
        Some(claim) => if claim.schema_version != CLAIM_SCHEMA_VERSION
            || claim.token.as_str().is_empty() {
            Err(schema(path, "invalid dynamic claim"))
        } else {
            Ok(claim)
        },
        None => Err(schema(path, "invalid dynamic claim")),
    }
}

/// Checks a heartbeat that was read. `decoded` is `None` where the file is no heartbeat at all.
pub fn validate_heartbeat(path: &str, decoded: Option<ClaimHeartbeat>) -> (heartbeat: Result<
    ClaimHeartbeat,
    GenericJobError,
>)
    ensures
        match decoded {
            Some(h) if is_heartbeat(h) => heartbeat matches Ok(d) && d == h,
            _ => heartbeat matches Err(e) && is_schema_error(
                e,
                path@,
                "invalid dynamic heartbeat"@,
            ),
        },
{
    match decoded {
        Some(heartbeat) => if heartbeat.schema_version != CLAIM_SCHEMA_VERSION
            || heartbeat.token.as_str().is_empty() {
            Err(schema(path, "invalid dynamic heartbeat"))
        } else {
            Ok(heartbeat)
        },
        None => Err(schema(path, "invalid dynamic heartbeat")),
    }
}

/// How long ago a time was, in nanoseconds: nothing for a time to come, and never more than a
/// word holds.
pub open spec fn age(now: u128, timestamp: u128) -> u64 {
    if now <= timestamp {
        0
    } else if now - timestamp > u64::MAX {
        u64::MAX
    } else {
        (now - timestamp) as u64
    }
}

/// How long ago a time was, in nanoseconds.
pub fn timestamp_age(now: u128, timestamp: u128) -> (nanos: u64)
    ensures
        nanos == age(now, timestamp),
{
    let elapsed: u128 = now.saturating_sub(timestamp);
    if elapsed > u64::MAX as u128 {
        u64::MAX
    } else {
        elapsed as u64
    }
}

/// When a claim was last renewed: by its heartbeat, if that is of the same owner, else by the
/// claim itself.
pub open spec fn last_renewed(claim: ClaimLease, heartbeat: Option<ClaimHeartbeat>) -> u128 {
    match heartbeat {
        Some(h) if h.token@ == claim.token@ => h.renewed_unix_nanos,
        _ => claim.renewed_unix_nanos,
    }
}

/// Whether a claim has not been renewed for longer than `stale_after` nanoseconds.
pub open spec fn is_stale(
    claim: ClaimLease,
    heartbeat: Option<ClaimHeartbeat>,
    now: u128,
    stale_after: u128,
) -> bool {
    age(now, last_renewed(claim, heartbeat)) > stale_after
}

/// Whether a claim has not been renewed for longer than `stale_after` nanoseconds.
pub fn claim_is_stale(
    claim: &ClaimLease,
    heartbeat: &Option<ClaimHeartbeat>,
    now: u128,
    stale_after: u128,
) -> (stale: bool)
    ensures
        stale == is_stale(*claim, *heartbeat, now, stale_after),
{
    let renewed: u128 = match heartbeat {
        Some(heartbeat) => if heartbeat.token == claim.token {
            heartbeat.renewed_unix_nanos
        } else {
            claim.renewed_unix_nanos
        },
        None => claim.renewed_unix_nanos,
    };
    timestamp_age(now, renewed) as u128 > stale_after
}

/// Whether a claim that was moved aside may be removed: it is the expected one, and it is stale
/// where staleness is asked for.
pub open spec fn may_remove(
    moved: Option<ClaimLease>,
    expected_token: Seq<char>,
    stale_after: Option<u128>,
    heartbeat: Option<ClaimHeartbeat>,
    now: u128,
) -> bool {
    match moved {
        Some(claim) => claim.token@ == expected_token && match stale_after {
            Some(limit) => is_stale(claim, heartbeat, now, limit),
            None => true,
        },
        None => false,
    }
}

/// Decides about a claim that was moved aside. `moved` is what the moved file holds, `None` where
/// it is gone. Without a limit in `stale_after` only the token is asked for. A claim that may not
/// be removed is put back.
pub fn quarantined_claim_is_removable(
    moved: &Option<ClaimLease>,
    expected_token: &str,
    stale_after: Option<u128>,
    heartbeat: &Option<ClaimHeartbeat>,
    now: u128,
) -> (removable: bool)
    ensures
        removable == may_remove(*moved, expected_token@, stale_after, *heartbeat, now),
{
    match moved {
        Some(claim) => same_text(claim.token.as_str(), expected_token) && match stale_after {
            Some(limit) => claim_is_stale(claim, heartbeat, now, limit),
            None => true,
        },
        None => false,
    }
}

/// Whether the claim on a task is of the given owner.
pub open spec fn is_owned(current: Option<ClaimLease>, token: Seq<char>) -> bool {
    current matches Some(claim) && claim.token@ == token
}

/// Checks that a claim still is of its owner. `current` is the claim that stands, `None` where
/// none does.
pub fn check_ownership(current: &Option<ClaimLease>, claim: &OwnedClaim) -> (checked: Result<
    (),
    GenericJobError,
>)
    ensures
        if is_owned(*current, claim.token@) {
            checked is Ok
        } else {
            checked matches Err(GenericJobError::Merge(r)) && r@
                == "dynamic claim ownership changed"@
        },
{
    match current {
        Some(standing) => if standing.token == claim.token {
            Ok(())
        } else {
            Err(GenericJobError::Merge("dynamic claim ownership changed"))
        },
        None => Err(GenericJobError::Merge("dynamic claim ownership changed")),
    }
}

/// The heartbeat that renews a claim, if the claim still is of its owner.
pub fn renewal(current: &Option<ClaimLease>, claim: &OwnedClaim, now: u128) -> (heartbeat: Result<
    ClaimHeartbeat,
    GenericJobError,
>)
    ensures
        if is_owned(*current, claim.token@) {
            heartbeat matches Ok(h) && h.schema_version == CLAIM_SCHEMA_VERSION && h.token@
                == claim.token@ && h.renewed_unix_nanos == now
        } else {
            heartbeat matches Err(GenericJobError::Merge(r)) && r@
                == "dynamic claim ownership changed"@
        },
{
    check_ownership(current, claim)?;
    Ok(
        ClaimHeartbeat {
            schema_version: CLAIM_SCHEMA_VERSION,
            token: claim.token.clone(),
            renewed_unix_nanos: now,
        },
    )
}

/// Whether a heartbeat goes with a claim that was released: only after the claim was removed, and
/// only the owner's own.
pub fn heartbeat_is_released(
    removed: bool,
    heartbeat: &Option<ClaimHeartbeat>,
    claim: &OwnedClaim,
) -> (released: bool)
    ensures
        released == (removed && (heartbeat matches Some(h) && h.token@ == claim.token@)),
{
    match heartbeat {
        Some(heartbeat) => removed && heartbeat.token == claim.token,
        None => false,
    }
}

/// The token of a claim: the process, the time and a number that no other claim of the process
/// has.
pub open spec fn token_text(pid: nat, now: nat, id: nat) -> Seq<char> {
    decimal(pid) + "-"@ + decimal(now) + "-"@ + decimal(id)
}

/// The token of a claim.
pub fn claim_token(pid: u32, now: u128, id: u64) -> (token: String)
    ensures
        token@ == token_text(pid as nat, now as nat, id as nat),
{
    decimal_text(pid as u128).concat("-").concat(decimal_text(now).as_str()).concat("-").concat(
        decimal_text(id as u128).as_str(),
    )
}

/// The claim that a process makes.
pub fn new_lease(token: &String, pid: u32, now: u128) -> (lease: ClaimLease)
    ensures
        lease.schema_version == CLAIM_SCHEMA_VERSION,
        lease.token@ == token@,
        lease.pid == pid,
        lease.renewed_unix_nanos == now,
{
    ClaimLease {
        schema_version: CLAIM_SCHEMA_VERSION,
        token: token.clone(),
        pid,
        renewed_unix_nanos: now,
    }
}

/// The name that a claim file gets when it is moved aside.
pub open spec fn quarantine_text(name: Seq<char>, pid: nat, id: nat) -> Seq<char> {
    name + ".stale."@ + decimal(pid) + "."@ + decimal(id)
}

/// The name that a claim file gets when process `pid` moves it aside with its number `id`.
pub fn quarantine_name(name: &str, pid: u32, id: u64) -> (quarantine: String)
    ensures
        quarantine@ == quarantine_text(name@, pid as nat, id as nat),
{
    name.to_owned().concat(".stale.").concat(decimal_text(pid as u128).as_str()).concat(".").concat(
        decimal_text(id as u128).as_str(),
    )
}

/// The marker that a task is done.
pub fn done_marker<P: Clone>(job_name: &String, task_index: usize, task: &Task<P>) -> (marker:
    DoneMarker<P>)
    ensures
        marker.schema_version == DONE_SCHEMA_VERSION,
        marker.job_name@ == job_name@,
        marker.task_index == task_index,
        task_cloned(task@, marker.task@),
{
    DoneMarker {
        schema_version: DONE_SCHEMA_VERSION,
        job_name: job_name.clone(),
        task_index,
        task: task.clone(),
    }
}

/// Checks a done marker that was read. `decoded` is `None` where the file is no marker at all.
pub fn check_done_marker<P: PartialEq>(
    path: &str,
    decoded: &Option<DoneMarker<P>>,
    job_name: &String,
    task_index: usize,
    task: &Task<P>,
) -> (checked: Result<(), GenericJobError>)
    ensures
        match decoded {
            None => checked matches Err(e) && is_schema_error(e, path@, "invalid done marker"@),
            Some(marker) => {
                let placed = marker.schema_version == DONE_SCHEMA_VERSION && marker.job_name@
                    == job_name@ && marker.task_index == task_index;
                &&& checked matches Err(e) ==> is_schema_error(
                    e,
                    path@,
                    "done marker does not match job or task"@,
                )
                &&& checked is Ok ==> placed
                &&& checked is Ok ==> marker.task.name@ == task.name@ && marker.task.sweeps
                    == task.sweeps && marker.task.thermalization == task.thermalization
                    && marker.task.binsize == task.binsize && marker.task.seed == task.seed
                &&& P::obeys_eq_spec() ==> (checked is Ok <==> placed && tasks_agree(
                    marker.task@,
                    task@,
                ))
            },
        },
{
    match decoded {
        None => Err(schema(path, "invalid done marker")),
        Some(marker) => if marker.schema_version != DONE_SCHEMA_VERSION || marker.job_name
            != *job_name || marker.task_index != task_index || !(marker.task == *task) {
            Err(schema(path, "done marker does not match job or task"))
        } else {
            Ok(())
        },
    }
}

/// What a process that looks for work does about one task.
#[derive(Debug, Clone, Copy, PartialEq, Eq, Structural)]
pub enum ClaimAction {
    /// Look at the next task.
    Next,
    /// Move the claim aside and look at it again.
    Quarantine,
    /// Create a claim.
    Create,
}

/// What to do about a task, from what stands in its directory: nothing if it is done or its claim
/// is fresh, a closer look at a stale claim, and a claim of one's own where there is none.
pub fn claim_action(
    done: bool,
    claim: &Option<ClaimLease>,
    heartbeat: &Option<ClaimHeartbeat>,
    now: u128,
    stale_after: u128,
) -> (action: ClaimAction)
    ensures
        action == if done {
            ClaimAction::Next
        } else {
            match claim {
                Some(c) => if is_stale(*c, *heartbeat, now, stale_after) {
                    ClaimAction::Quarantine
                } else {
                    ClaimAction::Next
                },
                None => ClaimAction::Create,
            }
        },
{
    if done {
        return ClaimAction::Next;
    }
    match claim {
        Some(claim) => if claim_is_stale(claim, heartbeat, now, stale_after) {
            ClaimAction::Quarantine
        } else {
            ClaimAction::Next
        },
        None => ClaimAction::Create,
    }
}

/// Where a process stands in its search for work. The number is the place in the order in which
/// the process looks at the tasks.
#[derive(Debug, Clone, Copy, PartialEq, Eq, Structural)]
pub enum Search {
    /// Look at what stands in the directory of the task.
    Look(usize),
    /// Move the stale claim aside, and remove it or put it back.
    Evict(usize),
    /// Create a claim.
    Create(usize),
    /// The task is claimed.
    Claimed(usize),
    /// There is no task to claim.
    Exhausted,
}

/// What a process found out in its search for work.
#[derive(Debug, Clone, Copy, PartialEq, Eq, Structural)]
pub enum Finding {
    /// What [`claim_action`] said about the task.
    Looked(ClaimAction),
    /// Whether the stale claim was removed.
    Evicted(bool),
    /// Whether the claim was created. Another process may have been first.
    Created(bool),
}

/// The search at a place, if there is a task at it.
pub open spec fn search_at(place: int, task_count: int) -> Search {
    if place < task_count {
        Search::Look(place as usize)
    } else {
        Search::Exhausted
    }
}

/// The search after a finding. A finding that was not asked for changes nothing.
pub open spec fn search_after(search: Search, finding: Finding, task_count: int) -> Search {
    match (search, finding) {
        (Search::Look(place), Finding::Looked(ClaimAction::Next)) => search_at(
            place + 1,
            task_count,
        ),
        (Search::Look(place), Finding::Looked(ClaimAction::Quarantine)) => Search::Evict(place),
        (Search::Look(place), Finding::Looked(ClaimAction::Create)) => Search::Create(place),
        (Search::Evict(place), Finding::Evicted(true)) => Search::Create(place),
        (Search::Evict(place), Finding::Evicted(false)) => search_at(place + 1, task_count),
        (Search::Create(place), Finding::Created(true)) => Search::Claimed(place),
        (Search::Create(place), Finding::Created(false)) => search_at(place + 1, task_count),
        _ => search,
    }
}

impl Search {
    /// The start of a search.
    pub fn begin(task_count: usize) -> (search: Self)
        ensures
            search == search_at(0, task_count as int),
    {
        if task_count > 0 {
            Search::Look(0)
        } else {
            Search::Exhausted
        }
    }

    /// Moves on to the next place.
    fn next_place(place: usize, task_count: usize) -> (search: Self)
        ensures
            search == search_at(place + 1, task_count as int),
    {
        if place < task_count && place + 1 < task_count {
            Search::Look(place + 1)
        } else {
            Search::Exhausted
        }
    }

    /// Takes a finding in.
    pub fn after(self, finding: Finding, task_count: usize) -> (search: Self)
        ensures
            search == search_after(self, finding, task_count as int),
    {
        match (self, finding) {
            (Search::Look(place), Finding::Looked(ClaimAction::Next)) => Self::next_place(
                place,
                task_count,
            ),
            (Search::Look(place), Finding::Looked(ClaimAction::Quarantine)) => Search::Evict(place),
            (Search::Look(place), Finding::Looked(ClaimAction::Create)) => Search::Create(place),
            (Search::Evict(place), Finding::Evicted(removed)) => if removed {
                Search::Create(place)
            } else {
                Self::next_place(place, task_count)
            },
            (Search::Create(place), Finding::Created(created)) => if created {
                Search::Claimed(place)
            } else {
                Self::next_place(place, task_count)
            },
            _ => self,
        }
    }
}

/// The search after a list of findings.
pub open spec fn searched(task_count: int, findings: Seq<Finding>) -> Search
    decreases findings.len(),
{
    if findings.len() == 0 {
        search_at(0, task_count)
    } else {
        search_after(searched(task_count, findings.drop_last()), findings.last(), task_count)
    }
}

/// The number of places that a search has left behind.
pub open spec fn places_left_behind(search: Search, task_count: int) -> int {
    match search {
        Search::Look(place) => place as int,
        Search::Evict(place) => place as int,
        Search::Create(place) => place as int,
        Search::Claimed(place) => place as int,
        Search::Exhausted => task_count,
    }
}

/// Whether a finding says that the task at hand is not to be had: it is done or its claim is
/// fresh, the stale claim was not removed, or another process created its claim first.
pub open spec fn is_refusal(search: Search, finding: Finding) -> bool {
    match (search, finding) {
        (Search::Look(_), Finding::Looked(action)) => action == ClaimAction::Next,
        (Search::Evict(_), Finding::Evicted(removed)) => !removed,
        (Search::Create(_), Finding::Created(created)) => !created,
        _ => false,
    }
}

/// Whether the task at a place was looked at and was not to be had.
pub open spec fn was_refused(task_count: int, findings: Seq<Finding>, place: int) -> bool {
    exists|k: int|
        0 <= k < findings.len() && is_refusal(
            searched(task_count, findings.take(k)),
            #[trigger] findings[k],
        ) && places_left_behind(searched(task_count, findings.take(k)), task_count) == place
}

/// A search leaves no task out: every task in front of the one at hand was refused, and all of
/// them were when the search ends without a claim.
pub proof fn law_search_leaves_nothing_out(
    task_count: int,
    findings: Seq<Finding>,
    place: int,
)
    requires
        0 <= task_count <= usize::MAX,
        0 <= place < places_left_behind(searched(task_count, findings), task_count),
    ensures
        was_refused(task_count, findings, place),
    decreases findings.len(),
{
    if findings.len() > 0 {
        let before = findings.drop_last();
        let last = findings.len() - 1;
        let search = searched(task_count, before);
        law_search_stays_inside(task_count, before);
        assert(findings.take(last) =~= before);
        if place < places_left_behind(search, task_count) {
            law_search_leaves_nothing_out(task_count, before, place);
            let k = choose|k: int|
                0 <= k < before.len() && is_refusal(
                    searched(task_count, before.take(k)),
                    #[trigger] before[k],
                ) && places_left_behind(searched(task_count, before.take(k)), task_count) == place;
            assert(findings.take(k) =~= before.take(k));
            assert(findings[k] == before[k]);
        } else {
            assert(is_refusal(search, findings[last]));
        }
    }
}

/// A search never leaves the list of tasks, and one that claims a task has created the claim.
pub proof fn law_search_stays_inside(task_count: int, findings: Seq<Finding>)
    requires
        0 <= task_count <= usize::MAX,
    ensures
        searched(task_count, findings) is Exhausted || places_left_behind(
            searched(task_count, findings),
            task_count,
        ) < task_count,
        searched(task_count, findings) is Claimed ==> exists|k: int|
            0 <= k < findings.len() && #[trigger] findings[k] == Finding::Created(true),
    decreases findings.len(),
{
    if findings.len() > 0 {
        let before = findings.drop_last();
        law_search_stays_inside(task_count, before);
        if searched(task_count, before) is Claimed {
            let k = choose|k: int|
                0 <= k < before.len() && #[trigger] before[k] == Finding::Created(true);
            assert(findings[k] == Finding::Created(true));
        } else if searched(task_count, findings) is Claimed {
            assert(findings[findings.len() - 1] == Finding::Created(true));
        }
    }
}

/// Whether a finding is the one that a search asks for.
pub open spec fn answers(search: Search, finding: Finding) -> bool {
    match search {
        Search::Look(_) => finding is Looked,
        Search::Evict(_) => finding is Evicted,
        Search::Create(_) => finding is Created,
        _ => false,
    }
}

/// How many findings a search can still ask for.
pub open spec fn findings_left(search: Search, task_count: int) -> int {
    match search {
        Search::Look(place) => 3 * (task_count - place),
        Search::Evict(place) => 3 * (task_count - place) - 1,
        Search::Create(place) => 3 * (task_count - place) - 2,
        _ => 0,
    }
}

/// A search comes to an end: with every finding that it asks for there are fewer to come.
pub proof fn law_search_ends(task_count: int, findings: Seq<Finding>, next: Finding)
    requires
        0 <= task_count <= usize::MAX,
        answers(searched(task_count, findings), next),
    ensures
        ({
            let search = searched(task_count, findings);
            let after = search_after(search, next, task_count);
            0 <= findings_left(after, task_count) < findings_left(search, task_count)
                <= 3 * task_count
        }),
{
    law_search_stays_inside(task_count, findings);
}

/// A fresh heartbeat of its owner keeps a claim, however old the claim itself is.
pub proof fn law_fresh_heartbeat_keeps_claim(
    claim: ClaimLease,
    heartbeat: ClaimHeartbeat,
    now: u128,
    stale_after: u128,
)
    requires
        heartbeat.token@ == claim.token@,
        age(now, heartbeat.renewed_unix_nanos) <= stale_after,
    ensures
        !is_stale(claim, Some(heartbeat), now, stale_after),
{
}

/// A heartbeat of another owner does not keep a claim.
pub proof fn law_foreign_heartbeat_does_not_count(
    claim: ClaimLease,
    heartbeat: ClaimHeartbeat,
    now: u128,
    stale_after: u128,
)
    requires
        heartbeat.token@ != claim.token@,
    ensures
        is_stale(claim, Some(heartbeat), now, stale_after) == is_stale(
            claim,
            None,
            now,
            stale_after,
        ),
{
}

/// A claim that stands moved aside is never removed for another owner, and never while it is
/// fresh unless its own owner lets it go.
pub proof fn law_only_stale_or_own_claims_are_removed(
    claim: ClaimLease,
    expected_token: Seq<char>,
    stale_after: Option<u128>,
    heartbeat: Option<ClaimHeartbeat>,
    now: u128,
)
    requires
        may_remove(Some(claim), expected_token, stale_after, heartbeat, now),
    ensures
        claim.token@ == expected_token,
        stale_after matches Some(limit) ==> is_stale(claim, heartbeat, now, limit),
{
}

/// A claim does not become stale by looking at it at an earlier time.
pub proof fn law_staleness_grows(
    claim: ClaimLease,
    heartbeat: Option<ClaimHeartbeat>,
    earlier: u128,
    later: u128,
    stale_after: u128,
)
    requires
        earlier <= later,
        is_stale(claim, heartbeat, earlier, stale_after),
    ensures
        is_stale(claim, heartbeat, later, stale_after),
{
}

proof fn lemma_dash_splits(a: Seq<char>, b: Seq<char>, c: Seq<char>, d: Seq<char>)
    requires
        all_digits(a),
        all_digits(c),
        a + seq!['-'] + b == c + seq!['-'] + d,
    ensures
        a == c,
        b == d,
{
    let x = a + seq!['-'] + b;
    let y = c + seq!['-'] + d;
    assert(x[a.len() as int] == '-');
    assert(y[c.len() as int] == '-');
    if a.len() < c.len() {
        assert(y[a.len() as int] == c[a.len() as int]);
        assert(is_digit(c[a.len() as int]));
    }
    if c.len() < a.len() {
        assert(x[c.len() as int] == a[c.len() as int]);
        assert(is_digit(a[c.len() as int]));
    }
    assert(x.take(a.len() as int) =~= a);
    assert(y.take(c.len() as int) =~= c);
    assert(x.skip(a.len() as int + 1) =~= b);
    assert(y.skip(c.len() as int + 1) =~= d);
}

/// Tokens of different claims differ: two claims with one token are of the same process, time and
/// number.
pub proof fn law_tokens_differ(pid: nat, now: nat, id: nat, pid2: nat, now2: nat, id2: nat)
    requires
        token_text(pid, now, id) == token_text(pid2, now2, id2),
    ensures
        pid == pid2,
        now == now2,
        id == id2,
{
    reveal_strlit("-");
    assert("-"@ =~= seq!['-']);
    lemma_decimal_value(pid);
    lemma_decimal_value(now);
    lemma_decimal_value(id);
    lemma_decimal_value(pid2);
    lemma_decimal_value(now2);
    lemma_decimal_value(id2);
    let rest = decimal(now) + seq!['-'] + decimal(id);
    let rest2 = decimal(now2) + seq!['-'] + decimal(id2);
    assert(token_text(pid, now, id) =~= decimal(pid) + seq!['-'] + rest);
    assert(token_text(pid2, now2, id2) =~= decimal(pid2) + seq!['-'] + rest2);
    lemma_dash_splits(decimal(pid), rest, decimal(pid2), rest2);
    lemma_dash_splits(decimal(now), decimal(id), decimal(now2), decimal(id2));
}

/// The age of a time is what has passed since, counted to the end of a word; a time to come has
/// none.
pub proof fn law_ages(now: u128, timestamp: u128, nanos: u64)
    requires
        call_ensures(timestamp_age, (now, timestamp), nanos),
    ensures
        now <= timestamp ==> nanos == 0,
        timestamp <= now <= timestamp + u64::MAX ==> timestamp + nanos == now,
        now >= timestamp + u64::MAX ==> nanos == 0xFFFF_FFFF_FFFF_FFFF,
{
}

/// A claim is stale exactly if more than the limit has passed since it was renewed last. What
/// renews it is a heartbeat with its own token, and else only the claim itself. A limit that fills
/// a word is never passed.
pub proof fn law_stale_claims(
    claim: ClaimLease,
    heartbeat: Option<ClaimHeartbeat>,
    now: u128,
    limit: u128,
    stale: bool,
)
    requires
        call_ensures(claim_is_stale, (&claim, &heartbeat, now, limit), stale),
    ensures
        limit >= 0xFFFF_FFFF_FFFF_FFFF ==> !stale,
        limit < 0xFFFF_FFFF_FFFF_FFFF ==> match heartbeat {
            None => stale <==> now > claim.renewed_unix_nanos + limit,
            Some(h) => if h.token@ == claim.token@ {
                stale <==> now > h.renewed_unix_nanos + limit
            } else {
                stale <==> now > claim.renewed_unix_nanos + limit
            },
        },
{
}

/// A claim that its owner has just renewed is not stale for anyone, whatever the limit.
pub proof fn law_renewed_claims_are_fresh(
    current: ClaimLease,
    owned: OwnedClaim,
    now: u128,
    heartbeat: ClaimHeartbeat,
    limit: u128,
    stale: bool,
)
    requires
        call_ensures(
            renewal,
            (&Some(current), &owned, now),
            Ok::<ClaimHeartbeat, GenericJobError>(heartbeat),
        ),
        call_ensures(claim_is_stale, (&current, &Some(heartbeat), now, limit), stale),
    ensures
        !stale,
        heartbeat.token@ == current.token@,
        heartbeat.token@ == owned.token@,
        heartbeat.renewed_unix_nanos == now,
        heartbeat.schema_version == 1,
{
}

/// A claim that is new is valid, of its maker and not stale.
pub proof fn law_new_claims(
    token: String,
    pid: u32,
    now: u128,
    lease: ClaimLease,
    limit: u128,
    stale: bool,
    owned: OwnedClaim,
    checked: Result<(), GenericJobError>,
    path: &str,
    read: Result<ClaimLease, GenericJobError>,
)
    requires
        call_ensures(new_lease, (&token, pid, now), lease),
        call_ensures(claim_is_stale, (&lease, &None, now, limit), stale),
        owned.token@ == token@,
        call_ensures(check_ownership, (&Some(lease), &owned), checked),
        call_ensures(validate_claim, (path, Some(lease)), read),
        token@.len() > 0,
    ensures
        !stale,
        checked is Ok,
        read == Ok::<ClaimLease, GenericJobError>(lease),
        lease.token@ == token@,
        lease.pid == pid,
        lease.renewed_unix_nanos == now,
        lease.schema_version == 1,
{
}

/// A claim is of its owner exactly if one stands and has the owner's token. It is renewed in
/// exactly the same cases.
pub proof fn law_owners(
    current: Option<ClaimLease>,
    owned: OwnedClaim,
    now: u128,
    checked: Result<(), GenericJobError>,
    renewed: Result<ClaimHeartbeat, GenericJobError>,
)
    requires
        call_ensures(check_ownership, (&current, &owned), checked),
        call_ensures(renewal, (&current, &owned, now), renewed),
    ensures
        checked is Ok <==> current is Some && current->0.token@ == owned.token@,
        renewed is Ok <==> checked is Ok,
        checked matches Err(e) ==> e is Merge,
        renewed matches Err(e) ==> e is Merge,
{
}

/// A claim or a heartbeat that was read is taken as it is exactly if it has version one and a
/// token.
pub proof fn law_read_claims(
    path: &str,
    claim: Option<ClaimLease>,
    heartbeat: Option<ClaimHeartbeat>,
    read_claim: Result<ClaimLease, GenericJobError>,
    read_heartbeat: Result<ClaimHeartbeat, GenericJobError>,
)
    requires
        call_ensures(validate_claim, (path, claim), read_claim),
        call_ensures(validate_heartbeat, (path, heartbeat), read_heartbeat),
    ensures
        read_claim is Ok <==> claim is Some && claim->0.schema_version == 1
            && claim->0.token@.len() > 0,
        read_claim is Ok ==> read_claim->Ok_0 == claim->0,
        read_claim matches Err(e) ==> (e matches GenericJobError::Schema { path: p, reason } && p@
            == path@ && reason@ == "invalid dynamic claim"@),
        read_heartbeat is Ok <==> heartbeat is Some && heartbeat->0.schema_version == 1
            && heartbeat->0.token@.len() > 0,
        read_heartbeat is Ok ==> read_heartbeat->Ok_0 == heartbeat->0,
        read_heartbeat matches Err(e) ==> (e matches GenericJobError::Schema { path: p, reason }
            && p@ == path@ && reason@ == "invalid dynamic heartbeat"@),
{
}

/// A claim that was moved aside is removed exactly if it is there, has the expected token and,
/// where a limit is given, is stale by it.
pub proof fn law_removed_claims(
    moved: Option<ClaimLease>,
    token: &str,
    limit: Option<u128>,
    heartbeat: Option<ClaimHeartbeat>,
    now: u128,
    removable: bool,
    stale: bool,
)
    requires
        call_ensures(
            quarantined_claim_is_removable,
            (&moved, token, limit, &heartbeat, now),
            removable,
        ),
        moved is Some && limit is Some ==> call_ensures(
            claim_is_stale,
            (&moved->0, &heartbeat, now, limit->0),
            stale,
        ),
    ensures
        moved is None ==> !removable,
        moved is Some && moved->0.token@ != token@ ==> !removable,
        moved is Some && moved->0.token@ == token@ && limit is None ==> removable,
        moved is Some && moved->0.token@ == token@ && limit is Some ==> removable == stale,
{
}

/// A heartbeat goes with its claim: after the claim was removed, and only if it has its token.
pub proof fn law_released_heartbeats(
    removed: bool,
    heartbeat: Option<ClaimHeartbeat>,
    owned: OwnedClaim,
    released: bool,
)
    requires
        call_ensures(heartbeat_is_released, (removed, &heartbeat, &owned), released),
    ensures
        released ==> removed,
        released ==> heartbeat is Some,
        released ==> heartbeat->0.token@ == owned.token@,
        removed && heartbeat is Some && heartbeat->0.token@ == owned.token@ ==> released,
{
}

/// A process creates a claim only where the task is not done and no claim stands, and moves a claim
/// aside only where the task is not done and the claim is stale.
pub proof fn law_claim_actions(
    done: bool,
    claim: Option<ClaimLease>,
    heartbeat: Option<ClaimHeartbeat>,
    now: u128,
    limit: u128,
    action: ClaimAction,
    stale: bool,
)
    requires
        call_ensures(claim_action, (done, &claim, &heartbeat, now, limit), action),
        claim is Some ==> call_ensures(
            claim_is_stale,
            (&claim->0, &heartbeat, now, limit),
            stale,
        ),
    ensures
        action is Create <==> !done && claim is None,
        action is Quarantine <==> !done && claim is Some && stale,
        action is Next <==> done || claim is Some && !stale,
{
}

/// A search starts at the first task, and is over at once where there is none.
pub proof fn law_searches_begin(task_count: usize, search: Search)
    requires
        call_ensures(Search::begin, (task_count,), search),
    ensures
        task_count == 0 ==> search is Exhausted,
        task_count > 0 ==> search == Search::Look(0),
{
}

/// A search stays at a task as long as it may be had: it evicts only a claim that is to be moved
/// aside, creates only where none stands or one was removed, and claims only what it created. From
/// a task that is not to be had it goes to the very next one, and after the last one it is over.
pub proof fn law_searches_go_on(
    place: usize,
    task_count: usize,
    looked: ClaimAction,
    evicted: bool,
    created: bool,
    after_look: Search,
    after_eviction: Search,
    after_creation: Search,
)
    requires
        call_ensures(
            Search::after,
            (Search::Look(place), Finding::Looked(looked), task_count),
            after_look,
        ),
        call_ensures(
            Search::after,
            (Search::Evict(place), Finding::Evicted(evicted), task_count),
            after_eviction,
        ),
        call_ensures(
            Search::after,
            (Search::Create(place), Finding::Created(created), task_count),
            after_creation,
        ),
        place < task_count,
    ensures
        looked is Quarantine ==> after_look == Search::Evict(place),
        looked is Create ==> after_look == Search::Create(place),
        evicted ==> after_eviction == Search::Create(place),
        created ==> after_creation == Search::Claimed(place),
        looked is Next && place + 1 < task_count ==> after_look == Search::Look(
            (place + 1) as usize,
        ),
        !evicted && place + 1 < task_count ==> after_eviction == Search::Look((place + 1) as usize),
        !created && place + 1 < task_count ==> after_creation == Search::Look((place + 1) as usize),
        looked is Next && place + 1 == task_count ==> after_look is Exhausted,
        !evicted && place + 1 == task_count ==> after_eviction is Exhausted,
        !created && place + 1 == task_count ==> after_creation is Exhausted,
{
}

/// A search that is over stays so, and no search is moved by a finding that it did not ask for.
pub proof fn law_searches_stay(
    search: Search,
    finding: Finding,
    task_count: usize,
    after: Search,
)
    requires
        call_ensures(Search::after, (search, finding, task_count), after),
    ensures
        search is Claimed || search is Exhausted ==> after == search,
        search is Look && !(finding is Looked) ==> after == search,
        search is Evict && !(finding is Evicted) ==> after == search,
        search is Create && !(finding is Created) ==> after == search,
{
}

/// Done markers carry what they are made of. One that is accepted has version one and the name, the
/// place and the settings of the task that it is held against.
pub proof fn law_done_markers<P: Clone + PartialEq>(
    job_name: String,
    task_index: usize,
    task: Task<P>,
    made: DoneMarker<P>,
    path: &str,
    read: Option<DoneMarker<P>>,
    checked: Result<(), GenericJobError>,
)
    requires
        call_ensures(done_marker::<P>, (&job_name, task_index, &task), made),
        call_ensures(
            check_done_marker::<P>,
            (path, &read, &job_name, task_index, &task),
            checked,
        ),
    ensures
        made.schema_version == 1,
        made.job_name@ == job_name@,
        made.task_index == task_index,
        made.task.name@ == task.name@,
        made.task.sweeps == task.sweeps,
        made.task.thermalization == task.thermalization,
        made.task.binsize == task.binsize,
        made.task.seed == task.seed,
        checked is Ok ==> read is Some && ({
            let m = read->0;
            &&& m.schema_version == 1
            &&& m.job_name@ == job_name@
            &&& m.task_index == task_index
            &&& m.task.name@ == task.name@
            &&& m.task.sweeps == task.sweeps
            &&& m.task.thermalization == task.thermalization
            &&& m.task.binsize == task.binsize
            &&& m.task.seed == task.seed
        }),
        checked matches Err(e) ==> (e matches GenericJobError::Schema { path: p, reason } && p@
            == path@ && reason@ == if read is None {
            "invalid done marker"@
        } else {
            "done marker does not match job or task"@
        }),
{
}

/// A done marker is accepted for the task that it was made for, where parameters equal their
/// copies.
pub proof fn law_own_done_markers_are_accepted<P: Clone + PartialEq>(
    job_name: String,
    task_index: usize,
    task: Task<P>,
    made: DoneMarker<P>,
    path: &str,
    checked: Result<(), GenericJobError>,
)
    requires
        P::obeys_eq_spec(),
        call_ensures(done_marker::<P>, (&job_name, task_index, &task), made),
        made.task.parameters.eq_spec(&task.parameters),
        call_ensures(
            check_done_marker::<P>,
            (path, &Some(made), &job_name, task_index, &task),
            checked,
        ),
    ensures
        checked is Ok,
{
}

/// Tokens and the names of claims that are moved aside are written in decimal: the process first,
/// then the time, then the number, with dashes between them in a token; the process and then the
/// number, with dots in front of them, behind the name of a claim.
pub proof fn law_claim_texts(
    pid: u32,
    now: u128,
    id: u64,
    token: String,
    name: &str,
    quarantine: String,
)
    requires
        call_ensures(claim_token, (pid, now, id), token),
        call_ensures(quarantine_name, (name, pid, id), quarantine),
    ensures
        token@ == decimal(pid as nat) + "-"@ + decimal(now as nat) + "-"@ + decimal(id as nat),
        quarantine@ == name@ + ".stale."@ + decimal(pid as nat) + "."@ + decimal(id as nat),
        token@.len() > 0,
{
    lemma_decimal_value(pid as nat);
}

} // verus!
