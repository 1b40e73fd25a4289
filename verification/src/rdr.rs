//! The remote-rendering (RDR) proxy network function: the browsing workload
//! replayed by its users, which users take part in a setup, when a visit is
//! due, and the tally of how the visits went.
use std::collections::HashMap;
use vstd::prelude::*;

verus! {

broadcast use {
    vstd::std_specs::hash::group_hash_axioms,
};

/// The number of RDR users of each experiment setup (1 to 6).
pub open spec fn spec_rdr_users(setup_val: usize) -> Option<usize> {
    if setup_val == 1 {
        Some(2)
    } else if setup_val == 2 {
        Some(4)
    } else if setup_val == 3 {
        Some(8)
    } else if setup_val == 4 {
        Some(12)
    } else if setup_val == 5 {
        Some(16)
    } else if setup_val == 6 {
        Some(20)
    } else {
        None
    }
}

/// The number of RDR users of an experiment setup; `None` for an unknown setup.
pub fn rdr_retrieve_users(setup_val: usize) -> (res: Option<usize>)
    ensures
        res == spec_rdr_users(setup_val),
{
    let mut map: HashMap<usize, usize> = HashMap::new();
    map.insert(1, 2);
    map.insert(2, 4);
    map.insert(3, 8);
    map.insert(4, 12);
    map.insert(5, 16);
    map.insert(6, 20);
    map.remove(&setup_val)
}

/// A visit in the replayed workload is due from this many milliseconds into
/// its second on; visits from [`RDR_DEADLINE_MILLIS`] on are not made.
pub const RDR_DEADLINE_MILLIS: u64 = 750;

/// What to do with the next visit of a second's workload.
#[derive(Clone, Copy, Debug, PartialEq, Eq)]
pub enum VisitDecision {
    /// The visit, and all those after it, fall past the deadline: stop.
    Stop,
    /// The visit is not due yet: pause a millisecond and go on with the next one.
    Wait,
    /// Make the visit.
    Browse,
}

/// Decides about a visit planned at `milli` milliseconds into the second,
/// `elapsed_millis` milliseconds after the second began.
pub fn rdr_visit_decision(milli: u64, elapsed_millis: u128) -> (d: VisitDecision)
    ensures
        d == if milli >= RDR_DEADLINE_MILLIS {
            VisitDecision::Stop
        } else if elapsed_millis < milli as u128 {
            VisitDecision::Wait
        } else {
            VisitDecision::Browse
        },
{
    if milli >= RDR_DEADLINE_MILLIS {
        VisitDecision::Stop
    } else if elapsed_millis < milli as u128 {
        VisitDecision::Wait
    } else {
        VisitDecision::Browse
    }
}

/// Whether `users` holds `user`.
pub fn contains_user(users: &Vec<i64>, user: i64) -> (res: bool)
    ensures
        res == users@.contains(user),
{
    let mut i: usize = 0;
    while i < users.len()
        invariant
            i <= users.len(),
            forall|j: int| 0 <= j < i ==> users@[j] != user,
        decreases users.len() - i,
    {
        if users[i] == user {
            return true;
        }
        i = i + 1;
    }
    false
}

/// Positions, in order, of the planned visits `(milli, url, user)` that belong
/// to one of the RDR users.
pub open spec fn selected_positions(rdr_users: Seq<i64>, work: Seq<(u64, String, i64)>, upto: int) -> Seq<usize>
    decreases upto,
{
    if upto <= 0 {
        Seq::empty()
    } else {
        let prefix = selected_positions(rdr_users, work, upto - 1);
        if rdr_users.contains(work[upto - 1].2) {
            prefix.push((upto - 1) as usize)
        } else {
            prefix
        }
    }
}

/// Every planned visit of an RDR user is made, whatever its millisecond, and
/// no other: among the first `upto` visits, position `i` is selected exactly
/// when the user of visit `i` is one of `rdr_users`; the positions come in
/// strictly increasing order and all lie below `upto`.
pub proof fn lemma_selected_exactly_rdr_visits(
    rdr_users: Seq<i64>,
    work: Seq<(u64, String, i64)>,
    upto: int,
)
    requires
        0 <= upto <= work.len(),
        work.len() <= usize::MAX,
    ensures
        forall|i: int| 0 <= i < upto ==> (selected_positions(rdr_users, work, upto).contains(
            i as usize,
        ) <==> rdr_users.contains(#[trigger] work[i].2)),
        forall|j: int|
            0 <= j < selected_positions(rdr_users, work, upto).len() ==> #[trigger] selected_positions(
                rdr_users,
                work,
                upto,
            )[j] < upto,
        forall|j: int, k: int|
            0 <= j < k < selected_positions(rdr_users, work, upto).len() ==> #[trigger] selected_positions(
                rdr_users,
                work,
                upto,
            )[j] < #[trigger] selected_positions(rdr_users, work, upto)[k],
    decreases upto,
{
    if upto > 0 {
        lemma_selected_exactly_rdr_visits(rdr_users, work, upto - 1);
        let prefix = selected_positions(rdr_users, work, upto - 1);
        let s = selected_positions(rdr_users, work, upto);
        assert forall|i: int| 0 <= i < upto implies (s.contains(i as usize) <==> rdr_users.contains(
            #[trigger] work[i].2,
        )) by {
            if i < upto - 1 {
                if s.contains(i as usize) {
                    let j = choose|j: int| 0 <= j < s.len() && s[j] == i as usize;
                    if j < prefix.len() {
                        assert(prefix[j] == s[j]);
                    }
                    assert(prefix.contains(i as usize));
                }
                if prefix.contains(i as usize) {
                    let j = choose|j: int| 0 <= j < prefix.len() && prefix[j] == i as usize;
                    assert(s[j] == prefix[j]);
                }
            } else {
                if rdr_users.contains(work[i].2) {
                    assert(s[s.len() - 1] == i as usize);
                }
                if s.contains(i as usize) {
                    let j = choose|j: int| 0 <= j < s.len() && s[j] == i as usize;
                    if j < prefix.len() {
                        assert(prefix[j] == s[j]);
                        assert(prefix[j] < upto - 1);
                    }
                }
            }
        }
    }
}

/// The positions of the planned visits to make: those of RDR users, in order.
pub fn rdr_select_work(rdr_users: &Vec<i64>, work: &Vec<(u64, String, i64)>) -> (res: Vec<usize>)
    ensures
        res@ == selected_positions(rdr_users@, work@, work@.len() as int),
        forall|i: int|
            0 <= i < work@.len() ==> (res@.contains(i as usize) <==> rdr_users@.contains(
                #[trigger] work@[i].2,
            )),
        forall|j: int, k: int| 0 <= j < k < res@.len() ==> #[trigger] res@[j] < #[trigger] res@[k],
        forall|j: int| 0 <= j < res@.len() ==> #[trigger] res@[j] < work@.len(),
{
    let len: usize = work.len();
    proof {
        lemma_selected_exactly_rdr_visits(rdr_users@, work@, len as int);
    }
    let mut res: Vec<usize> = Vec::new();
    let mut i: usize = 0;
    while i < work.len()
        invariant
            i <= work.len(),
            res@ == selected_positions(rdr_users@, work@, i as int),
        decreases work.len() - i,
    {
        if contains_user(rdr_users, work[i].2) {
            res.push(i);
        }
        i = i + 1;
    }
    res
}

/// How one visit went.
#[derive(Clone, Copy, Debug, PartialEq, Eq)]
pub enum BrowseResult {
    /// The browser reported a status code (1: loaded, 2: failed, 3: timed
    /// out) after this many milliseconds.
    Done { code: usize, elapsed_millis: u128 },
    /// The visit failed with an error.
    Failed,
}

/// Status code of a visit whose page loaded.
pub const BROWSE_OK: usize = 1;

/// Status code of a visit whose tab could not be opened for another reason than a time-out.
pub const BROWSE_ERR: usize = 2;

/// Status code of a visit whose tab timed out twice.
pub const BROWSE_TIMEOUT: usize = 3;

/// The tally of a run of visits: loaded, failed, timed out, closed, visits
/// with a time, and the sum of those times in milliseconds.
pub struct BrowseTally {
    pub ok: nat,
    pub err: nat,
    pub timeout: nat,
    pub timed: nat,
    pub total_millis: int,
}

/// Whether a status code is one that the tally knows.
pub open spec fn known_code(code: usize) -> bool {
    code == BROWSE_OK || code == BROWSE_ERR || code == BROWSE_TIMEOUT
}

/// The tally of the first `n` results.
pub open spec fn tally(results: Seq<BrowseResult>, n: int) -> BrowseTally
    decreases n,
{
    if n <= 0 {
        BrowseTally { ok: 0, err: 0, timeout: 0, timed: 0, total_millis: 0 }
    } else {
        let t = tally(results, n - 1);
        match results[n - 1] {
            BrowseResult::Done { code, elapsed_millis } => if known_code(code) {
                BrowseTally {
                    ok: if code == BROWSE_OK { t.ok + 1 } else { t.ok },
                    err: if code == BROWSE_ERR { t.err + 1 } else { t.err },
                    timeout: if code == BROWSE_TIMEOUT { t.timeout + 1 } else { t.timeout },
                    timed: t.timed + 1,
                    total_millis: t.total_millis + (elapsed_millis as usize) as int,
                }
            } else {
                t
            },
            BrowseResult::Failed => BrowseTally { err: t.err + 1, ..t },
        }
    }
}

/// The tally never counts more visits than there are results, and its time
/// sum only grows.
pub proof fn lemma_tally_bounds(results: Seq<BrowseResult>, n: int, m: int)
    requires
        0 <= n <= m,
    ensures
        tally(results, n).ok + tally(results, n).err + tally(results, n).timeout <= n,
        tally(results, n).timed <= n,
        0 <= tally(results, n).total_millis <= tally(results, m).total_millis,
    decreases m,
{
    if m > n {
        lemma_tally_bounds(results, n, m - 1);
    } else if n > 0 {
        lemma_tally_bounds(results, n - 1, n - 1);
    }
}

/// Tallies the results of the visits made: `None` when no visit counted,
/// else the numbers of visits that loaded, failed and timed out, the number
/// of closed tabs (none are counted), the number of visits with a time, and
/// the sum of those times (each taken as a `usize`).
pub fn tally_browsing(results: &Vec<BrowseResult>) -> (res: Option<(usize, usize, usize, usize, usize, usize)>)
    requires
        tally(results@, results@.len() as int).total_millis <= usize::MAX,
    ensures
        ({
            let t = tally(results@, results@.len() as int);
            if t.ok + t.err + t.timeout > 0 {
                res == Some(
                    (
                        t.ok as usize,
                        t.err as usize,
                        t.timeout as usize,
                        0usize,
                        t.timed as usize,
                        t.total_millis as usize,
                    ),
                )
            } else {
                res is None
            }
        }),
{
    let mut num_of_ok: usize = 0;
    let mut num_of_err: usize = 0;
    let mut num_of_timeout: usize = 0;
    let num_of_closed: usize = 0;
    let mut num_of_visit: usize = 0;
    let mut num_timed: usize = 0;
    let mut total: usize = 0;
    let mut i: usize = 0;
    while i < results.len()
        invariant
            i <= results.len(),
            tally(results@, results@.len() as int).total_millis <= usize::MAX,
            ({
                let t = tally(results@, i as int);
                &&& num_of_ok == t.ok
                &&& num_of_err == t.err
                &&& num_of_timeout == t.timeout
                &&& num_of_visit == t.ok + t.err + t.timeout
                &&& num_timed == t.timed
                &&& total == t.total_millis
            }),
        decreases results.len() - i,
    {
        proof {
            lemma_tally_bounds(results@, i + 1, results@.len() as int);
            lemma_tally_bounds(results@, i as int, i as int);
        }
        match results[i] {
            BrowseResult::Done { code, elapsed_millis } => {
                if code == BROWSE_OK {
                    num_of_ok = num_of_ok + 1;
                    num_of_visit = num_of_visit + 1;
                    num_timed = num_timed + 1;
                    total = total + elapsed_millis as usize;
                } else if code == BROWSE_ERR {
                    num_of_err = num_of_err + 1;
                    num_of_visit = num_of_visit + 1;
                    num_timed = num_timed + 1;
                    total = total + elapsed_millis as usize;
                } else if code == BROWSE_TIMEOUT {
                    num_of_timeout = num_of_timeout + 1;
                    num_of_visit = num_of_visit + 1;
                    num_timed = num_timed + 1;
                    total = total + elapsed_millis as usize;
                }
            },
            BrowseResult::Failed => {
                num_of_err = num_of_err + 1;
                num_of_visit = num_of_visit + 1;
            },
        }
        i = i + 1;
    }
    if num_of_visit > 0 {
        Some((num_of_ok, num_of_err, num_of_timeout, num_of_closed, num_timed, total))
    } else {
        None
    }
}

/// What to do after an attempt to open a browser tab for a visit.
#[derive(Clone, Copy, Debug, PartialEq, Eq)]
pub enum TabAction {
    /// The tab is open: navigate to the site.
    Navigate,
    /// The first attempt failed: pause [`TAB_RETRY_PAUSE_MILLIS`] milliseconds and try again.
    RetryAfterPause,
    /// The second attempt failed too: report the visit as timed out ([`BROWSE_TIMEOUT`]).
    GiveUp,
}

/// Pause before the second attempt to open a tab, in milliseconds.
pub const TAB_RETRY_PAUSE_MILLIS: u64 = 100;

/// Decides after an attempt to open a tab (`attempt` 1 or 2) whether it opened.
pub fn tab_step(attempt: u8, opened: bool) -> (a: TabAction)
    requires
        attempt == 1 || attempt == 2,
    ensures
        a == if opened {
            TabAction::Navigate
        } else if attempt == 1 {
            TabAction::RetryAfterPause
        } else {
            TabAction::GiveUp
        },
{
    if opened {
        TabAction::Navigate
    } else if attempt == 1 {
        TabAction::RetryAfterPause
    } else {
        TabAction::GiveUp
    }
}

} // verus!
