//! The batch collector: one snapshot attempt per ticker, in list order,
//! with every per-ticker failure absorbed. A failed ticker yields a log
//! line and nothing else; the batch never aborts early.

use vstd::prelude::*;
use crate::snapshot::{QuoteSummary, Snapshot, SnapshotError, build_snapshot, complete,
    first_fault};

verus! {

/// Why one ticker produced no snapshot: the provider call itself failed
/// with the message it gave, or its payload could not be shaped.
pub enum CollectError {
    Provider { message: String },
    Build { fault: SnapshotError },
}

/// One human-readable status line, one per ticker attempted.
pub enum LogLine {
    Success { ticker: String },
    Failure { ticker: String, error: CollectError },
}

/// A provider attempt counts as good when the call succeeded and its
/// payload is complete.
pub open spec fn attempt_ok(o: Result<QuoteSummary, String>) -> bool {
    o is Ok && complete(o.unwrap())
}

/// The positions of the good attempts, in input order.
pub open spec fn ok_indices(outcomes: Seq<Result<QuoteSummary, String>>) -> Seq<int>
    decreases outcomes.len(),
{
    if outcomes.len() == 0 {
        Seq::empty()
    } else {
        let pre = ok_indices(outcomes.drop_last());
        if attempt_ok(outcomes.last()) {
            pre.push(outcomes.len() - 1)
        } else {
            pre
        }
    }
}

/// The number of attempts that fail.
pub open spec fn fail_count(outcomes: Seq<Result<QuoteSummary, String>>) -> nat
    decreases outcomes.len(),
{
    if outcomes.len() == 0 {
        0
    } else {
        fail_count(outcomes.drop_last()) + if attempt_ok(outcomes.last()) {
            0nat
        } else {
            1nat
        }
    }
}

/// The log line owed to one ticker: a success notice naming the ticker for
/// a good attempt, otherwise a failure notice naming the ticker and carrying
/// the provider's message verbatim, or the shaping fault.
pub open spec fn log_matches(
    line: LogLine,
    ticker: Seq<char>,
    o: Result<QuoteSummary, String>,
) -> bool {
    if attempt_ok(o) {
        line matches LogLine::Success { ticker: t } && t@ == ticker
    } else if o is Err {
        line matches LogLine::Failure { ticker: t, error: CollectError::Provider { message } }
            && t@ == ticker && message@ == o->Err_0@
    } else {
        line matches LogLine::Failure { ticker: t, error: CollectError::Build { fault } } && t@
            == ticker && fault == first_fault(o.unwrap()).unwrap()
    }
}

/// Collects one snapshot per good attempt, in input order, and one log line
/// per ticker. Failures are absorbed here and reach the caller only as log
/// lines: the result holds exactly the snapshots of the good attempts, in
/// the order of their tickers.
pub fn collect_all(tickers: &Vec<String>, outcomes: Vec<Result<QuoteSummary, String>>) -> (r: (
    Vec<Snapshot>,
    Vec<LogLine>,
))
    requires
        tickers@.len() == outcomes@.len(),
    ensures
        r.1@.len() == tickers@.len(),
        forall|i: int|
            0 <= i < tickers@.len() ==> log_matches(#[trigger] r.1@[i], tickers@[i]@, outcomes@[i]),
        r.0@.len() == ok_indices(outcomes@).len(),
        forall|k: int|
            0 <= k < r.0@.len() ==> (#[trigger] r.0@[k]).matches_data(
                tickers@[ok_indices(outcomes@)[k]]@,
                outcomes@[ok_indices(outcomes@)[k]].unwrap(),
            ),
        forall|k: int|
            0 <= k < r.0@.len() ==> (#[trigger] r.0@[k]).timestamp@.len() > 0
                && !crate::rows::field_needs_quoting(r.0@[k].timestamp@),
{
    let ghost all = outcomes@;
    let mut snapshots: Vec<Snapshot> = Vec::new();
    let mut logs: Vec<LogLine> = Vec::new();
    let n = tickers.len();
    let mut outcomes = outcomes;
    let mut i: usize = 0;
    while i < n
        invariant
            n == tickers@.len(),
            outcomes@ =~= all.skip(i as int),
            all.len() == n,
            i <= n,
            logs@.len() == i,
            forall|j: int| 0 <= j < i ==> log_matches(#[trigger] logs@[j], tickers@[j]@, all[j]),
            snapshots@.len() == ok_indices(all.take(i as int)).len(),
            forall|k: int|
                0 <= k < snapshots@.len() ==> (#[trigger] snapshots@[k]).matches_data(
                    tickers@[ok_indices(all.take(i as int))[k]]@,
                    all[ok_indices(all.take(i as int))[k]].unwrap(),
                ),
            forall|k: int|
                0 <= k < snapshots@.len() ==> (#[trigger] snapshots@[k]).timestamp@.len() > 0
                    && !crate::rows::field_needs_quoting(snapshots@[k].timestamp@),
        decreases n - i,
    {
        let ghost prefix = all.take(i as int);
        let ghost extended = all.take(i + 1);
        proof {
            assert(extended.drop_last() =~= prefix);
            assert(extended.last() == all[i as int]);
        }
        let ticker = &tickers[i];
        let outcome = outcomes.remove(0);
        proof {
            assert(outcome == all.skip(i as int)[0] && all.skip(i as int)[0] == all[i as int]);
            assert(outcomes@ =~= all.skip(i + 1));
        }
        match outcome {
            Ok(payload) => {
                match build_snapshot(ticker.as_str(), &payload) {
                    Ok(snapshot) => {
                        snapshots.push(snapshot);
                        logs.push(LogLine::Success { ticker: ticker.clone() });
                        proof {
                            assert(ok_indices(extended) =~= ok_indices(prefix).push(i as int));
                        }
                    },
                    Err(fault) => {
                        logs.push(
                            LogLine::Failure {
                                ticker: ticker.clone(),
                                error: CollectError::Build { fault },
                            },
                        );
                        proof {
                            assert(ok_indices(extended) =~= ok_indices(prefix));
                        }
                    },
                }
            },
            Err(message) => {
                logs.push(
                    LogLine::Failure {
                        ticker: ticker.clone(),
                        error: CollectError::Provider { message },
                    },
                );
                proof {
                    assert(ok_indices(extended) =~= ok_indices(prefix));
                }
            },
        }
        i = i + 1;
    }
    proof {
        assert(all.take(n as int) =~= all);
    }
    (snapshots, logs)
}

/// Failure isolation, stated of the whole batch: over `N` tickers of which
/// exactly `K` fail, the good positions number `N - K`, stand strictly in
/// input order, and each is a good attempt — failed tickers are omitted,
/// never reordered and never fatal.
pub proof fn lemma_failure_isolation(outcomes: Seq<Result<QuoteSummary, String>>)
    ensures
        ok_indices(outcomes).len() + fail_count(outcomes) == outcomes.len(),
        forall|a: int, b: int|
            0 <= a < b < ok_indices(outcomes).len() ==> #[trigger] ok_indices(outcomes)[a]
                < #[trigger] ok_indices(outcomes)[b],
        forall|k: int|
            0 <= k < ok_indices(outcomes).len() ==> 0 <= #[trigger] ok_indices(outcomes)[k]
                < outcomes.len() && attempt_ok(outcomes[ok_indices(outcomes)[k]]),
    decreases outcomes.len(),
{
    if outcomes.len() == 0 {
    } else {
        let rest = outcomes.drop_last();
        lemma_failure_isolation(rest);
        let pre = ok_indices(rest);
        assert(forall|k: int|
            0 <= k < pre.len() ==> 0 <= #[trigger] pre[k] < rest.len() && attempt_ok(
                rest[pre[k]],
            ));
        assert(forall|j: int| 0 <= j < rest.len() ==> rest[j] == outcomes[j]);
    }
}

} // verus!
