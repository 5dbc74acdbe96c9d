//! Laws that relate several store operations, stated over the model and
//! proved once and for all. Each is phrased against the same predicates
//! the operations' own contracts use, so it applies to every store the
//! operations can produce.

use vstd::prelude::*;

use crate::model::{
    find_run, has_run_id, lemma_find_run_absent, lemma_find_run_hit, lemma_insert_run,
    lemma_logs_for_run_empty, lemma_remove_logs_props, lemma_remove_run_props, logs_for_run,
    logs_sorted, recent_runs, remove_logs_for, remove_run, runs_sorted, unique_log_ids,
    unique_run_ids,
};
use crate::records::{Run, RunLog};

verus! {

/// Inserting a run whose id was absent and then looking that id up returns
/// exactly the inserted run.
pub proof fn lemma_add_then_lookup(pre: Seq<Run>, post: Seq<Run>, r: Run, k: int)
    requires
        unique_run_ids(pre),
        !has_run_id(pre, r.id@),
        0 <= k <= pre.len(),
        post == pre.insert(k, r),
    ensures
        find_run(post, r.id@) == Some(r),
{
    lemma_insert_run(pre, k, r);
    pre.insert_ensures(k, r);
    lemma_find_run_hit(post, r.id@, k);
}

/// Deleting a run cascades: afterwards the id resolves to nothing and the
/// run's log query comes back empty.
pub proof fn lemma_delete_cascades(runs: Seq<Run>, logs: Seq<RunLog>, id: Seq<char>)
    requires
        runs_sorted(runs),
        unique_run_ids(runs),
        logs_sorted(logs),
        unique_log_ids(logs),
    ensures
        find_run(remove_run(runs, id), id) is None,
        logs_for_run(remove_logs_for(logs, id), id).len() == 0,
{
    lemma_remove_run_props(runs, id);
    lemma_find_run_absent(remove_run(runs, id), id);
    lemma_remove_logs_props(logs, id);
    lemma_logs_for_run_empty(remove_logs_for(logs, id), id);
}

/// Two inserts with distinct ids, both absent at the start, both go
/// through — the first cannot obstruct the second — and both runs are
/// visible to a recency query wide enough to cover the table.
pub proof fn lemma_distinct_adds_visible(
    s0: Seq<Run>,
    s1: Seq<Run>,
    s2: Seq<Run>,
    r1: Run,
    r2: Run,
    k1: int,
    k2: int,
    limit: int,
)
    requires
        unique_run_ids(s0),
        r1.id@ != r2.id@,
        !has_run_id(s0, r1.id@),
        !has_run_id(s0, r2.id@),
        0 <= k1 <= s0.len(),
        s1 == s0.insert(k1, r1),
        0 <= k2 <= s1.len(),
        s2 == s1.insert(k2, r2),
        limit >= s2.len(),
    ensures
        !has_run_id(s1, r2.id@),
        has_run_id(s2, r1.id@),
        has_run_id(s2, r2.id@),
        recent_runs(s2, limit).contains(r1),
        recent_runs(s2, limit).contains(r2),
{
    lemma_insert_run(s0, k1, r1);
    lemma_insert_run(s1, k2, r2);
    s0.insert_ensures(k1, r1);
    s1.insert_ensures(k2, r2);
    let i1: int = if k1 < k2 {
        k1
    } else {
        k1 + 1
    };
    assert(s1[k1] == r1);
    assert(s2[i1] == r1);
    assert(s2[k2] == r2);
    assert(recent_runs(s2, limit).len() == s2.len());
    assert(recent_runs(s2, limit).contains(r1)) by {
        assert(recent_runs(s2, limit)[s2.len() - 1 - i1] == r1);
    }
    assert(recent_runs(s2, limit).contains(r2)) by {
        assert(recent_runs(s2, limit)[s2.len() - 1 - k2] == r2);
    }
}

} // verus!
