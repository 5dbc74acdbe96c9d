//! The mathematical model the store's contracts speak of: predicates and
//! functions over the sequences of stored rows, and the lemmas about them
//! that the operations and the stated laws rely on.

use vstd::prelude::*;

use crate::records::{LegacyRun, Run, RunLog};

verus! {

// ---------------------------------------------------------------------------
// Predicates over the run table
// ---------------------------------------------------------------------------

/// Some stored run carries this id.
pub open spec fn has_run_id(s: Seq<Run>, id: Seq<char>) -> bool {
    exists|i: int| 0 <= i < s.len() && s[i].id@ == id
}

/// No two stored runs share an id.
pub open spec fn unique_run_ids(s: Seq<Run>) -> bool {
    forall|i: int, j: int| 0 <= i < j < s.len() ==> s[i].id@ != s[j].id@
}

/// Rows stand in non-decreasing timestamp order.
pub open spec fn runs_sorted(s: Seq<Run>) -> bool {
    forall|i: int, j: int| 0 <= i < j < s.len() ==> s[i].timestamp <= s[j].timestamp
}

/// Rows stand in non-increasing timestamp order.
pub open spec fn runs_sorted_desc(s: Seq<Run>) -> bool {
    forall|i: int, j: int| 0 <= i < j < s.len() ==> s[i].timestamp >= s[j].timestamp
}

/// The first stored run carrying this id, scanning front to back.
pub open spec fn find_run(s: Seq<Run>, id: Seq<char>) -> Option<Run>
    decreases s.len(),
{
    if s.len() <= 0 {
        None
    } else if s[0].id@ == id {
        Some(s[0])
    } else {
        find_run(s.drop_first(), id)
    }
}

/// The runs belonging to one session, in stored order.
pub open spec fn runs_in_session(s: Seq<Run>, sid: Seq<char>) -> Seq<Run>
    decreases s.len(),
{
    if s.len() <= 0 {
        Seq::empty()
    } else {
        let rest = runs_in_session(s.drop_last(), sid);
        if s.last().session_id@ == sid {
            rest.push(s.last())
        } else {
            rest
        }
    }
}

/// The run table after deleting one id.
pub open spec fn remove_run(s: Seq<Run>, id: Seq<char>) -> Seq<Run>
    decreases s.len(),
{
    if s.len() <= 0 {
        Seq::empty()
    } else {
        let rest = remove_run(s.drop_last(), id);
        if s.last().id@ != id {
            rest.push(s.last())
        } else {
            rest
        }
    }
}

/// How many rows a recency query with this limit yields.
pub open spec fn recent_count(len: int, limit: int) -> int {
    if limit <= 0 {
        0
    } else if limit >= len {
        len
    } else {
        limit
    }
}

/// The most recent rows first: the tail of the (ascending) table, reversed,
/// cut to the limit.
pub open spec fn recent_runs(s: Seq<Run>, limit: int) -> Seq<Run> {
    Seq::new(recent_count(s.len() as int, limit) as nat, |j: int| s[s.len() - 1 - j])
}

// ---------------------------------------------------------------------------
// Predicates over the log table
// ---------------------------------------------------------------------------

/// No two stored log lines share an id.
pub open spec fn unique_log_ids(s: Seq<RunLog>) -> bool {
    forall|i: int, j: int| 0 <= i < j < s.len() ==> s[i].id != s[j].id
}

/// Log lines stand in non-decreasing timestamp order.
pub open spec fn logs_sorted(s: Seq<RunLog>) -> bool {
    forall|i: int, j: int| 0 <= i < j < s.len() ==> s[i].timestamp <= s[j].timestamp
}

/// The log lines attributed to one run, in stored order.
pub open spec fn logs_for_run(s: Seq<RunLog>, run_id: Seq<char>) -> Seq<RunLog>
    decreases s.len(),
{
    if s.len() <= 0 {
        Seq::empty()
    } else {
        let rest = logs_for_run(s.drop_last(), run_id);
        if s.last().run_id@ == run_id {
            rest.push(s.last())
        } else {
            rest
        }
    }
}

/// The log table after the cascade that deleting a run performs.
pub open spec fn remove_logs_for(s: Seq<RunLog>, run_id: Seq<char>) -> Seq<RunLog>
    decreases s.len(),
{
    if s.len() <= 0 {
        Seq::empty()
    } else {
        let rest = remove_logs_for(s.drop_last(), run_id);
        if s.last().run_id@ != run_id {
            rest.push(s.last())
        } else {
            rest
        }
    }
}

// ---------------------------------------------------------------------------
// Migration shape
// ---------------------------------------------------------------------------

/// No two legacy rows share an id (the legacy table also keyed rows by id).
pub open spec fn unique_legacy_ids(s: Seq<LegacyRun>) -> bool {
    forall|i: int, j: int| 0 <= i < j < s.len() ==> s[i].id@ != s[j].id@
}

/// Legacy rows stand in non-decreasing timestamp order (the same stored
/// convention the current tables keep).
pub open spec fn legacy_sorted(s: Seq<LegacyRun>) -> bool {
    forall|i: int, j: int| 0 <= i < j < s.len() ==> s[i].timestamp <= s[j].timestamp
}

/// `r` is `l` carried into the current shape: the shared columns copied,
/// the columns the legacy schema lacked filled with their declared defaults.
#[verifier::opaque]
pub open spec fn upgrade_of(l: LegacyRun, r: Run) -> bool {
    &&& r.id@ == l.id@
    &&& r.session_id@ == Seq::<char>::empty()
    &&& r.timestamp == l.timestamp
    &&& r.agent@ == l.agent@
    &&& r.model@ == Seq::<char>::empty()
    &&& r.input@ == l.input@
    &&& r.output@ == l.output@
    &&& r.tools_used@ == "[]"@
    &&& r.exit_status == 0
}

/// `post` holds exactly the legacy rows of `pre`, row by row in order,
/// each in upgraded shape: nothing lost, nothing invented, nothing moved.
pub open spec fn upgraded_rows(pre: Seq<LegacyRun>, post: Seq<Run>) -> bool {
    &&& post.len() == pre.len()
    &&& (forall|k: int| 0 <= k < pre.len() ==> upgrade_of(#[trigger] pre[k], post[k]))
}

// ---------------------------------------------------------------------------
// Lemmas about find_run
// ---------------------------------------------------------------------------

/// A lookup over a table without the id finds nothing.
pub proof fn lemma_find_run_absent(s: Seq<Run>, id: Seq<char>)
    requires
        !has_run_id(s, id),
    ensures
        find_run(s, id) is None,
    decreases s.len(),
{
    if s.len() > 0 {
        assert(forall|i: int|
            0 <= i < s.drop_first().len() ==> #[trigger] s.drop_first()[i] == s[i + 1]);
        lemma_find_run_absent(s.drop_first(), id);
    }
}

/// With unique ids, a lookup finds exactly the row that carries the id.
pub proof fn lemma_find_run_hit(s: Seq<Run>, id: Seq<char>, k: int)
    requires
        unique_run_ids(s),
        0 <= k < s.len(),
        s[k].id@ == id,
    ensures
        find_run(s, id) == Some(s[k]),
    decreases s.len(),
{
    if k == 0 {
    } else {
        assert(s[0].id@ != id);
        assert(forall|i: int|
            0 <= i < s.drop_first().len() ==> #[trigger] s.drop_first()[i] == s[i + 1]);
        lemma_find_run_hit(s.drop_first(), id, k - 1);
    }
}

// ---------------------------------------------------------------------------
// Lemmas about the filtered tables
// ---------------------------------------------------------------------------

/// A session query keeps stored (ascending) order, and every row it yields
/// is a stored row.
pub proof fn lemma_runs_in_session_props(s: Seq<Run>, sid: Seq<char>)
    requires
        runs_sorted(s),
    ensures
        runs_sorted(runs_in_session(s, sid)),
        forall|k: int|
            0 <= k < runs_in_session(s, sid).len() ==> exists|m: int|
                0 <= m < s.len() && #[trigger] runs_in_session(s, sid)[k] == s[m],
    decreases s.len(),
{
    if s.len() > 0 {
        let sub = s.drop_last();
        assert(forall|i: int| 0 <= i < sub.len() ==> #[trigger] sub[i] == s[i]);
        lemma_runs_in_session_props(sub, sid);
        let rest = runs_in_session(sub, sid);
        let out = runs_in_session(s, sid);
        if s.last().session_id@ == sid {
            assert(out == rest.push(s.last()));
            assert forall|a: int, b: int|
                0 <= a < b < out.len() implies out[a].timestamp <= out[b].timestamp by {
                if b < out.len() - 1 {
                    assert(out[a] == rest[a] && out[b] == rest[b]);
                } else {
                    assert(out[a] == rest[a]);
                    let m = choose|m: int| 0 <= m < sub.len() && rest[a] == sub[m];
                    assert(s[m].timestamp <= s[s.len() - 1].timestamp);
                    assert(out[b] == s.last());
                }
            }
            assert forall|k: int|
                0 <= k < out.len() implies exists|m: int| 0 <= m < s.len() && #[trigger] out[k]
                    == s[m] by {
                if k < out.len() - 1 {
                    assert(out[k] == rest[k]);
                    let m = choose|m: int| 0 <= m < sub.len() && rest[k] == sub[m];
                    assert(out[k] == s[m]);
                } else {
                    assert(out[k] == s[s.len() - 1]);
                }
            }
        } else {
            assert(out == rest);
            assert forall|k: int|
                0 <= k < out.len() implies exists|m: int| 0 <= m < s.len() && #[trigger] out[k]
                    == s[m] by {
                let m = choose|m: int| 0 <= m < sub.len() && rest[k] == sub[m];
                assert(out[k] == s[m]);
            }
        }
    }
}

/// A log query keeps stored (ascending) order, and every line it yields is
/// a stored line.
pub proof fn lemma_logs_for_run_props(s: Seq<RunLog>, rid: Seq<char>)
    requires
        logs_sorted(s),
    ensures
        logs_sorted(logs_for_run(s, rid)),
        forall|k: int|
            0 <= k < logs_for_run(s, rid).len() ==> exists|m: int|
                0 <= m < s.len() && #[trigger] logs_for_run(s, rid)[k] == s[m],
    decreases s.len(),
{
    if s.len() > 0 {
        let sub = s.drop_last();
        assert(forall|i: int| 0 <= i < sub.len() ==> #[trigger] sub[i] == s[i]);
        lemma_logs_for_run_props(sub, rid);
        let rest = logs_for_run(sub, rid);
        let out = logs_for_run(s, rid);
        if s.last().run_id@ == rid {
            assert(out == rest.push(s.last()));
            assert forall|a: int, b: int|
                0 <= a < b < out.len() implies out[a].timestamp <= out[b].timestamp by {
                if b < out.len() - 1 {
                    assert(out[a] == rest[a] && out[b] == rest[b]);
                } else {
                    assert(out[a] == rest[a]);
                    let m = choose|m: int| 0 <= m < sub.len() && rest[a] == sub[m];
                    assert(s[m].timestamp <= s[s.len() - 1].timestamp);
                    assert(out[b] == s.last());
                }
            }
            assert forall|k: int|
                0 <= k < out.len() implies exists|m: int| 0 <= m < s.len() && #[trigger] out[k]
                    == s[m] by {
                if k < out.len() - 1 {
                    assert(out[k] == rest[k]);
                    let m = choose|m: int| 0 <= m < sub.len() && rest[k] == sub[m];
                    assert(out[k] == s[m]);
                } else {
                    assert(out[k] == s[s.len() - 1]);
                }
            }
        } else {
            assert(out == rest);
            assert forall|k: int|
                0 <= k < out.len() implies exists|m: int| 0 <= m < s.len() && #[trigger] out[k]
                    == s[m] by {
                let m = choose|m: int| 0 <= m < sub.len() && rest[k] == sub[m];
                assert(out[k] == s[m]);
            }
        }
    }
}

/// What deleting one run id leaves behind: order and uniqueness survive,
/// the deleted id is gone, every other id survives, and every kept row is a
/// stored row other than the deleted one.
pub proof fn lemma_remove_run_props(s: Seq<Run>, id: Seq<char>)
    requires
        runs_sorted(s),
        unique_run_ids(s),
    ensures
        runs_sorted(remove_run(s, id)),
        unique_run_ids(remove_run(s, id)),
        !has_run_id(remove_run(s, id), id),
        forall|x: Seq<char>|
            x != id && has_run_id(s, x) ==> #[trigger] has_run_id(remove_run(s, id), x),
        forall|k: int|
            0 <= k < remove_run(s, id).len() ==> exists|m: int|
                0 <= m < s.len() && #[trigger] remove_run(s, id)[k] == s[m],
    decreases s.len(),
{
    if s.len() > 0 {
        let sub = s.drop_last();
        assert(forall|i: int| 0 <= i < sub.len() ==> #[trigger] sub[i] == s[i]);
        lemma_remove_run_props(sub, id);
        let rest = remove_run(sub, id);
        let out = remove_run(s, id);
        if s.last().id@ != id {
            assert(out == rest.push(s.last()));
        } else {
            assert(out == rest);
        }
        assert forall|k: int|
            0 <= k < out.len() implies exists|m: int| 0 <= m < s.len() && #[trigger] out[k]
                == s[m] by {
            if k < rest.len() {
                assert(out[k] == rest[k]);
                let m = choose|m: int| 0 <= m < sub.len() && rest[k] == sub[m];
                assert(out[k] == s[m]);
            } else {
                assert(out[k] == s[s.len() - 1]);
            }
        }
        assert forall|a: int, b: int|
            0 <= a < b < out.len() implies out[a].timestamp <= out[b].timestamp by {
            if b < rest.len() {
                assert(out[a] == rest[a] && out[b] == rest[b]);
            } else {
                assert(out[a] == rest[a]);
                let m = choose|m: int| 0 <= m < sub.len() && rest[a] == sub[m];
                assert(s[m].timestamp <= s[s.len() - 1].timestamp);
            }
        }
        assert forall|a: int, b: int| 0 <= a < b < out.len() implies out[a].id@ != out[b].id@ by {
            if b < rest.len() {
                assert(out[a] == rest[a] && out[b] == rest[b]);
            } else {
                assert(out[a] == rest[a]);
                let m = choose|m: int| 0 <= m < sub.len() && rest[a] == sub[m];
                assert(s[m].id@ != s[s.len() - 1].id@);
            }
        }
        assert(!has_run_id(out, id)) by {
            if has_run_id(out, id) {
                let k = choose|k: int| 0 <= k < out.len() && out[k].id@ == id;
                if k < rest.len() {
                    assert(rest[k].id@ == id);
                    assert(has_run_id(rest, id));
                }
            }
        }
        assert forall|x: Seq<char>|
            x != id && has_run_id(s, x) implies #[trigger] has_run_id(remove_run(s, id), x) by {
            let m = choose|m: int| 0 <= m < s.len() && s[m].id@ == x;
            if m == s.len() - 1 {
                assert(out[out.len() - 1] == s.last());
            } else {
                assert(sub[m].id@ == x);
                assert(has_run_id(sub, x));
                assert(has_run_id(rest, x));
                let k = choose|k: int| 0 <= k < rest.len() && rest[k].id@ == x;
                assert(out[k].id@ == x);
            }
        }
    }
}

/// What the cascade of a delete leaves in the log table: order and
/// uniqueness survive, no kept line names the deleted run, and every kept
/// line is a stored line.
pub proof fn lemma_remove_logs_props(s: Seq<RunLog>, rid: Seq<char>)
    requires
        logs_sorted(s),
        unique_log_ids(s),
    ensures
        logs_sorted(remove_logs_for(s, rid)),
        unique_log_ids(remove_logs_for(s, rid)),
        forall|k: int|
            0 <= k < remove_logs_for(s, rid).len() ==> (#[trigger] remove_logs_for(s, rid)[k]).run_id@
                != rid,
        forall|k: int|
            0 <= k < remove_logs_for(s, rid).len() ==> exists|m: int|
                0 <= m < s.len() && #[trigger] remove_logs_for(s, rid)[k] == s[m],
    decreases s.len(),
{
    if s.len() > 0 {
        let sub = s.drop_last();
        assert(forall|i: int| 0 <= i < sub.len() ==> #[trigger] sub[i] == s[i]);
        lemma_remove_logs_props(sub, rid);
        let rest = remove_logs_for(sub, rid);
        let out = remove_logs_for(s, rid);
        if s.last().run_id@ != rid {
            assert(out == rest.push(s.last()));
        } else {
            assert(out == rest);
        }
        assert forall|k: int|
            0 <= k < out.len() implies exists|m: int| 0 <= m < s.len() && #[trigger] out[k]
                == s[m] by {
            if k < rest.len() {
                assert(out[k] == rest[k]);
                let m = choose|m: int| 0 <= m < sub.len() && rest[k] == sub[m];
                assert(out[k] == s[m]);
            } else {
                assert(out[k] == s[s.len() - 1]);
            }
        }
        assert forall|a: int, b: int|
            0 <= a < b < out.len() implies out[a].timestamp <= out[b].timestamp by {
            if b < rest.len() {
                assert(out[a] == rest[a] && out[b] == rest[b]);
            } else {
                assert(out[a] == rest[a]);
                let m = choose|m: int| 0 <= m < sub.len() && rest[a] == sub[m];
                assert(s[m].timestamp <= s[s.len() - 1].timestamp);
            }
        }
        assert forall|a: int, b: int| 0 <= a < b < out.len() implies out[a].id != out[b].id by {
            if b < rest.len() {
                assert(out[a] == rest[a] && out[b] == rest[b]);
            } else {
                assert(out[a] == rest[a]);
                let m = choose|m: int| 0 <= m < sub.len() && rest[a] == sub[m];
                assert(s[m].id != s[s.len() - 1].id);
            }
        }
    }
}

/// A log query over a table in which no line names the run comes back
/// empty.
pub proof fn lemma_logs_for_run_empty(s: Seq<RunLog>, rid: Seq<char>)
    requires
        forall|k: int| 0 <= k < s.len() ==> (#[trigger] s[k]).run_id@ != rid,
    ensures
        logs_for_run(s, rid).len() == 0,
    decreases s.len(),
{
    if s.len() > 0 {
        let sub = s.drop_last();
        assert(forall|i: int| 0 <= i < sub.len() ==> #[trigger] sub[i] == s[i]);
        lemma_logs_for_run_empty(sub, rid);
        assert(s[s.len() - 1].run_id@ != rid);
    }
}

// ---------------------------------------------------------------------------
// Lemmas about carrying legacy rows across
// ---------------------------------------------------------------------------

/// A row-by-row upgrade of an ordered, uniquely keyed legacy table yields
/// an ordered, uniquely keyed run table.
pub proof fn lemma_upgraded_rows_wf(pre: Seq<LegacyRun>, post: Seq<Run>)
    requires
        legacy_sorted(pre),
        unique_legacy_ids(pre),
        upgraded_rows(pre, post),
    ensures
        runs_sorted(post),
        unique_run_ids(post),
{
    reveal(upgrade_of);
    assert forall|a: int, b: int|
        0 <= a < b < post.len() implies post[a].timestamp <= post[b].timestamp by {
        assert(upgrade_of(pre[a], post[a]));
        assert(upgrade_of(pre[b], post[b]));
    }
    assert forall|a: int, b: int| 0 <= a < b < post.len() implies post[a].id@ != post[b].id@ by {
        assert(upgrade_of(pre[a], post[a]));
        assert(upgrade_of(pre[b], post[b]));
    }
}

// ---------------------------------------------------------------------------
// Lemmas about inserting a run
// ---------------------------------------------------------------------------

/// Inserting a fresh id keeps run ids unique, and afterwards an id is
/// present exactly when it was present before or is the inserted one.
pub proof fn lemma_insert_run(s: Seq<Run>, k: int, r: Run)
    requires
        0 <= k <= s.len(),
        unique_run_ids(s),
        !has_run_id(s, r.id@),
    ensures
        unique_run_ids(s.insert(k, r)),
        forall|x: Seq<char>| #[trigger] has_run_id(s.insert(k, r), x) <==> (has_run_id(s, x)
            || r.id@ == x),
        s.insert(k, r)[k] == r,
{
    s.insert_ensures(k, r);
    let out = s.insert(k, r);
    assert(forall|m: int| 0 <= m < s.len() ==> #[trigger] s[m].id@ != r.id@);
    assert forall|i: int, j: int| 0 <= i < j < out.len() implies out[i].id@ != out[j].id@ by {
        if i < k {
            assert(out[i] == s[i]);
        } else if i > k {
            assert(out[i] == s[i - 1]);
        }
        if j < k {
            assert(out[j] == s[j]);
        } else if j > k {
            assert(out[j] == s[j - 1]);
        }
    }
    assert forall|x: Seq<char>| #[trigger] has_run_id(out, x) <==> (has_run_id(s, x) || r.id@
        == x) by {
        if has_run_id(out, x) {
            let i = choose|i: int| 0 <= i < out.len() && out[i].id@ == x;
            if i < k {
                assert(s[i].id@ == x);
            } else if i > k {
                assert(s[i - 1].id@ == x);
            }
        }
        if has_run_id(s, x) {
            let i = choose|i: int| 0 <= i < s.len() && s[i].id@ == x;
            if i < k {
                assert(out[i].id@ == x);
            } else {
                assert(out[i + 1].id@ == x);
            }
        }
        if r.id@ == x {
            assert(out[k].id@ == x);
        }
    }
}

} // verus!
