//! The record store: a persisted schema version, the run and log tables,
//! and the operations the host shell invokes. The store is the logical
//! content of the single local file the shell keeps; the host owns the
//! file handle and the lock and calls in here one operation at a time.

use vstd::prelude::*;

use crate::errors::StoreError;
use crate::model::{
    find_run, has_run_id, lemma_find_run_absent, lemma_find_run_hit, lemma_insert_run,
    lemma_logs_for_run_props, lemma_remove_logs_props, lemma_remove_run_props,
    lemma_runs_in_session_props, lemma_upgraded_rows_wf, legacy_sorted, logs_for_run,
    logs_sorted, recent_count, recent_runs, remove_logs_for, remove_run, runs_in_session,
    runs_sorted, runs_sorted_desc, unique_legacy_ids, unique_log_ids, unique_run_ids, upgrade_of,
    upgraded_rows,
};
use crate::records::{LegacyRun, Run, RunLog};

verus! {

/// The schema version every migration path ends at.
pub const CURRENT_VERSION: i32 = 2;

/// The logical content of the store file. `version` is the persisted
/// schema-version marker (0 when none was ever recorded); `legacy_runs` is
/// the first-generation run table, kept additively and never dropped;
/// `runs` and `logs` are the current tables, which exist only once
/// migration has reached the current version.
pub struct Store {
    pub version: i32,
    pub tables_created: bool,
    pub legacy_runs: Vec<LegacyRun>,
    pub runs: Vec<Run>,
    pub logs: Vec<RunLog>,
    pub next_log_id: i64,
}

impl Store {
    /// The store's structural invariant: the version marker is in range and
    /// agrees with which tables exist; run ids are unique; both tables keep
    /// ascending timestamp order; log ids are unique, store-assigned below
    /// `next_log_id`, and every log line names a stored run.
    pub open spec fn wf(self) -> bool {
        &&& 0 <= self.version <= CURRENT_VERSION
        &&& (self.tables_created <==> self.version == CURRENT_VERSION)
        &&& (!self.tables_created ==> self.runs@.len() == 0 && self.logs@.len() == 0)
        &&& runs_sorted(self.runs@)
        &&& unique_run_ids(self.runs@)
        &&& logs_sorted(self.logs@)
        &&& unique_log_ids(self.logs@)
        &&& self.next_log_id >= 1
        &&& (forall|i: int|
            0 <= i < self.logs@.len() ==> 1 <= (#[trigger] self.logs@[i]).id < self.next_log_id)
        &&& (forall|i: int|
            0 <= i < self.logs@.len() ==> has_run_id(
                self.runs@,
                (#[trigger] self.logs@[i]).run_id@,
            ))
        &&& unique_legacy_ids(self.legacy_runs@)
        &&& legacy_sorted(self.legacy_runs@)
    }

    /// Migration has completed: the store may serve record operations.
    pub open spec fn ready(self) -> bool {
        self.version == CURRENT_VERSION && self.tables_created
    }

    /// A store whose file never existed: no version marker, no tables.
    pub fn fresh() -> (r: Store)
        ensures
            r.wf(),
            r.version == 0,
            !r.tables_created,
            r.legacy_runs@.len() == 0,
            r.runs@.len() == 0,
            r.logs@.len() == 0,
    {
        Store {
            version: 0,
            tables_created: false,
            legacy_runs: Vec::new(),
            runs: Vec::new(),
            logs: Vec::new(),
            next_log_id: 1,
        }
    }

    /// A store as a first-generation file left it: version marker 1, the
    /// legacy run table populated, the current tables not yet created.
    /// Legacy rows are keyed by id, so their ids are unique, and they
    /// arrive in the stored order every table here keeps: ascending by
    /// timestamp.
    pub fn open_version1(legacy: Vec<LegacyRun>) -> (r: Store)
        requires
            unique_legacy_ids(legacy@),
            legacy_sorted(legacy@),
        ensures
            r.wf(),
            r.version == 1,
            !r.tables_created,
            r.legacy_runs@ == legacy@,
            r.runs@.len() == 0,
            r.logs@.len() == 0,
    {
        Store {
            version: 1,
            tables_created: false,
            legacy_runs: legacy,
            runs: Vec::new(),
            logs: Vec::new(),
            next_log_id: 1,
        }
    }

    /// The persisted schema version; 0 when none was ever recorded.
    pub fn version(&self) -> (r: i32)
        ensures
            r == self.version,
    {
        self.version
    }

    /// Persist a new schema version, overwriting any prior marker.
    fn set_version(&mut self, v: i32)
        ensures
            final(self).version == v,
            final(self).tables_created == old(self).tables_created,
            final(self).legacy_runs@ == old(self).legacy_runs@,
            final(self).runs@ == old(self).runs@,
            final(self).logs@ == old(self).logs@,
            final(self).next_log_id == old(self).next_log_id,
    {
        self.version = v;
    }

    /// Apply every pending migration step in ascending order, persisting
    /// the version after each step. Re-running at the current version is a
    /// no-op. The step to the current version creates the run and log
    /// tables and carries every legacy row across in upgraded shape, so a
    /// partially migrated store loses nothing.
    #[verifier::loop_isolation(false)]
    pub fn migrate(&mut self)
        requires
            old(self).wf(),
        ensures
            final(self).wf(),
            final(self).ready(),
            final(self).legacy_runs@ == old(self).legacy_runs@,
            old(self).version == CURRENT_VERSION ==> *final(self) == *old(self),
            old(self).version < CURRENT_VERSION ==> {
                &&& upgraded_rows(old(self).legacy_runs@, final(self).runs@)
                &&& final(self).logs@.len() == 0
                &&& final(self).next_log_id == 1
            },
    {
        if self.version < 1 {
            // first-generation step: the legacy table and its indexes;
            // nothing to carry, the marker alone advances
            self.set_version(1);
        }
        if self.version < CURRENT_VERSION {
            // current step: create the session-aware tables and carry the
            // legacy rows across with the declared defaults
            let ghost legacy = self.legacy_runs@;
            let mut migrated: Vec<Run> = Vec::new();
            let mut i: usize = 0;
            while i < self.legacy_runs.len()
                invariant
                    i <= self.legacy_runs@.len(),
                    self.legacy_runs@ == legacy,
                    migrated@.len() == i,
                    forall|k: int| 0 <= k < i ==> upgrade_of(#[trigger] legacy[k], migrated@[k]),
                decreases self.legacy_runs@.len() - i,
            {
                let l = &self.legacy_runs[i];
                let up = Run {
                    id: l.id.clone(),
                    session_id: String::new(),
                    timestamp: l.timestamp,
                    agent: l.agent.clone(),
                    model: String::new(),
                    input: l.input.clone(),
                    output: l.output.clone(),
                    tools_used: "[]".to_owned(),
                    exit_status: 0,
                };
                assert(upgrade_of(legacy[i as int], up)) by {
                    reveal(upgrade_of);
                }
                migrated.push(up);
                i += 1;
            }
            proof {
                lemma_upgraded_rows_wf(legacy, migrated@);
            }
            self.runs = migrated;
            self.logs = Vec::new();
            self.next_log_id = 1;
            self.tables_created = true;
            self.set_version(CURRENT_VERSION);
        }
    }

    /// Insert one run. Refused with `DuplicateKey`, and the store left
    /// unchanged, exactly when the id is already present.
    #[verifier::loop_isolation(false)]
    pub fn add_run(&mut self, run: Run) -> (r: Result<(), StoreError>)
        requires
            old(self).wf(),
            old(self).ready(),
        ensures
            final(self).wf(),
            final(self).ready(),
            final(self).legacy_runs@ == old(self).legacy_runs@,
            final(self).logs@ == old(self).logs@,
            final(self).next_log_id == old(self).next_log_id,
            has_run_id(old(self).runs@, run.id@) ==> r == Err::<(), StoreError>(
                StoreError::DuplicateKey,
            ) && *final(self) == *old(self),
            !has_run_id(old(self).runs@, run.id@) ==> r == Ok::<(), StoreError>(()) && (exists|
                k: int,
            |
                0 <= k <= old(self).runs@.len() && final(self).runs@ == old(self).runs@.insert(
                    k,
                    run,
                )),
    {
        let mut i: usize = 0;
        while i < self.runs.len()
            invariant
                i <= self.runs@.len(),
                forall|k: int| 0 <= k < i ==> (#[trigger] self.runs@[k]).id@ != run.id@,
            decreases self.runs@.len() - i,
        {
            if self.runs[i].id == run.id {
                return Err(StoreError::DuplicateKey);
            }
            i += 1;
        }
        assert(!has_run_id(self.runs@, run.id@));
        let ghost before = self.runs@;
        let pos = insert_run_sorted(&mut self.runs, run);
        proof {
            lemma_insert_run(before, pos as int, run);
            before.insert_ensures(pos as int, run);
            assert forall|j: int|
                0 <= j < self.logs@.len() implies has_run_id(
                self.runs@,
                (#[trigger] self.logs@[j]).run_id@,
            ) by {
                assert(has_run_id(before, self.logs@[j].run_id@));
            }
        }
        Ok(())
    }

    /// Up to `limit` most recent runs, newest first. A non-positive limit
    /// yields nothing.
    #[verifier::loop_isolation(false)]
    pub fn get_runs(&self, limit: i64) -> (r: Vec<Run>)
        requires
            self.wf(),
            self.ready(),
        ensures
            r@ == recent_runs(self.runs@, limit as int),
            r@.len() == recent_count(self.runs@.len() as int, limit as int),
            forall|j: int| 0 <= j < r@.len() ==> r@[j] == self.runs@[self.runs@.len() - 1 - j],
            runs_sorted_desc(r@),
    {
        let n = self.runs.len();
        let k: usize = if limit <= 0 {
            0
        } else if limit as u64 >= n as u64 {
            n
        } else {
            limit as usize
        };
        assert(k as int == recent_count(self.runs@.len() as int, limit as int));
        let mut out: Vec<Run> = Vec::new();
        let mut j: usize = 0;
        while j < k
            invariant
                k <= n,
                n == self.runs@.len(),
                j <= k,
                out@.len() == j,
                forall|m: int| 0 <= m < j ==> out@[m] == self.runs@[n - 1 - m],
            decreases k - j,
        {
            let x = self.runs[n - 1 - j].clone();
            out.push(x);
            j += 1;
        }
        proof {
            assert(out@ =~= recent_runs(self.runs@, limit as int));
            assert forall|a: int, b: int|
                0 <= a < b < out@.len() implies out@[a].timestamp >= out@[b].timestamp by {
                assert(out@[a] == self.runs@[n - 1 - a]);
                assert(out@[b] == self.runs@[n - 1 - b]);
                assert(self.runs@[n - 1 - b].timestamp <= self.runs@[n - 1 - a].timestamp);
            }
        }
        out
    }

    /// The run carrying this id, or absent; absence is not an error.
    #[verifier::loop_isolation(false)]
    pub fn get_run_by_id(&self, run_id: String) -> (r: Option<Run>)
        requires
            self.wf(),
            self.ready(),
        ensures
            r == find_run(self.runs@, run_id@),
            r is Some <==> has_run_id(self.runs@, run_id@),
    {
        let mut i: usize = 0;
        while i < self.runs.len()
            invariant
                i <= self.runs@.len(),
                forall|k: int| 0 <= k < i ==> (#[trigger] self.runs@[k]).id@ != run_id@,
            decreases self.runs@.len() - i,
        {
            if self.runs[i].id == run_id {
                proof {
                    lemma_find_run_hit(self.runs@, run_id@, i as int);
                }
                return Some(self.runs[i].clone());
            }
            i += 1;
        }
        proof {
            assert(!has_run_id(self.runs@, run_id@));
            lemma_find_run_absent(self.runs@, run_id@);
        }
        None
    }

    /// Every run of one session, in chronological (ascending) order — the
    /// replay order of a conversation, deliberately opposite to `get_runs`.
    #[verifier::loop_isolation(false)]
    pub fn get_runs_by_session(&self, session_id: String) -> (r: Vec<Run>)
        requires
            self.wf(),
            self.ready(),
        ensures
            r@ == runs_in_session(self.runs@, session_id@),
            runs_sorted(r@),
    {
        let mut out: Vec<Run> = Vec::new();
        let mut i: usize = 0;
        while i < self.runs.len()
            invariant
                i <= self.runs@.len(),
                out@ == runs_in_session(self.runs@.take(i as int), session_id@),
            decreases self.runs@.len() - i,
        {
            proof {
                assert(self.runs@.take(i + 1).drop_last() =~= self.runs@.take(i as int));
                assert(self.runs@.take(i + 1).last() == self.runs@[i as int]);
            }
            if self.runs[i].session_id == session_id {
                out.push(self.runs[i].clone());
            }
            i += 1;
        }
        proof {
            assert(self.runs@.take(self.runs@.len() as int) =~= self.runs@);
            lemma_runs_in_session_props(self.runs@, session_id@);
        }
        out
    }

    /// Delete the run carrying this id together with every log line that
    /// names it, as one logical operation. Deleting an absent id succeeds
    /// and changes nothing.
    #[verifier::loop_isolation(false)]
    pub fn delete_run(&mut self, run_id: String)
        requires
            old(self).wf(),
            old(self).ready(),
        ensures
            final(self).wf(),
            final(self).ready(),
            final(self).legacy_runs@ == old(self).legacy_runs@,
            final(self).next_log_id == old(self).next_log_id,
            final(self).runs@ == remove_run(old(self).runs@, run_id@),
            final(self).logs@ == remove_logs_for(old(self).logs@, run_id@),
    {
        let mut kept_runs: Vec<Run> = Vec::new();
        let mut i: usize = 0;
        while i < self.runs.len()
            invariant
                i <= self.runs@.len(),
                kept_runs@ == remove_run(self.runs@.take(i as int), run_id@),
            decreases self.runs@.len() - i,
        {
            proof {
                assert(self.runs@.take(i + 1).drop_last() =~= self.runs@.take(i as int));
                assert(self.runs@.take(i + 1).last() == self.runs@[i as int]);
            }
            if !(self.runs[i].id == run_id) {
                kept_runs.push(self.runs[i].clone());
            }
            i += 1;
        }
        let mut kept_logs: Vec<RunLog> = Vec::new();
        let mut j: usize = 0;
        while j < self.logs.len()
            invariant
                j <= self.logs@.len(),
                kept_logs@ == remove_logs_for(self.logs@.take(j as int), run_id@),
            decreases self.logs@.len() - j,
        {
            proof {
                assert(self.logs@.take(j + 1).drop_last() =~= self.logs@.take(j as int));
                assert(self.logs@.take(j + 1).last() == self.logs@[j as int]);
            }
            if !(self.logs[j].run_id == run_id) {
                kept_logs.push(self.logs[j].clone());
            }
            j += 1;
        }
        proof {
            assert(self.runs@.take(self.runs@.len() as int) =~= self.runs@);
            assert(self.logs@.take(self.logs@.len() as int) =~= self.logs@);
            lemma_remove_run_props(self.runs@, run_id@);
            lemma_remove_logs_props(self.logs@, run_id@);
        }
        let ghost old_runs = self.runs@;
        let ghost old_logs = self.logs@;
        self.runs = kept_runs;
        self.logs = kept_logs;
        proof {
            assert forall|m: int|
                0 <= m < self.logs@.len() implies 1 <= (#[trigger] self.logs@[m]).id
                < self.next_log_id by {
                let w = choose|w: int| 0 <= w < old_logs.len() && self.logs@[m] == old_logs[w];
            }
            assert forall|m: int|
                0 <= m < self.logs@.len() implies has_run_id(
                self.runs@,
                (#[trigger] self.logs@[m]).run_id@,
            ) by {
                let w = choose|w: int| 0 <= w < old_logs.len() && self.logs@[m] == old_logs[w];
                assert(has_run_id(old_runs, old_logs[w].run_id@));
                assert(self.logs@[m].run_id@ != run_id@);
            }
        }
    }

    /// Insert one log line; the store assigns and returns its id. Refused
    /// with `ReferentialViolation` when no stored run carries `run_id`, and
    /// with `Storage` when the assigned-id space is spent; either way the
    /// store is left unchanged. The id field of the argument is ignored.
    #[verifier::loop_isolation(false)]
    pub fn add_run_log(&mut self, log: RunLog) -> (r: Result<i64, StoreError>)
        requires
            old(self).wf(),
            old(self).ready(),
        ensures
            final(self).wf(),
            final(self).ready(),
            final(self).legacy_runs@ == old(self).legacy_runs@,
            final(self).runs@ == old(self).runs@,
            !has_run_id(old(self).runs@, log.run_id@) ==> r == Err::<i64, StoreError>(
                StoreError::ReferentialViolation,
            ) && *final(self) == *old(self),
            has_run_id(old(self).runs@, log.run_id@) && old(self).next_log_id == i64::MAX ==> r
                == Err::<i64, StoreError>(StoreError::Storage) && *final(self) == *old(self),
            has_run_id(old(self).runs@, log.run_id@) && old(self).next_log_id < i64::MAX ==> r
                == Ok::<i64, StoreError>(old(self).next_log_id) && final(self).next_log_id == old(
                self,
            ).next_log_id + 1 && (exists|k: int|
                0 <= k <= old(self).logs@.len() && final(self).logs@ == old(self).logs@.insert(
                    k,
                    (RunLog {
                        id: old(self).next_log_id,
                        run_id: log.run_id,
                        log_line: log.log_line,
                        log_type: log.log_type,
                        timestamp: log.timestamp,
                    }),
                )),
    {
        let mut i: usize = 0;
        let mut found = false;
        while i < self.runs.len()
            invariant
                i <= self.runs@.len(),
                found ==> has_run_id(self.runs@, log.run_id@),
                !found ==> forall|k: int|
                    0 <= k < i ==> (#[trigger] self.runs@[k]).id@ != log.run_id@,
            decreases self.runs@.len() - i,
        {
            if self.runs[i].id == log.run_id {
                found = true;
                break ;
            }
            i += 1;
        }
        if !found {
            assert(!has_run_id(self.runs@, log.run_id@));
            return Err(StoreError::ReferentialViolation);
        }
        if self.next_log_id == i64::MAX {
            return Err(StoreError::Storage);
        }
        let assigned = RunLog {
            id: self.next_log_id,
            run_id: log.run_id,
            log_line: log.log_line,
            log_type: log.log_type,
            timestamp: log.timestamp,
        };
        let ghost before = self.logs@;
        let pos = insert_log_sorted(&mut self.logs, assigned);
        proof {
            before.insert_ensures(pos as int, assigned);
        }
        let id = self.next_log_id;
        self.next_log_id = self.next_log_id + 1;
        proof {
            assert forall|a: int, b: int|
                0 <= a < b < self.logs@.len() implies self.logs@[a].id != self.logs@[b].id by {
                if a < pos {
                    assert(self.logs@[a] == before[a]);
                } else if a > pos {
                    assert(self.logs@[a] == before[a - 1]);
                }
                if b < pos {
                    assert(self.logs@[b] == before[b]);
                } else if b > pos {
                    assert(self.logs@[b] == before[b - 1]);
                }
            }
            assert forall|m: int|
                0 <= m < self.logs@.len() implies 1 <= (#[trigger] self.logs@[m]).id
                < self.next_log_id by {
                if m < pos {
                    assert(self.logs@[m] == before[m]);
                } else if m > pos {
                    assert(self.logs@[m] == before[m - 1]);
                }
            }
            assert forall|m: int|
                0 <= m < self.logs@.len() implies has_run_id(
                self.runs@,
                (#[trigger] self.logs@[m]).run_id@,
            ) by {
                if m < pos {
                    assert(self.logs@[m] == before[m]);
                } else if m > pos {
                    assert(self.logs@[m] == before[m - 1]);
                } else {
                    assert(self.logs@[m] == assigned);
                }
            }
        }
        Ok(id)
    }

    /// Every log line of one run, in ascending timestamp order; empty when
    /// the run has no lines or does not exist.
    #[verifier::loop_isolation(false)]
    pub fn get_run_logs(&self, run_id: String) -> (r: Vec<RunLog>)
        requires
            self.wf(),
            self.ready(),
        ensures
            r@ == logs_for_run(self.logs@, run_id@),
            logs_sorted(r@),
    {
        let mut out: Vec<RunLog> = Vec::new();
        let mut i: usize = 0;
        while i < self.logs.len()
            invariant
                i <= self.logs@.len(),
                out@ == logs_for_run(self.logs@.take(i as int), run_id@),
            decreases self.logs@.len() - i,
        {
            proof {
                assert(self.logs@.take(i + 1).drop_last() =~= self.logs@.take(i as int));
                assert(self.logs@.take(i + 1).last() == self.logs@[i as int]);
            }
            if self.logs[i].run_id == run_id {
                out.push(self.logs[i].clone());
            }
            i += 1;
        }
        proof {
            assert(self.logs@.take(self.logs@.len() as int) =~= self.logs@);
            lemma_logs_for_run_props(self.logs@, run_id@);
        }
        out
    }
}

/// Place one run into a timestamp-ordered table, keeping the order; rows
/// with equal timestamps keep their insertion order. Returns the position.
#[verifier::loop_isolation(false)]
fn insert_run_sorted(v: &mut Vec<Run>, run: Run) -> (pos: usize)
    requires
        runs_sorted(old(v)@),
    ensures
        0 <= pos <= old(v)@.len(),
        final(v)@ == old(v)@.insert(pos as int, run),
        runs_sorted(final(v)@),
{
    let mut i: usize = 0;
    while i < v.len() && v[i].timestamp <= run.timestamp
        invariant
            i <= v@.len(),
            v@ == old(v)@,
            forall|k: int| 0 <= k < i ==> (#[trigger] v@[k]).timestamp <= run.timestamp,
        decreases v@.len() - i,
    {
        i += 1;
    }
    let ghost before = v@;
    v.insert(i, run);
    proof {
        before.insert_ensures(i as int, run);
        assert forall|a: int, b: int|
            0 <= a < b < v@.len() implies v@[a].timestamp <= v@[b].timestamp by {
        }
    }
    i
}

/// Place one log line into a timestamp-ordered table, keeping the order.
/// Returns the position.
#[verifier::loop_isolation(false)]
fn insert_log_sorted(v: &mut Vec<RunLog>, log: RunLog) -> (pos: usize)
    requires
        logs_sorted(old(v)@),
    ensures
        0 <= pos <= old(v)@.len(),
        final(v)@ == old(v)@.insert(pos as int, log),
        logs_sorted(final(v)@),
{
    let mut i: usize = 0;
    while i < v.len() && v[i].timestamp <= log.timestamp
        invariant
            i <= v@.len(),
            v@ == old(v)@,
            forall|k: int| 0 <= k < i ==> (#[trigger] v@[k]).timestamp <= log.timestamp,
        decreases v@.len() - i,
    {
        i += 1;
    }
    let ghost before = v@;
    v.insert(i, log);
    proof {
        before.insert_ensures(i as int, log);
        assert forall|a: int, b: int|
            0 <= a < b < v@.len() implies v@[a].timestamp <= v@[b].timestamp by {
        }
    }
    i
}

} // verus!
