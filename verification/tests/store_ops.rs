use run_store::errors::StoreError;
use run_store::records::{Run, RunLog};
use run_store::store::{Store, CURRENT_VERSION};

fn run(id: &str, session: &str, ts: i64) -> Run {
    Run {
        id: id.to_owned(),
        session_id: session.to_owned(),
        timestamp: ts,
        agent: "a".to_owned(),
        model: "m".to_owned(),
        input: "hi".to_owned(),
        output: "".to_owned(),
        tools_used: "[]".to_owned(),
        exit_status: 0,
    }
}

fn log(run_id: &str, line: &str, ts: i64) -> RunLog {
    RunLog {
        id: 0,
        run_id: run_id.to_owned(),
        log_line: line.to_owned(),
        log_type: "info".to_owned(),
        timestamp: ts,
    }
}

fn migrated() -> Store {
    let mut s = Store::fresh();
    s.migrate();
    s
}

#[test]
fn add_then_get_returns_inserted_run() {
    let mut s = migrated();
    let r = run("r1", "s1", 100);
    assert_eq!(s.add_run(r.clone()), Ok(()));
    assert_eq!(s.get_run_by_id("r1".to_owned()), Some(r));
}

#[test]
fn duplicate_id_is_refused_and_row_kept() {
    let mut s = migrated();
    let first = run("r1", "s1", 100);
    assert_eq!(s.add_run(first.clone()), Ok(()));
    let mut intruder = run("r1", "other", 999);
    intruder.input = "changed".to_owned();
    assert_eq!(s.add_run(intruder), Err(StoreError::DuplicateKey));
    assert_eq!(s.get_run_by_id("r1".to_owned()), Some(first));
}

#[test]
fn get_runs_respects_limit_and_recency_order() {
    let mut s = migrated();
    assert_eq!(s.add_run(run("r1", "s1", 100)), Ok(()));
    assert_eq!(s.add_run(run("r2", "s1", 300)), Ok(()));
    assert_eq!(s.add_run(run("r3", "s1", 200)), Ok(()));
    let top2 = s.get_runs(2);
    assert_eq!(top2.len(), 2);
    assert_eq!(top2[0].id, "r2");
    assert_eq!(top2[1].id, "r3");
    let all = s.get_runs(10);
    assert_eq!(all.len(), 3);
    assert!(all.windows(2).all(|w| w[0].timestamp >= w[1].timestamp));
}

#[test]
fn get_runs_zero_limit_is_empty() {
    let mut s = migrated();
    assert_eq!(s.add_run(run("r1", "s1", 100)), Ok(()));
    assert!(s.get_runs(0).is_empty());
    assert!(s.get_runs(-5).is_empty());
}

#[test]
fn session_query_filters_and_sorts_ascending() {
    let mut s = migrated();
    assert_eq!(s.add_run(run("r1", "s1", 300)), Ok(()));
    assert_eq!(s.add_run(run("r2", "s2", 100)), Ok(()));
    assert_eq!(s.add_run(run("r3", "s1", 200)), Ok(()));
    let replay = s.get_runs_by_session("s1".to_owned());
    assert_eq!(replay.len(), 2);
    assert_eq!(replay[0].id, "r3");
    assert_eq!(replay[1].id, "r1");
    assert!(s.get_runs_by_session("nobody".to_owned()).is_empty());
}

#[test]
fn lookup_of_absent_id_is_none_not_error() {
    let s = migrated();
    assert_eq!(s.get_run_by_id("ghost".to_owned()), None);
}

#[test]
fn delete_cascades_to_logs() {
    let mut s = migrated();
    assert_eq!(s.add_run(run("r1", "s1", 100)), Ok(()));
    assert_eq!(s.add_run(run("r2", "s1", 150)), Ok(()));
    assert!(s.add_run_log(log("r1", "one", 101)).is_ok());
    assert!(s.add_run_log(log("r1", "two", 102)).is_ok());
    assert!(s.add_run_log(log("r2", "keep", 151)).is_ok());
    s.delete_run("r1".to_owned());
    assert_eq!(s.get_run_by_id("r1".to_owned()), None);
    assert!(s.get_run_logs("r1".to_owned()).is_empty());
    assert_eq!(s.get_run_logs("r2".to_owned()).len(), 1);
    assert_eq!(s.get_run_by_id("r2".to_owned()), Some(run("r2", "s1", 150)));
}

#[test]
fn deleting_absent_id_changes_nothing() {
    let mut s = migrated();
    assert_eq!(s.add_run(run("r1", "s1", 100)), Ok(()));
    s.delete_run("ghost".to_owned());
    assert_eq!(s.get_runs(10).len(), 1);
}

#[test]
fn orphan_log_is_refused() {
    let mut s = migrated();
    assert_eq!(
        s.add_run_log(log("nobody", "line", 1)),
        Err(StoreError::ReferentialViolation)
    );
    assert!(s.get_run_logs("nobody".to_owned()).is_empty());
}

#[test]
fn log_ids_are_assigned_monotonically() {
    let mut s = migrated();
    assert_eq!(s.add_run(run("r1", "s1", 100)), Ok(()));
    let a = s.add_run_log(log("r1", "one", 101)).unwrap();
    let b = s.add_run_log(log("r1", "two", 102)).unwrap();
    assert_eq!(a, 1);
    assert_eq!(b, 2);
    let lines = s.get_run_logs("r1".to_owned());
    assert_eq!(lines.len(), 2);
    assert_eq!(lines[0].log_line, "one");
    assert_eq!(lines[1].log_line, "two");
}

#[test]
fn logs_sort_by_timestamp_not_insertion() {
    let mut s = migrated();
    assert_eq!(s.add_run(run("r1", "s1", 100)), Ok(()));
    s.add_run_log(log("r1", "late", 300)).unwrap();
    s.add_run_log(log("r1", "early", 101)).unwrap();
    let lines = s.get_run_logs("r1".to_owned());
    assert_eq!(lines.len(), 2);
    assert_eq!(lines[0].log_line, "early");
    assert_eq!(lines[1].log_line, "late");
}

#[test]
fn exhausted_id_space_reports_storage_error() {
    let mut s = migrated();
    assert_eq!(s.add_run(run("r1", "s1", 100)), Ok(()));
    s.next_log_id = i64::MAX;
    assert_eq!(s.add_run_log(log("r1", "line", 101)), Err(StoreError::Storage));
    assert!(s.get_run_logs("r1".to_owned()).is_empty());
}

#[test]
fn distinct_adds_all_succeed_and_are_visible() {
    let mut s = migrated();
    for i in 0..20i64 {
        assert_eq!(s.add_run(run(&format!("r{}", i), "s", 1000 - i)), Ok(()));
    }
    let all = s.get_runs(100);
    assert_eq!(all.len(), 20);
    for i in 0..20i64 {
        let id = format!("r{}", i);
        assert!(all.iter().any(|r| r.id == id));
        assert!(s.get_run_by_id(id).is_some());
    }
}

#[test]
fn example_scenario_runs_logs_and_cascade() {
    let mut s = migrated();
    let r1 = Run {
        id: "r1".to_owned(),
        session_id: "s1".to_owned(),
        timestamp: 100,
        agent: "a".to_owned(),
        model: "m".to_owned(),
        input: "hi".to_owned(),
        output: "".to_owned(),
        tools_used: "[]".to_owned(),
        exit_status: 0,
    };
    assert_eq!(s.add_run(r1), Ok(()));
    let l = RunLog {
        id: 0,
        run_id: "r1".to_owned(),
        log_line: "started".to_owned(),
        log_type: "info".to_owned(),
        timestamp: 101,
    };
    assert!(s.add_run_log(l).is_ok());
    let lines = s.get_run_logs("r1".to_owned());
    assert_eq!(lines.len(), 1);
    assert_eq!(lines[0].log_line, "started");
    s.delete_run("r1".to_owned());
    assert!(s.get_run_logs("r1".to_owned()).is_empty());
}

#[test]
fn error_text_is_stable() {
    assert_eq!(StoreError::DuplicateKey.describe(), "duplicate key");
    assert_eq!(
        StoreError::ReferentialViolation.describe(),
        "referential integrity violation"
    );
    assert_eq!(StoreError::Storage.describe(), "storage exhausted");
    let _ = CURRENT_VERSION;
}
