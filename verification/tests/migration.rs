use run_store::records::LegacyRun;
use run_store::store::{Store, CURRENT_VERSION};

fn legacy(id: &str, ts: i64) -> LegacyRun {
    LegacyRun {
        id: id.to_owned(),
        timestamp: ts,
        agent: "old-agent".to_owned(),
        input: "old prompt".to_owned(),
        output: "old answer".to_owned(),
    }
}

#[test]
fn fresh_store_migrates_to_current_with_empty_tables() {
    let mut s = Store::fresh();
    assert_eq!(s.version(), 0);
    s.migrate();
    assert_eq!(s.version(), CURRENT_VERSION);
    assert!(s.get_runs(10).is_empty());
    assert!(s.get_run_logs("r1".to_owned()).is_empty());
}

#[test]
fn migration_is_idempotent_at_current_version() {
    let mut s = Store::fresh();
    s.migrate();
    assert_eq!(s.add_run(run_stub("r1", 5)), Ok(()));
    s.migrate();
    assert_eq!(s.version(), CURRENT_VERSION);
    assert_eq!(s.get_runs(10).len(), 1);
}

#[test]
fn version1_store_migrates_without_data_loss() {
    let rows = vec![legacy("a", 10), legacy("b", 20)];
    let mut s = Store::open_version1(rows);
    assert_eq!(s.version(), 1);
    s.migrate();
    assert_eq!(s.version(), CURRENT_VERSION);
    let carried = s.get_runs(10);
    assert_eq!(carried.len(), 2);
    let b = s.get_run_by_id("b".to_owned()).unwrap();
    assert_eq!(b.session_id, "");
    assert_eq!(b.model, "");
    assert_eq!(b.tools_used, "[]");
    assert_eq!(b.exit_status, 0);
    assert_eq!(b.timestamp, 20);
    assert_eq!(b.agent, "old-agent");
    assert_eq!(b.input, "old prompt");
    assert_eq!(b.output, "old answer");
    // the legacy table itself is kept, additively
    assert_eq!(s.legacy_runs.len(), 2);
}

#[test]
fn carried_rows_live_beside_new_inserts() {
    let mut s = Store::open_version1(vec![legacy("a", 10)]);
    s.migrate();
    assert_eq!(s.add_run(run_stub("fresh", 50)), Ok(()));
    let all = s.get_runs(10);
    assert_eq!(all.len(), 2);
    assert_eq!(all[0].id, "fresh");
    assert_eq!(all[1].id, "a");
}

fn run_stub(id: &str, ts: i64) -> run_store::records::Run {
    run_store::records::Run {
        id: id.to_owned(),
        session_id: "s".to_owned(),
        timestamp: ts,
        agent: "a".to_owned(),
        model: "m".to_owned(),
        input: "i".to_owned(),
        output: "o".to_owned(),
        tools_used: "[]".to_owned(),
        exit_status: 0,
    }
}
