use run_store::watch::WatchRegistry;

#[test]
fn watches_stack_without_dedup() {
    let mut w = WatchRegistry::new();
    assert_eq!(w.watch_count(), 0);
    w.watch("agents.json".to_owned());
    w.watch("agents.json".to_owned());
    w.watch("config.toml".to_owned());
    assert_eq!(w.watch_count(), 3);
}

#[test]
fn unwatch_tears_down_every_entry_for_a_path() {
    let mut w = WatchRegistry::new();
    w.watch("agents.json".to_owned());
    w.watch("config.toml".to_owned());
    w.watch("agents.json".to_owned());
    w.unwatch(&"agents.json".to_owned());
    assert_eq!(w.watch_count(), 1);
    w.unwatch(&"missing".to_owned());
    assert_eq!(w.watch_count(), 1);
}
