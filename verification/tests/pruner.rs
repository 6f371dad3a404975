use relay_admin::pruner::{
    default_prune_kinds, protected_kind, protected_kinds_in, PruneRun, PruneStep, PrunerConfig, PrunerStats, Span,
};

fn secs(s: u64) -> Span {
    Span { secs: s, nanos: 0 }
}

fn config(retention: u64, kinds: Vec<u16>) -> PrunerConfig {
    PrunerConfig::from_settings(secs(retention), None, Some(kinds))
}

#[test]
fn default_interval_is_clamped() {
    assert_eq!(PrunerConfig::from_settings(secs(0), None, None).interval, secs(60));
    assert_eq!(PrunerConfig::from_settings(secs(48 * 61), None, None).interval, secs(61));
    assert_eq!(PrunerConfig::from_settings(secs(30 * 86400), None, None).interval, secs(21600));
    let given = Span { secs: 5, nanos: 7 };
    assert_eq!(PrunerConfig::from_settings(secs(86400), Some(given), None).interval, given);
}

#[test]
fn default_kinds_are_chat_kinds() {
    assert_eq!(default_prune_kinds(), vec![9, 11, 12]);
    assert_eq!(PrunerConfig::from_settings(secs(1), None, None).kinds_as_u16(), vec![9, 11, 12]);
}

#[test]
fn protected_kinds_are_never_pruned() {
    let cfg = config(1, vec![9, 9000, 1, 39003, 9011, 39004, 8999]);
    assert_eq!(cfg.kinds, vec![9, 1, 39004, 8999]);
    assert_eq!(protected_kinds_in(&vec![9, 9000, 1, 39003, 9011]), vec![9000, 39003, 9011]);
    assert!(protected_kind(39000));
    assert!(!protected_kind(9012));
}

#[test]
fn first_run_waits_at_most_a_minute() {
    let short = PrunerConfig::from_settings(secs(1), Some(secs(10)), None);
    assert_eq!(short.first_delay(), secs(10));
    let long = PrunerConfig::from_settings(secs(1), Some(Span { secs: 60, nanos: 1 }), None);
    assert_eq!(long.first_delay(), secs(60));
}

#[test]
fn stats_wrap_and_record_time() {
    let mut s = PrunerStats::new();
    s.total_pruned = u64::MAX;
    s.record_run(2, None);
    assert_eq!(s.total_pruned, 1);
    assert_eq!(s.runs, 1);
    assert_eq!(s.last_run_unix, 0);
    s.record_run(0, Some(u64::MAX));
    assert_eq!(s.last_run_unix, -1);
}

#[test]
fn run_deletes_only_scopes_with_old_events() {
    let mut run = PruneRun::new(&config(100, vec![9, 11]));
    assert_eq!(run.clock_read(Some(1000)), PruneStep::ListScopes);
    assert_eq!(run.scopes_listed(Some(3)), PruneStep::Count { scope: 0, until: 900, kinds: vec![9, 11] });
    assert_eq!(run.counted(Some(0)), PruneStep::Count { scope: 1, until: 900, kinds: vec![9, 11] });
    assert_eq!(run.counted(Some(4)), PruneStep::Delete { scope: 1, until: 900, kinds: vec![9, 11] });
    assert_eq!(run.deleted(true), PruneStep::Count { scope: 2, until: 900, kinds: vec![9, 11] });
    assert_eq!(run.counted(None), PruneStep::Record { deleted: 4 });
}

#[test]
fn failed_deletes_are_not_counted() {
    let mut run = PruneRun::new(&config(100, vec![12]));
    run.clock_read(Some(50));
    assert_eq!(run.scopes_listed(Some(1)), PruneStep::Count { scope: 0, until: 0, kinds: vec![12] });
    assert_eq!(run.counted(Some(7)), PruneStep::Delete { scope: 0, until: 0, kinds: vec![12] });
    assert_eq!(run.deleted(false), PruneStep::Record { deleted: 0 });
}

#[test]
fn failures_before_scopes_stop_the_run() {
    let mut run = PruneRun::new(&config(1, vec![9]));
    assert_eq!(run.clock_read(None), PruneStep::Stop);
    let mut run = PruneRun::new(&config(1, vec![9]));
    run.clock_read(Some(5));
    assert_eq!(run.scopes_listed(None), PruneStep::Stop);
    let mut run = PruneRun::new(&config(1, vec![9]));
    run.clock_read(Some(5));
    assert_eq!(run.scopes_listed(Some(0)), PruneStep::Record { deleted: 0 });
}

#[test]
fn run_without_prunable_kinds_touches_no_scope() {
    let only_protected = config(1, vec![9000]);
    assert!(only_protected.kinds.is_empty());
    let mut run = PruneRun::new(&only_protected);
    assert_eq!(run.clock_read(Some(5)), PruneStep::ListScopes);
    assert_eq!(run.scopes_listed(Some(3)), PruneStep::Record { deleted: 0 });
    let mut run = PruneRun::new(&config(1, vec![]));
    assert_eq!(run.clock_read(Some(5)), PruneStep::ListScopes);
    assert_eq!(run.scopes_listed(Some(2)), PruneStep::Record { deleted: 0 });
}

#[test]
fn run_without_prunable_kinds_stops_when_listing_fails() {
    let mut run = PruneRun::new(&config(1, vec![]));
    assert_eq!(run.clock_read(Some(5)), PruneStep::ListScopes);
    assert_eq!(run.scopes_listed(None), PruneStep::Stop);
    let mut run = PruneRun::new(&config(1, vec![39002]));
    assert_eq!(run.clock_read(Some(5)), PruneStep::ListScopes);
    assert_eq!(run.scopes_listed(None), PruneStep::Stop);
}

#[test]
fn run_leaves_out_protected_kinds_of_hand_built_settings() {
    let hand_built = PrunerConfig { retention: secs(10), interval: secs(60), kinds: vec![9000, 9, 39001] };
    let mut run = PruneRun::new(&hand_built);
    run.clock_read(Some(100));
    assert_eq!(run.scopes_listed(Some(1)), PruneStep::Count { scope: 0, until: 90, kinds: vec![9] });
}
