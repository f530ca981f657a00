use parser_api::cache_pruner::{
    api_idle_line, plan_cleanup, plan_tick, revoked_reload_due, tick_report, PrunerAction,
    PrunerConfig, TickCounts,
};

fn config() -> PrunerConfig {
    PrunerConfig {
        cache_validate_interval_secs: 5,
        orphan_retention_secs: 0,
        cache_idle_eviction_secs: 600,
        cleanup_interval_secs: 10,
        catalog_retention_days: 0,
    }
}

#[test]
fn ticks_follow_the_plan() {
    let off = PrunerConfig { cache_validate_interval_secs: 0, ..config() };
    assert!(plan_tick(&off).is_none());
    let v = plan_tick(&config()).unwrap();
    assert_eq!(v.len(), 9);
    assert_eq!(v[0], PrunerAction::Sleep(30));
    assert_eq!(v[4], PrunerAction::PruneRevokedTokens);
    assert_eq!(v[8], PrunerAction::Checkpoint);
    let with = PrunerConfig {
        cache_validate_interval_secs: 90,
        orphan_retention_secs: 7,
        ..config()
    };
    let v = plan_tick(&with).unwrap();
    assert_eq!(v[0], PrunerAction::Sleep(90));
    assert_eq!(v[4], PrunerAction::PruneOrphanCandidates(7));
}

#[test]
fn cleanup_waits_for_its_interval() {
    assert!(plan_cleanup(&config(), 59).is_empty());
    assert_eq!(
        plan_cleanup(&config(), 60),
        vec![PrunerAction::PruneCatalog(1), PrunerAction::CleanupAccounts]
    );
    assert!(revoked_reload_due((3, 2)));
    assert!(!revoked_reload_due((3, 3)));
}

#[test]
fn ticks_are_reported() {
    let mut t = TickCounts {
        api: (3, 1),
        api_idle: (0, 0),
        jobs: (2, 2),
        ratelimit: (4, 1),
        candidates: (0, 0),
        revoked: (5, 5),
    };
    assert_eq!(t.total_dropped(), 5);
    assert_eq!(
        tick_report(&t),
        (true, "[cache-pruner] dropped 5 entries (api-ttl 3->1, api-idle 0->0, jobs 2->2, ratelimit 4->1, candidates 0->0, revoked 5->5)".to_string())
    );
    t.api = (1, 1);
    t.ratelimit = (1, 1);
    assert_eq!(
        tick_report(&t),
        (false, "[cache-pruner] tick clean (api-ttl=1, api-idle=0, jobs=2, ratelimit=1, candidates=0, revoked=5)".to_string())
    );
    assert_eq!(api_idle_line(60, 0), None);
    assert_eq!(
        api_idle_line(60, 2),
        Some("[cache-pruner] idle-evict API cache after 60s: dropped 2 entries".to_string())
    );
}
