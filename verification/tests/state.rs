use windplume_deploy::compose::RuntimeState;
use windplume_deploy::state::RuntimeStateCache;

const SECOND: u128 = 1_000_000_000;

fn states(status: &str) -> Vec<(String, RuntimeState)> {
    vec![(
        "api".into(),
        RuntimeState {
            container_status: status.into(),
            ..Default::default()
        },
    )]
}

fn status(states: Option<Vec<(String, RuntimeState)>>) -> String {
    let states = states.unwrap();
    assert_eq!(states[0].0, "api");
    states[0].1.container_status.clone()
}

#[test]
fn runtime_cache_deduplicates_refreshes_and_keeps_snapshot_when_invalidated() {
    let mut cache = RuntimeStateCache::default();
    let first = cache.snapshot(0, 10);
    assert!(first.start_refresh);
    assert!(first.refreshing);
    assert!(first.states.is_none());

    let concurrent = cache.snapshot(1, 10);
    assert!(!concurrent.start_refresh);
    assert!(concurrent.refreshing);

    cache.complete(Ok(states("healthy")));
    let cached = cache.snapshot(2, 10);
    assert!(!cached.start_refresh);
    assert!(!cached.refreshing);
    assert_eq!(status(cached.states), "healthy");

    cache.invalidate();
    let invalidated = cache.snapshot(3, 10);
    assert!(invalidated.start_refresh);
    assert_eq!(status(invalidated.states), "healthy");
}

#[test]
fn looks_are_repeated_when_they_are_too_old() {
    let mut cache = RuntimeStateCache::default();
    assert!(cache.snapshot(5 * SECOND, 10).start_refresh);
    cache.complete(Ok(states("running")));
    assert!(!cache.snapshot(15 * SECOND - 1, 10).start_refresh);
    assert!(cache.snapshot(15 * SECOND, 10).start_refresh);
    // Nobody else is sent while somebody is looking, however long it takes.
    assert!(!cache.snapshot(100 * SECOND, 10).start_refresh);
}

#[test]
fn a_failed_look_keeps_what_was_known() {
    let mut cache = RuntimeStateCache::default();
    cache.snapshot(0, 10);
    cache.complete(Ok(states("running")));
    cache.invalidate();
    cache.snapshot(1, 10);
    cache.complete(Err("docker is gone".into()));
    let after = cache.snapshot(2, 10);
    assert_eq!(after.error.as_deref(), Some("docker is gone"));
    assert_eq!(status(after.states), "running");
    cache.clear();
    let cleared = cache.snapshot(3, 10);
    assert!(cleared.states.is_none());
    assert!(cleared.error.is_none());
    assert!(cleared.start_refresh);
}
