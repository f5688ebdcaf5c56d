use sqlx::{Connection, SqliteConnection};
use windplume_deploy::duplicate::Duplicate;
use windplume_deploy::storage::{
    outdated, truncate_utf8, Change, Deployment, ServiceRevision, Storage,
};

const NOW: &str = "2026-05-01T00:00:00+00:00";

fn open(history_limit: u32, max_log_bytes: usize) -> Storage {
    Storage::open(
        Vec::new(),
        Vec::new(),
        Vec::new(),
        Vec::new(),
        history_limit,
        max_log_bytes,
    )
}

fn deployment(id: &str, project: &str, service: &str, version: &str, started_at: &str) -> Deployment {
    Deployment {
        id: id.into(),
        project_id: project.into(),
        service_id: service.into(),
        operation: "deploy".into(),
        previous_version: None,
        target_version: version.into(),
        status: "queued".into(),
        started_at: started_at.into(),
        finished_at: None,
        command_log: String::new(),
        error_message: None,
        rollback_status: None,
    }
}

fn revision(service: &str, version: &str, id: &str) -> ServiceRevision {
    ServiceRevision {
        version: version.into(),
        image: format!("repo/{service}:{version}"),
        pinned_image: format!("repo/{service}@sha256:{id}"),
        image_digest: format!("sha256:{id}"),
        image_id: format!("sha256:image-{id}"),
    }
}

fn record_success(storage: &mut Storage, id: &str, project: &str, service: &str, version: &str) {
    storage
        .create_deployment(&deployment(id, project, service, version, NOW))
        .unwrap();
    storage.finish_artifact_success(id, project, service, &revision(service, version, id), "", NOW);
}

#[test]
fn truncates_on_boundary() {
    assert_eq!(
        truncate_utf8("a中文", 4),
        "中文".chars().skip(1).collect::<String>()
    );
}

#[test]
fn truncation_keeps_whole_texts_and_whole_characters() {
    assert_eq!(truncate_utf8("a中文", 7), "a中文");
    assert_eq!(truncate_utf8("a中文", 6), "中文");
    assert_eq!(truncate_utf8("a中文", 2), "");
    assert_eq!(truncate_utf8("", 0), "");
    assert_eq!(truncate_utf8("é😀", 4), "😀");
    for max in 0..12 {
        let kept = truncate_utf8("log 😀 é中", max);
        assert!(kept.len() <= max);
        assert!("log 😀 é中".ends_with(&kept));
    }
}

#[test]
fn startup_preserves_unfinished_for_recovery_and_prunes_history() {
    let mut storage = open(2, 32);
    let mut written: Vec<Change> = Vec::new();
    for number in 0..3 {
        let item = deployment(
            &number.to_string(),
            "app",
            "svc",
            &format!("1.0.{number}"),
            &format!("2026-01-01T00:00:0{number}Z"),
        );
        written.extend(storage.create_deployment(&item).unwrap());
    }
    assert_eq!(storage.deployments(10).len(), 2);
    drop(storage);
    let mut reopened = open(2, 32);
    reopened.apply_all(&written);
    assert!(reopened.deployments(10).iter().all(|item| item.status == "queued"));
    assert!(reopened.deployments(10).iter().all(|item| item.operation == "deploy"));
    let active = reopened.active_deployments();
    assert_eq!(
        active.iter().map(|(item, _)| item.id.as_str()).collect::<Vec<_>>(),
        ["0", "1", "2"]
    );
    assert_eq!(active[0].1.phase, "queued");
}

#[test]
fn history_keeps_only_the_newest_finished_operations() {
    let mut storage = open(2, 32);
    for number in 0..5 {
        let id = number.to_string();
        let item = deployment(&id, "app", "svc", "1.0.0", &format!("2026-01-01T00:00:0{number}Z"));
        storage.create_deployment(&item).unwrap();
        if number != 1 {
            storage.finish_operation_success(&id, "ok", NOW);
        }
    }
    storage
        .create_deployment(&deployment("5", "app", "svc", "1.0.0", "2026-01-01T00:00:05Z"))
        .unwrap();
    assert!(storage.deployment("0").is_none());
    assert!(storage.artifact("0").is_none());
    assert!(storage.deployment("1").is_some());
    assert!(storage.deployment("2").is_none());
    assert!(storage.deployment("3").is_some());
    assert!(storage.deployment("4").is_some());
    assert_eq!(storage.deployment("5").unwrap().status, "queued");
    assert_eq!(
        storage.deployments(10).iter().map(|item| item.id.as_str()).collect::<Vec<_>>(),
        ["5", "4"]
    );
    assert_eq!(storage.deployments(1).len(), 1);
}

#[test]
fn same_service_id_is_isolated_between_projects() {
    let mut storage = open(10, 1024);
    record_success(&mut storage, "one", "frontend", "web", "1.0.0");
    record_success(&mut storage, "two", "backend", "web", "2.0.0");
    assert_eq!(storage.state("frontend", "web").unwrap().desired_version, "1.0.0");
    assert_eq!(storage.state("backend", "web").unwrap().desired_version, "2.0.0");
    assert!(storage.previous_revision("backend", "web", "two").is_none());
}

#[test]
fn preserves_previous_success_as_a_rollback_revision() {
    let mut storage = open(10, 1024);
    record_success(&mut storage, "baseline", "app", "api", "1.0.0");
    let mut next = deployment("next", "app", "api", "2.0.0", NOW);
    next.previous_version = Some("1.0.0".into());
    storage.create_deployment(&next).unwrap();
    storage.finish_artifact_success(
        "next",
        "app",
        "api",
        &ServiceRevision {
            version: "2.0.0".into(),
            image: "repo/api:2.0.0".into(),
            pinned_image: "repo/api@sha256:two".into(),
            image_digest: "sha256:two".into(),
            image_id: "sha256:image-two".into(),
        },
        "",
        NOW,
    );
    let previous = storage.previous_revision("app", "api", "next").unwrap();
    assert_eq!(previous.version, "1.0.0");
    assert_eq!(previous.image, "repo/api:1.0.0");
}

fn history(rows: &[(&str, &str, &str)]) -> Storage {
    let mut items = Vec::new();
    for (id, status, started_at) in rows {
        let mut item = deployment(id, "app", "api", "1.0.0", started_at);
        item.status = status.to_string();
        items.push(item);
    }
    Storage::open(Vec::new(), items, Vec::new(), Vec::new(), 10, 1024)
}

/// What SQLite makes of times.
fn read_times(times: Vec<String>) -> Vec<(String, Option<String>)> {
    let runtime = tokio::runtime::Builder::new_current_thread()
        .enable_all()
        .build()
        .unwrap();
    runtime.block_on(async {
        let mut database = SqliteConnection::connect("sqlite::memory:").await.unwrap();
        let mut read = Vec::new();
        for time in times {
            let value: Option<String> = sqlx::query_scalar("SELECT datetime(?)")
                .bind(&time)
                .fetch_one(&mut database)
                .await
                .unwrap();
            read.push((time, value));
        }
        read
    })
}

fn delete_before(storage: &mut Storage, cutoff: &str) -> (u64, Vec<Change>) {
    let times = read_times(storage.times_before(cutoff));
    storage.delete_deployments_before(cutoff, &times)
}

#[test]
fn deletes_only_finished_history_older_than_cutoff() {
    let mut storage = history(&[
        ("old", "succeeded", "2026-01-01T00:00:00Z"),
        ("active", "running", "2026-01-01T00:00:00Z"),
        ("recent", "failed", "2026-03-01T00:00:00Z"),
    ]);
    let (deleted, changes) = delete_before(&mut storage, "2026-02-01T00:00:00Z");
    assert_eq!(deleted, 1);
    assert_eq!(changes.len(), 1);
    assert!(storage.deployment("old").is_none());
    assert!(storage.deployment("active").is_some());
    assert!(storage.deployment("recent").is_some());
}

#[test]
fn history_is_deleted_by_the_time_it_names() {
    let rows = [
        ("unreadable", "failed", "some time ago"),
        ("elsewhere", "failed", "2026-02-01T01:00:00+02:00"),
        ("queued", "queued", "2026-01-01T00:00:00Z"),
        ("dateonly", "failed", "2026-03-01"),
    ];
    let mut storage = history(&rows);
    assert_eq!(
        storage.times_before("2026-01-31"),
        [
            "2026-01-31",
            "some time ago",
            "2026-02-01T01:00:00+02:00",
            "2026-01-01T00:00:00Z",
            "2026-03-01"
        ]
    );
    assert_eq!(delete_before(&mut storage, "2026-01-31T22:00:00Z").0, 0);
    assert_eq!(delete_before(&mut storage, "2026-01-31T23:00:00Z").0, 0);
    assert!(storage.deployment("elsewhere").is_some());
    assert_eq!(delete_before(&mut storage, "2026-02-01T00:00:00Z").0, 1);
    assert!(storage.deployment("elsewhere").is_none());
    assert!(storage.deployment("unreadable").is_some());
    assert!(storage.deployment("queued").is_some());
    assert_eq!(delete_before(&mut storage, "not a time").0, 0);
    assert_eq!(delete_before(&mut storage, "2026-03-01 00:00").0, 0);
    assert_eq!(delete_before(&mut storage, "2026-03-02").0, 1);
    assert!(storage.deployment("dateonly").is_none());
    let mut storage = history(&rows);
    assert_eq!(delete_before(&mut storage, "2026-02-01").0, 1);
    assert!(storage.deployment("elsewhere").is_none());
    let mut storage = history(&rows);
    assert_eq!(storage.delete_deployments_before("2026-02-01", &Vec::new()).0, 0);
    let time = |text: &str| Some(text.to_string());
    let mut item = deployment("one", "app", "api", "1.0.0", "");
    assert!(!outdated(&item, &time("1"), &time("2")));
    item.status = "failed".into();
    assert!(outdated(&item, &time("1"), &time("2")));
    assert!(!outdated(&item, &time("2"), &time("2")));
    assert!(!outdated(&item, &None, &time("2")));
    assert!(!outdated(&item, &time("1"), &None));
}

#[test]
fn finished_operations_are_read_back() {
    let mut storage = open(10, 5);
    storage
        .create_deployment(&deployment("one", "app", "api", "1.0.0", NOW))
        .unwrap();
    storage.mark_running("one");
    assert_eq!(storage.deployment("one").unwrap().status, "running");
    storage.finish_failure("one", "no luck", "succeeded", "long log", NOW);
    let failed = storage.deployment("one").unwrap();
    assert_eq!(failed.status, "failed");
    assert_eq!(failed.error_message.as_deref(), Some("no luck"));
    assert_eq!(failed.rollback_status.as_deref(), Some("succeeded"));
    assert_eq!(failed.command_log, "g log");
    assert_eq!(failed.finished_at.as_deref(), Some(NOW));
    assert!(storage.state("app", "api").is_none());
    storage.finish_interrupted("one", "cut off", "failed", "log", NOW);
    assert_eq!(storage.deployment("one").unwrap().status, "interrupted");
    assert!(storage.finish_failure("unknown", "e", "failed", "", NOW).is_empty());
    assert!(storage.mark_running("one").is_empty());
}

#[test]
fn recording_an_operation_twice_is_refused() {
    let mut storage = open(10, 5);
    let item = deployment("one", "app", "api", "1.0.0", NOW);
    assert!(storage.create_deployment(&item).is_ok());
    assert_eq!(storage.create_deployment(&item).unwrap_err(), "操作记录已存在: one");
}

#[test]
fn phases_and_targets_are_recorded() {
    let mut storage = open(10, 100);
    storage
        .create_deployment(&deployment("one", "app", "api", "1.0.0", NOW))
        .unwrap();
    storage.set_phase("one", "pulling");
    storage.set_target_artifact("one", "i", "p", "d", "x");
    let artifact = storage.artifact("one").unwrap();
    assert_eq!(artifact.phase, "pulling");
    assert_eq!(artifact.target_image.as_deref(), Some("i"));
    assert_eq!(artifact.target_pinned_image.as_deref(), Some("p"));
    assert_eq!(artifact.target_digest.as_deref(), Some("d"));
    assert_eq!(artifact.target_image_id.as_deref(), Some("x"));
    assert!(storage.set_phase("unknown", "pulling").is_empty());
}

#[test]
fn changes_rebuild_the_same_tables() {
    let mut storage = open(1, 100);
    let before = storage.duplicate();
    let mut changes = Vec::new();
    for id in ["one", "two", "three"] {
        let item = deployment(id, "app", "api", "1.0.0", &format!("2026-01-01T00:00:0{}Z", id.len()));
        changes.extend(storage.create_deployment(&item).unwrap());
        changes.extend(storage.mark_running(id));
        changes.extend(storage.set_phase(id, "checking"));
        changes.extend(storage.finish_artifact_success(
            id,
            "app",
            "api",
            &revision("api", "1.0.0", id),
            "log",
            NOW,
        ));
    }
    let mut replayed = before.duplicate();
    replayed.apply_all(&changes);
    assert_eq!(format!("{storage:?}"), format!("{replayed:?}"));
    assert_eq!(storage.states("app").len(), 1);
    assert!(storage.states("other").is_empty());
}

#[test]
fn states_are_listed_by_service() {
    let mut storage = open(10, 100);
    record_success(&mut storage, "1", "app", "web", "1.0.0");
    record_success(&mut storage, "2", "app", "api", "2.0.0");
    record_success(&mut storage, "3", "other", "db", "3.0.0");
    assert_eq!(
        storage.states("app").iter().map(|state| state.service_id.as_str()).collect::<Vec<_>>(),
        ["api", "web"]
    );
    assert_eq!(storage.artifact("1").unwrap().phase, "committed");
}
