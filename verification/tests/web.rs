use std::cell::RefCell;
use windplume_deploy::compose::{
    resolve_invocation, resolve_log, resolve_project, CommandOutput, Compose, RuntimeState,
};
use windplume_deploy::config::{service_from_image, ProjectConfig};
use windplume_deploy::deployment::check_project;
use windplume_deploy::duplicate::Duplicate;
use windplume_deploy::error::AppError;
use windplume_deploy::state::RuntimeStateCache;
use windplume_deploy::storage::{Deployment, ServiceRevision, Storage};
use windplume_deploy::system::{parse_images, DockerImageRow, SystemManager};
use windplume_deploy::update::ReleaseInfo;
use windplume_deploy::web::{
    check_cleanup, check_maintenance, check_request, check_update_support, csrf_guard,
    csrf_rejection,
    find_service, history_limit, image_status, is_in_progress, judge_update, log_tail,
    managed_services, project_view,
    protected_images, refresh_compose, removable_totals, runtime_query, runtime_timeout, start_update,
    update_available, validate_image_ids, CONTAINER_LOG_MAX_TAIL, HISTORY_RETENTION_DAYS,
    RUNTIME_CACHE_MAX_AGE_SECONDS,
};

const NOW: &str = "2026-05-01T00:00:00+00:00";

fn some(text: &str) -> Option<String> {
    Some(text.to_owned())
}

fn project() -> ProjectConfig {
    ProjectConfig {
        compose_files: vec!["/srv/app/compose.yaml".into()],
        health_timeout_seconds: 1,
        command_timeout_seconds: 1,
        id: "app".into(),
        services: vec![service_from_image("old".into(), "nginx:1.0.0".into()).unwrap()],
    }
}

fn storage() -> Storage {
    Storage::open(Vec::new(), Vec::new(), Vec::new(), Vec::new(), 10, 1024)
}

fn record_success(storage: &mut Storage, id: &str, service: &str, version: &str) {
    storage
        .create_deployment(&Deployment {
            id: id.into(),
            project_id: "app".into(),
            service_id: service.into(),
            operation: "deploy".into(),
            previous_version: None,
            target_version: version.into(),
            status: "queued".into(),
            started_at: NOW.into(),
            finished_at: None,
            command_log: String::new(),
            error_message: None,
            rollback_status: None,
        })
        .unwrap();
    storage.finish_artifact_success(
        id,
        "app",
        service,
        &ServiceRevision {
            version: version.into(),
            image: format!("nginx:{version}"),
            pinned_image: format!("nginx@sha256:{id}"),
            image_digest: format!("sha256:{id}"),
            image_id: format!("sha256:image-{id}"),
        },
        "",
        NOW,
    );
}

#[test]
fn image_status_distinguishes_unmanaged_matched_and_drifted_services() {
    let runtime = |image: Option<&str>, image_id: Option<&str>, mixed_images| RuntimeState {
        actual_image: image.map(str::to_owned),
        actual_image_id: image_id.map(str::to_owned),
        replicas: usize::from(image.is_some()),
        mixed_images,
        container_status: "running".into(),
    };
    assert_eq!(
        image_status(false, false, &None, &None, &runtime(None, None, false)),
        "unmanaged"
    );
    assert_eq!(
        image_status(true, false, &None, &None, &runtime(None, None, false)),
        "unknown"
    );
    assert_eq!(
        image_status(
            true,
            true,
            &some("repo/app:1.0.0"),
            &None,
            &runtime(Some("repo/app:1.0.0"), None, false)
        ),
        "matched"
    );
    assert_eq!(
        image_status(
            true,
            true,
            &some("repo/app:1.0.0"),
            &some("sha256:one"),
            &runtime(Some("repo/app@sha256:digest"), Some("sha256:one"), false)
        ),
        "matched"
    );
    assert_eq!(
        image_status(
            true,
            true,
            &some("repo/app:1.0.0"),
            &some("sha256:one"),
            &runtime(Some("repo/app@sha256:digest"), Some("sha256:two"), false)
        ),
        "drift"
    );
    assert_eq!(
        image_status(
            true,
            true,
            &some("repo/app:1.0.0"),
            &None,
            &runtime(Some("repo/app:1.0.0"), None, true)
        ),
        "drift"
    );
}

#[test]
fn projects_returns_loading_state_then_reuses_async_runtime_snapshot() {
    let mut cache = RuntimeStateCache::default();
    let snapshot = cache.snapshot(0, RUNTIME_CACHE_MAX_AGE_SECONDS);
    assert!(snapshot.start_refresh);
    let first = project_view(&project(), false, &snapshot, &storage());
    assert!(first.runtime_refreshing);
    assert_eq!(first.services[0].container_status, "loading");
    assert_eq!(first.services[0].image_status, "unmanaged");

    cache.complete(Ok(Vec::new()));
    let snapshot = cache.snapshot(1, RUNTIME_CACHE_MAX_AGE_SECONDS);
    assert!(!snapshot.start_refresh);
    let refreshed = project_view(&project(), true, &snapshot, &storage());
    assert!(!refreshed.runtime_refreshing);
    assert_eq!(refreshed.services[0].container_status, "down");
    assert!(refreshed.deployment_in_progress);
    assert_eq!(refreshed.compose_files, ["/srv/app/compose.yaml"]);
}

#[test]
fn services_show_what_runs_and_what_should_run() {
    let mut storage = storage();
    record_success(&mut storage, "one", "old", "1.0.0");
    record_success(&mut storage, "two", "old", "2.0.0");
    let mut cache = RuntimeStateCache::default();
    cache.snapshot(0, 55);
    cache.complete(Err("docker is gone".into()));
    let shown = project_view(&project(), false, &cache.snapshot(1, 55), &storage);
    assert_eq!(shown.runtime_error.as_deref(), Some("docker is gone"));
    assert_eq!(shown.services[0].container_status, "unknown");
    assert_eq!(shown.services[0].image_status, "unknown");
    cache.complete(Ok(vec![(
        "old".into(),
        RuntimeState {
            actual_image: some("nginx@sha256:one"),
            actual_image_id: some("sha256:image-one"),
            replicas: 1,
            mixed_images: false,
            container_status: "running".into(),
        },
    )]));
    let shown = project_view(&project(), false, &cache.snapshot(2, 55), &storage);
    let service = &shown.services[0];
    assert_eq!(service.image_status, "drift");
    assert!(service.drift);
    assert!(service.rollback_available);
    assert_eq!(service.desired_version.as_deref(), Some("2.0.0"));
    assert_eq!(service.desired_image.as_deref(), Some("nginx:2.0.0"));
    assert_eq!(service.actual_image.as_deref(), Some("nginx@sha256:one"));
    assert_eq!(service.version_source, "docker_hub");
    assert_eq!(service.replicas, 1);
}

#[test]
fn what_was_seen_under_a_name_is_shown_once() {
    let mut project = project();
    project.services.push(service_from_image("old".into(), "nginx:2.0.0".into()).unwrap());
    let mut cache = RuntimeStateCache::default();
    cache.snapshot(0, 55);
    cache.complete(Ok(vec![(
        "old".into(),
        RuntimeState {
            container_status: "running".into(),
            ..Default::default()
        },
    )]));
    let shown = project_view(&project, false, &cache.snapshot(1, 55), &storage());
    assert_eq!(shown.services[0].container_status, "running");
    assert_eq!(shown.services[1].container_status, "down");
}

#[test]
fn container_logs_default_to_50_and_clamp_to_200_lines() {
    let compose = Compose::new(project(), "/srv/app/override.yaml".into());
    for (asked, expected) in [(None, 50), (Some(500), 200), (Some(0), 1), (Some(120), 120)] {
        let tail = log_tail(asked);
        assert_eq!(tail, expected);
        let args = compose.logs("old", tail).args;
        assert!(args.windows(2).any(|args| args == ["--tail".to_string(), expected.to_string()]));
    }
    assert_eq!(CONTAINER_LOG_MAX_TAIL, 200);
}

#[test]
fn limits_stay_in_bounds() {
    assert_eq!(history_limit(None), 50);
    assert_eq!(history_limit(Some(0)), 1);
    assert_eq!(history_limit(Some(1000)), 500);
    assert_eq!(HISTORY_RETENTION_DAYS, 30);
    let mut project = project();
    assert_eq!(runtime_timeout(&project), 1);
    assert_eq!(runtime_query(&project), Some(1));
    project.command_timeout_seconds = 600;
    assert_eq!(runtime_timeout(&project), 15);
    assert_eq!(runtime_query(&project), Some(15));
    project.services.clear();
    assert_eq!(runtime_query(&project), None);
    assert!(is_in_progress(true, true));
    assert!(is_in_progress(false, false));
    assert!(!is_in_progress(false, true));
}

#[test]
fn refresh_updates_snapshot_rejects_name_change_and_respects_lock() {
    let mut compose = Compose::new(project(), "/srv/app/override.yaml".into());
    let calls = RefCell::new(Vec::new());
    let refresh = |compose: &Compose, idle: bool, success: bool, log: &str| {
        check_project(false, true, idle)?;
        let current = compose.project();
        calls.borrow_mut().push(resolve_invocation(&current).args);
        let candidate = resolve_log(
            &current,
            Ok(CommandOutput {
                success,
                log: log.into(),
            }),
        )
        .and_then(|log| {
            let value: serde_json::Value = serde_json::from_str(&log).unwrap();
            let services = value["services"]
                .as_object()
                .unwrap()
                .iter()
                .map(|(id, service)| (id.clone(), service["image"].as_str().map(str::to_owned)))
                .collect();
            resolve_project(&current, value["name"].as_str().unwrap().into(), &services)
        });
        refresh_compose(&current, candidate)
    };
    let refreshed = refresh(
        &compose,
        true,
        true,
        r#"{"name":"app","services":{"api":{"image":"ghcr.io/me/api:2.0.0"}}}"#,
    )
    .unwrap();
    assert_eq!(refreshed.services.len(), 1);
    compose.replace_project(refreshed);
    assert_eq!(compose.project().services[0].id, "api");

    let renamed = refresh(
        &compose,
        true,
        true,
        r#"{"name":"renamed","services":{"api":{"image":"ghcr.io/me/api:2.0.0"}}}"#,
    );
    assert!(matches!(
        renamed,
        Err(AppError::Invalid(message))
            if message == "Compose 项目名从 app 变为 renamed，请重启服务处理项目身份变化"
    ));
    assert_eq!(compose.project().id, "app");

    let invalid = refresh(&compose, true, false, "invalid compose");
    assert!(matches!(
        invalid,
        Err(AppError::Invalid(message))
            if message == "无法解析 Compose 项目 /srv/app/compose.yaml\ninvalid compose"
    ));
    assert_eq!(compose.project().services[0].id, "api");

    let busy = refresh(
        &compose,
        false,
        true,
        r#"{"name":"app","services":{"api":{"image":"ghcr.io/me/api:2.0.0"}}}"#,
    );
    assert!(matches!(busy, Err(AppError::Busy)));

    {
        let calls = calls.borrow();
        assert_eq!(calls.len(), 3);
        assert!(calls.iter().all(|args| args.iter().any(|arg| arg == "config")));
        assert!(calls.iter().all(|args| !args.iter().any(|arg| arg == "up" || arg == "pull")));
    }

    let empty = refresh(&compose, true, true, r#"{"name":"app","services":{}}"#);
    assert!(matches!(
        empty,
        Err(AppError::Invalid(message)) if message == "Compose 项目没有可管理的 image 服务"
    ));
}

fn image_row(id: &str) -> Result<DockerImageRow, String> {
    Ok(DockerImageRow {
        id: id.into(),
        repository: "nginx".into(),
        tag: "1.0.0".into(),
        digest: "sha256:old".into(),
        size: Ok(100_000_000),
        created_at: "2026-07-30 00:00:00 +0000 UTC".into(),
        containers: "N/A".into(),
    })
}

#[test]
fn image_cleanup_revalidates_and_removes_only_an_unreferenced_managed_image() {
    let image_id = format!("sha256:{}", "a".repeat(64));
    let manager = SystemManager::new("/data".into());
    let requested = validate_image_ids(&vec![image_id.clone()]).unwrap();
    assert_eq!(
        manager.images().args,
        ["image", "ls", "--digests", "--no-trunc", "--format", "{{json .}}"]
    );
    assert_eq!(manager.containers().args[..2], ["container", "ls"]);
    assert!(manager.container_images(&Vec::new()).is_none());
    let projects = vec![project()];
    let images = parse_images(
        &vec![image_row(&image_id)],
        &managed_services(&projects),
        &protected_images(&storage(), &projects),
        &Vec::new(),
    )
    .unwrap();
    assert!(check_cleanup(&requested, &images).is_ok());
    assert_eq!(removable_totals(&images), (1, 100_000_000));
    assert_eq!(manager.remove_image(&image_id).args[..2], ["image", "rm"]);
}

#[test]
fn image_cleanup_rejects_an_image_referenced_by_a_stopped_container() {
    let image_id = format!("sha256:{}", "b".repeat(64));
    let manager = SystemManager::new("/data".into());
    let requested = validate_image_ids(&vec![image_id.clone()]).unwrap();
    let asked = manager.container_images(&vec!["container-id".into()]).unwrap();
    assert_eq!(asked.args[..2], ["container", "inspect"]);
    let projects = vec![project()];
    let images = parse_images(
        &vec![image_row(&image_id)],
        &managed_services(&projects),
        &protected_images(&storage(), &projects),
        &vec![image_id.clone()],
    )
    .unwrap();
    let refused = check_cleanup(&requested, &images);
    assert!(matches!(
        &refused,
        Err(AppError::Invalid(message))
            if *message == format!("镜像已被引用、已不存在或不属于受管 Compose：{image_id}")
    ));
    assert_eq!(refused.unwrap_err().into_response().status, 400);
    assert_eq!(removable_totals(&images), (0, 0));
}

#[test]
fn deployed_images_are_protected() {
    let mut storage = storage();
    record_success(&mut storage, "one", "old", "1.0.0");
    record_success(&mut storage, "two", "old", "2.0.0");
    record_success(&mut storage, "three", "removed", "3.0.0");
    let protected = protected_images(&storage, &vec![project()]);
    assert_eq!(
        protected,
        [
            ("sha256:image-one".to_string(), vec!["rollback".to_string()]),
            ("sha256:image-two".to_string(), vec!["current".to_string()]),
        ]
    );
    let services = managed_services(&vec![project()]);
    assert_eq!(services.len(), 1);
    assert_eq!(services[0].repository, "nginx");
}

#[test]
fn image_ids_are_validated() {
    let id = |c: &str| format!("sha256:{}", c.repeat(64));
    let invalid = |ids: Vec<String>, expected: &str| {
        assert!(matches!(
            validate_image_ids(&ids),
            Err(AppError::Invalid(message)) if message == expected
        ));
    };
    invalid(Vec::new(), "请选择 1 到 100 个镜像");
    invalid(
        (0..101).map(|n| format!("sha256:{n:064x}")).collect(),
        "请选择 1 到 100 个镜像",
    );
    for bad in [
        "sha256:".to_string(),
        id("g"),
        format!("sha512:{}", "a".repeat(64)),
        format!("{}a", id("a")),
        format!("sha256:{}", "é".repeat(32)),
    ] {
        invalid(vec![id("a"), bad], "镜像 ID 格式无效");
    }
    assert_eq!(
        validate_image_ids(&vec![id("b"), id("a"), id("b")]).unwrap(),
        [id("a"), id("b")]
    );
    assert_eq!(validate_image_ids(&vec![id("A")]).unwrap(), [id("A")]);
}

#[test]
fn refused_requests_are_answered() {
    let answer = csrf_rejection();
    assert_eq!(answer.status, 403);
    assert_eq!(answer.code, "csrf_rejected");
    assert_eq!(answer.message, "请求来源校验失败，请刷新页面后重试");
}

#[test]
fn foreign_requests_are_refused() {
    let allowed = |method: &str, token: Option<&str>, origin: Option<&str>, host: Option<&str>| {
        csrf_guard(
            method,
            "secret",
            &token.map(str::to_owned),
            &origin.map(str::to_owned),
            &host.map(str::to_owned),
        )
    };
    for method in ["GET", "HEAD", "OPTIONS"] {
        assert!(allowed(method, None, Some("https://evil.example"), None));
    }
    assert!(!allowed("POST", None, None, None));
    assert!(!allowed("POST", Some("wrong"), None, None));
    assert!(allowed("POST", Some("secret"), None, None));
    assert!(allowed(
        "POST",
        Some("secret"),
        Some("https://Deploy.Internal:8180"),
        Some("deploy.internal:8180")
    ));
    assert!(!allowed(
        "POST",
        Some("secret"),
        Some("https://evil.example"),
        Some("deploy.internal")
    ));
    assert!(!allowed("POST", Some("secret"), Some("null"), Some("evil")));
    assert!(!allowed("DELETE", Some("secret"), Some("https://deploy.internal"), None));
    assert!(check_request(
        "PUT",
        "secret",
        &some("secret"),
        &some("ignored"),
        &some("a.b"),
        &some("A.B")
    ));
    assert!(!check_request(
        "PUT",
        "secret",
        &some("secret"),
        &some("ignored"),
        &None,
        &some("a.b")
    ));
}

#[test]
fn maintenance_needs_idle_projects() {
    assert!(check_maintenance(false, &vec![true, true]).is_ok());
    assert!(check_maintenance(false, &Vec::new()).is_ok());
    assert!(matches!(
        check_maintenance(false, &vec![true, false]),
        Err(AppError::Busy)
    ));
    assert!(matches!(
        check_maintenance(true, &vec![false]),
        Err(AppError::Updating)
    ));
}

#[test]
fn updates_only_go_forward() {
    let release = |version: &str| ReleaseInfo {
        version: version.into(),
        html_url: String::new(),
        published_at: None,
        archive_url: String::new(),
        checksum_url: String::new(),
        signature_url: String::new(),
    };
    assert!(update_available("1.10.0", "1.9.0"));
    assert!(!update_available("1.9.0", "1.9.0"));
    assert!(update_available("1.0.0", "1.0.0-rc.1"));
    assert!(!update_available("1.0.0-rc.1", "1.0.0"));
    assert!(!update_available("1.0.0-rc.1", "1.0.0-rc.1"));
    assert!(matches!(
        start_update("1.0.0", &release("1.0.0")),
        Err(AppError::Invalid(message)) if message == "当前已是最新稳定版"
    ));
    assert!(!update_available("new", "1.0.0"));
    assert!(!update_available("1.0.0", "dev"));
    assert!(start_update("1.9.0", &release("1.10.0")).is_ok());
    assert!(matches!(
        start_update("1.10.0", &release("1.9.0")),
        Err(AppError::Invalid(message)) if message == "当前已是最新稳定版"
    ));
    assert!(matches!(
        start_update("dev", &release("1.9.0")),
        Err(AppError::Update(message)) if message == "当前程序版本无效"
    ));
    assert!(matches!(
        start_update("1.0.0", &release("new")),
        Err(AppError::Update(message)) if message == "Release 版本无效"
    ));
    assert!(judge_update(Some((1, 0, 0)), Some((1, 0, 0)), 1).is_ok());
    assert!(matches!(
        judge_update(Some((1, 0, 0)), Some((1, 0, 0)), 0),
        Err(AppError::Invalid(_))
    ));
    assert!(check_update_support(true).is_ok());
    assert!(matches!(check_update_support(false), Err(AppError::Update(_))));
}

#[test]
fn services_are_looked_up() {
    let project = Some(project());
    assert_eq!(find_service(&project, "old").unwrap().id, "old");
    assert!(matches!(find_service(&project, "new"), Err(AppError::NotFound)));
    assert!(matches!(find_service(&None, "old"), Err(AppError::NotFound)));
    assert_eq!(project.unwrap().duplicate().id, "app");
}

#[test]
fn errors_are_answered_without_internals() {
    for (error, status, code, message) in [
        (AppError::NotFound, 404, "service_not_found", "未找到 Compose 项目或服务"),
        (AppError::Invalid("x".into()), 400, "invalid_request", "请求格式无效: x"),
        (
            AppError::VersionNotFound("1".into()),
            422,
            "version_not_found",
            "版本不存在: 1",
        ),
        (AppError::Busy, 409, "deployment_in_progress", "项目已有操作正在运行"),
        (
            AppError::Updating,
            409,
            "system_update_in_progress",
            "系统更新期间暂停新操作",
        ),
        (
            AppError::Package("x".into()),
            502,
            "package_query_failed",
            "无法读取镜像版本: x",
        ),
        (AppError::Internal("secret".into()), 500, "internal_error", "内部服务错误"),
        (AppError::Update("x".into()), 502, "system_update_failed", "无法更新程序: x"),
        (
            AppError::System("x".into()),
            502,
            "system_resource_failed",
            "无法读取或清理系统资源: x",
        ),
    ] {
        let response = error.into_response();
        assert_eq!(response.status, status);
        assert_eq!(response.code, code);
        assert_eq!(response.message, message);
    }
    assert_eq!(AppError::Internal("secret".into()).message(), "内部错误: secret");
}
