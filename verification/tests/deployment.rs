use windplume_deploy::compose::{
    ids, image_artifact, inspect_image_log, inspect_log, inspection, runtime, wait_healthy_listed,
    CommandOutput, ImageArtifact, ImageInspect, Inspect, Operation, RuntimeState, Wait,
};
use windplume_deploy::config::{ProjectConfig, ServiceConfig, VersionSourceConfig};
use windplume_deploy::deployment::{
    admit_wish, candidate_override, check_admission, check_project, check_version, enqueue, enqueue_lifecycle,
    enqueue_rollback, images_from_db, judge_version, log_timeout, operation_timeout, rebuild_project_override, recover_interrupted,
    Action, Event, LifecycleAction, Recovery, Task, Wish, WishAction, WishEvent, WishState,
};
use windplume_deploy::duplicate::Duplicate;
use windplume_deploy::error::AppError;
use windplume_deploy::registry::PackageVersion;
use windplume_deploy::storage::{Deployment, ServiceRevision, Storage};
use windplume_deploy::update::UpdateManager;

const NOW: &str = "2026-05-01T00:00:00+00:00";

/// Reads the output of `docker inspect`.
fn read_containers(log: &str) -> Result<Vec<Inspect>, String> {
    let values: Vec<serde_json::Value> =
        serde_json::from_str(log).map_err(|error| error.to_string())?;
    let text = |value: &serde_json::Value| value.as_str().map(str::to_owned);
    Ok(values
        .iter()
        .map(|value| Inspect {
            image: text(&value["Image"]).unwrap_or_default(),
            config_image: text(&value["Config"]["Image"]).unwrap_or_default(),
            has_healthcheck: !value["Config"]["Healthcheck"].is_null(),
            health: text(&value["State"]["Health"]["Status"]),
            status: text(&value["State"]["Status"]).unwrap_or_default(),
            service: text(&value["Config"]["Labels"]["com.docker.compose.service"]),
        })
        .collect())
}

/// Reads the output of `docker image inspect`.
fn read_images(log: &str) -> Result<Vec<ImageInspect>, String> {
    let values: Vec<serde_json::Value> =
        serde_json::from_str(log).map_err(|error| error.to_string())?;
    Ok(values
        .iter()
        .map(|value| ImageInspect {
            id: value["Id"].as_str().unwrap_or_default().to_owned(),
            repo_digests: value["RepoDigests"]
                .as_array()
                .map(|list| list.iter().map(|item| item.as_str().unwrap().to_owned()).collect())
                .unwrap_or_default(),
        })
        .collect())
}

/// A project whose commands print what they are told to.
struct World {
    storage: Storage,
    project: ProjectConfig,
    service: ServiceConfig,
    outputs: Vec<CommandOutput>,
    override_text: String,
}

fn output(success: bool, log: &str) -> CommandOutput {
    CommandOutput {
        success,
        log: log.into(),
    }
}

fn world(outputs: Vec<CommandOutput>) -> World {
    let service = ServiceConfig {
        id: "identity".into(),
        image: "ghcr.io/owner/identity".into(),
        tag_pattern: r"^\d+\.\d+\.\d+$".into(),
        version_source: VersionSourceConfig::OciRegistry {
            registry: "ghcr.io".into(),
            repository: "owner/identity".into(),
        },
    };
    World {
        storage: Storage::open(Vec::new(), Vec::new(), Vec::new(), Vec::new(), 10, 1024),
        project: ProjectConfig {
            compose_files: vec!["/srv/app/compose.yaml".into()],
            health_timeout_seconds: 1,
            command_timeout_seconds: 1,
            id: "app".into(),
            services: vec![service.duplicate()],
        },
        service,
        outputs,
        override_text: String::new(),
    }
}

impl World {
    fn run(&mut self) -> Result<CommandOutput, String> {
        Ok(self.outputs.remove(0))
    }

    fn look(&mut self) -> (Result<Vec<String>, String>, Result<(RuntimeState, bool), String>) {
        let listed = Operation::Ps.result(self.run()).map(|log| ids(&log));
        let inspected = match &listed {
            Ok(found) => {
                let read = inspect_log(self.run()).and_then(|log| read_containers(&log));
                inspection(found, read)
            }
            Err(error) => Err(error.clone()),
        };
        (listed, inspected)
    }

    fn perform(&mut self, task: &Task) -> Event {
        match task.action() {
            Action::WriteOverride(candidate) => {
                match candidate_override(
                    &self.storage,
                    &self.project,
                    task.service_id(),
                    &candidate,
                ) {
                    Ok(text) => {
                        self.override_text = text;
                        Event::Done
                    }
                    Err(error) => Event::Failed(error),
                }
            }
            Action::Run(operation) => match operation.result(self.run()) {
                Ok(log) => Event::Output(log),
                Err(error) => Event::Failed(error),
            },
            Action::InspectImage { image, repository } => {
                match inspect_image_log(self.run())
                    .and_then(|log| read_images(&log))
                    .and_then(|values| image_artifact(&image, &repository, &values))
                {
                    Ok(artifact) => Event::Artifact(artifact),
                    Err(error) => Event::Failed(error),
                }
            }
            Action::Wait(expected) => {
                let (listed, inspected) = self.look();
                match wait_healthy_listed(&listed, inspected, &expected, true) {
                    Wait::Ready(log) => Event::Output(log),
                    Wait::Failed(error) => Event::Failed(error),
                    Wait::Again => panic!("the time was up"),
                }
            }
            _ => match task.record(&mut self.storage, NOW) {
                Some(_) => Event::Done,
                None => panic!("nothing to record"),
            },
        }
    }

    fn finish(&mut self, mut task: Task) {
        while !matches!(task.action(), Action::Finished) {
            let event = self.perform(&task);
            task.handle(&event);
        }
        assert!(task.fatal().is_none());
        assert!(self.outputs.is_empty());
    }

    fn persist_success(&mut self, id: &str, version: &str, digest: &str, image_id: &str) {
        let mut item = queued(id);
        item.target_version = version.into();
        self.storage.create_deployment(&item).unwrap();
        self.storage.finish_artifact_success(
            id,
            "app",
            "identity",
            &ServiceRevision {
                version: version.into(),
                image: format!("ghcr.io/owner/identity:{version}"),
                pinned_image: format!("ghcr.io/owner/identity@{digest}"),
                image_digest: digest.into(),
                image_id: image_id.into(),
            },
            "",
            NOW,
        );
    }

    fn recover(&mut self) {
        for (item, artifact) in self.storage.active_deployments() {
            match recover_interrupted(&item, &Some(self.project.duplicate())) {
                Recovery::Interrupt { error, rollback, log } => {
                    self.storage
                        .finish_interrupted(&item.id, &error, &rollback, &log, NOW);
                }
                Recovery::Look(service) => {
                    let listed = Operation::Ps.result(self.run()).map(|log| ids(&log));
                    let inspected = match &listed {
                        Ok(found) if !found.is_empty() => inspection(
                            found,
                            inspect_log(self.run()).and_then(|log| read_containers(&log)),
                        ),
                        _ => Err(String::new()),
                    };
                    let actual = runtime(&listed, inspected);
                    let task = Task::resume(&item, "app", &service, &artifact, &actual);
                    self.finish(task);
                }
            }
        }
    }
}

fn queued(id: &str) -> Deployment {
    Deployment {
        id: id.into(),
        project_id: "app".into(),
        service_id: "identity".into(),
        operation: "deploy".into(),
        previous_version: None,
        target_version: "1.2.3".into(),
        status: "queued".into(),
        started_at: NOW.into(),
        finished_at: None,
        command_log: String::new(),
        error_message: None,
        rollback_status: None,
    }
}

fn available(versions: &[&str]) -> Vec<PackageVersion> {
    versions
        .iter()
        .map(|version| PackageVersion {
            version: version.to_string(),
            source_id: String::new(),
            digest: None,
            created_at: None,
            updated_at: None,
        })
        .collect()
}

#[test]
fn persists_success_after_healthy_container() {
    let inspect = r#"[{"Image":"sha256:image","Config":{"Image":"ghcr.io/owner/identity@sha256:digest","Healthcheck":null},"State":{"Status":"running","Health":null}}]"#;
    let mut world = world(vec![
        output(true, "pull"),
        output(
            true,
            r#"[{"Id":"sha256:image","RepoDigests":["ghcr.io/owner/identity@sha256:digest"]}]"#,
        ),
        output(true, "up"),
        output(true, "container\n"),
        output(true, inspect),
    ]);
    let item = queued("one");
    world.storage.create_deployment(&item).unwrap();
    let task = Task::run(&item, "app", &world.service, true);
    world.finish(task);
    let stored = world.storage.deployment(&item.id).unwrap();
    assert_eq!(stored.status, "succeeded");
    assert_eq!(stored.rollback_status.as_deref(), Some("not_needed"));
    assert!(stored.command_log.contains("== 拉取镜像 =="));
    assert!(stored.command_log.contains("容器状态：running"));
    assert!(!stored.command_log.contains(inspect));
    assert_eq!(
        stored.command_log,
        "== 拉取镜像 ==\npull\n\n== 启动容器 ==\nup\n\n== 检查容器状态 ==\n容器状态：running\n"
    );
    assert_eq!(
        world.storage.state("app", "identity").unwrap().desired_version,
        "1.2.3"
    );
    assert_eq!(
        world.override_text,
        "services:\n  identity:\n    image: ghcr.io/owner/identity@sha256:digest\n"
    );
}

#[test]
fn startup_recovery_commits_a_healthy_verified_candidate() {
    let inspect = r#"[{"Image":"sha256:image","Config":{"Image":"ghcr.io/owner/identity@sha256:digest","Healthcheck":null},"State":{"Status":"running","Health":null}}]"#;
    let mut world = world(vec![output(true, "container\n"), output(true, inspect)]);
    let item = queued("one");
    world.storage.create_deployment(&item).unwrap();
    world.storage.mark_running(&item.id);
    world.storage.set_phase(&item.id, "checking");
    world.storage.set_target_artifact(
        &item.id,
        "ghcr.io/owner/identity:1.2.3",
        "ghcr.io/owner/identity@sha256:digest",
        "sha256:digest",
        "sha256:image",
    );

    world.recover();

    let deployment = world.storage.deployment(&item.id).unwrap();
    assert_eq!(deployment.status, "succeeded");
    let service = world.storage.state("app", "identity").unwrap();
    assert_eq!(service.image_digest, "sha256:digest");
    assert_eq!(service.image_id, "sha256:image");
    assert!(world.override_text.contains("ghcr.io/owner/identity@sha256:digest"));
}

#[test]
fn startup_recovery_undoes_what_it_cannot_confirm() {
    let other = r#"[{"Image":"sha256:other","Config":{"Image":"x","Healthcheck":null},"State":{"Status":"running","Health":null}}]"#;
    for (phase, up, status) in [("checking", true, "succeeded"), ("pulling", false, "failed")] {
        let mut outputs = vec![output(true, "container\n"), output(true, other), output(up, "up")];
        if up {
            outputs.extend([output(true, "container\n"), output(true, other)]);
        }
        let mut world = world(outputs);
        let item = queued("one");
        world.storage.create_deployment(&item).unwrap();
        world.storage.mark_running(&item.id);
        world.storage.set_phase(&item.id, phase);
        world
            .storage
            .set_target_artifact(&item.id, "i", "p", "sha256:d", "sha256:image");
        world.recover();
        let stored = world.storage.deployment(&item.id).unwrap();
        assert_eq!(stored.status, "interrupted");
        assert_eq!(stored.rollback_status.as_deref(), Some(status));
        assert!(stored.command_log.starts_with(
            "管理程序重启后无法确认候选部署已安全完成\n\n== 恢复已提交版本 ==\n"
        ));
        assert_eq!(
            stored.error_message.as_deref(),
            Some(if up {
                "中断部署已恢复到上一个已提交版本"
            } else {
                "中断部署恢复失败，需要人工检查"
            })
        );
        assert!(world.storage.state("app", "identity").is_none());
    }
}

#[test]
fn startup_recovery_names_what_it_cannot_look_at() {
    let world = world(Vec::new());
    let mut item = queued("one");
    let project = Some(world.project.duplicate());
    let reason = |item: &Deployment, project: &Option<ProjectConfig>| match recover_interrupted(
        item, project,
    ) {
        Recovery::Interrupt { error, rollback, .. } => (error, rollback),
        Recovery::Look(service) => (service.id, String::new()),
    };
    assert_eq!(
        reason(&item, &None),
        ("启动恢复时 Compose 项目已不存在".into(), "unavailable".into())
    );
    assert_eq!(
        reason(&item, &project),
        ("管理程序重启，尚未开始的操作已取消".into(), "not_needed".into())
    );
    item.status = "running".into();
    assert_eq!(reason(&item, &project).0, "identity");
    item.operation = "stop".into();
    assert_eq!(
        reason(&item, &project),
        (
            "管理程序在生命周期操作期间重启，请检查容器当前状态".into(),
            "unavailable".into()
        )
    );
    item.service_id = "gone".into();
    assert_eq!(
        reason(&item, &project),
        ("启动恢复时 Compose 服务已不存在".into(), "unavailable".into())
    );
}

#[test]
fn rollback_restores_the_previous_successful_artifact() {
    let inspect = r#"[{"Image":"sha256:image-one","Config":{"Image":"ghcr.io/owner/identity@sha256:one","Healthcheck":null},"State":{"Status":"running","Health":null}}]"#;
    let mut world = world(vec![
        output(true, "up"),
        output(true, "container\n"),
        output(true, inspect),
    ]);
    world.persist_success("first", "1.0.0", "sha256:one", "sha256:image-one");
    world.persist_success("second", "2.0.0", "sha256:two", "sha256:image-two");

    let (operation, revision, _) =
        enqueue_rollback(&mut world.storage, "third", NOW, "app", "identity").unwrap();
    assert_eq!(operation.previous_version.as_deref(), Some("2.0.0"));
    assert_eq!(operation.target_version, "1.0.0");
    let task = Task::run_revision(&operation, "app", &world.service, &revision, true);
    world.finish(task);
    let operation = world.storage.deployment(&operation.id).unwrap();
    assert_eq!(operation.status, "succeeded");
    assert_eq!(operation.operation, "rollback");
    let current = world.storage.state("app", "identity").unwrap();
    assert_eq!(current.desired_version, "1.0.0");
    assert_eq!(current.image_digest, "sha256:one");
    assert_eq!(
        operation.command_log,
        "== 恢复上一个成功版本 ==\nup\n\n== 检查回滚后的容器状态 ==\n容器状态：running\n"
    );
}

#[test]
fn failed_rollback_records_failed_when_current_version_cannot_be_restored() {
    let mut world = world(vec![
        output(false, "rollback target failed"),
        output(false, "current version restore failed"),
    ]);
    world.persist_success("first", "1.0.0", "sha256:one", "sha256:image-one");
    world.persist_success("second", "2.0.0", "sha256:two", "sha256:image-two");

    let (operation, revision, _) =
        enqueue_rollback(&mut world.storage, "third", NOW, "app", "identity").unwrap();
    let task = Task::run_revision(&operation, "app", &world.service, &revision, true);
    world.finish(task);

    let operation = world.storage.deployment(&operation.id).unwrap();
    assert_eq!(operation.status, "failed");
    assert_eq!(operation.rollback_status.as_deref(), Some("failed"));
    assert!(operation.command_log.contains("current version restore failed"));
    assert!(operation.command_log.contains("回退失败"));
    assert_eq!(
        operation.error_message.as_deref(),
        Some("docker compose up 执行失败\nrollback target failed")
    );
    assert_eq!(
        world.storage.state("app", "identity").unwrap().desired_version,
        "2.0.0"
    );
}

#[test]
fn failed_deploy_rolls_back_only_its_project() {
    let inspect = r#"[{"Config":{"Image":"base:latest","Healthcheck":null},"State":{"Status":"running","Health":null}}]"#;
    let mut world = world(vec![
        output(false, "candidate failed"),
        output(true, "application panic\n"),
        output(true, "rollback up"),
        output(true, "container\n"),
        output(true, inspect),
    ]);
    let item = queued("one");
    world.storage.create_deployment(&item).unwrap();
    let task = Task::run(&item, "app", &world.service, true);
    world.finish(task);
    let stored = world.storage.deployment(&item.id).unwrap();
    assert_eq!(stored.status, "failed");
    assert_eq!(stored.rollback_status.as_deref(), Some("succeeded"));
    assert!(stored.command_log.contains("== 容器最近 50 行日志 =="));
    assert!(stored.command_log.contains("application panic"));
    assert!(!stored.command_log.contains(inspect));
    assert!(world.storage.state("app", "identity").is_none());
    assert_eq!(
        stored.command_log,
        "== 拉取镜像 ==\n\n部署失败: docker compose pull 执行失败\ncandidate failed\n\n\
         == 容器最近 50 行日志 ==\napplication panic\n\n== 开始回退 ==\n\n\
         == 恢复上一版本容器 ==\nrollback up\n\n== 检查回退后的容器状态 ==\n容器状态：running\n"
    );
}

#[test]
fn container_log_failure_does_not_hide_original_deploy_error() {
    let inspect = r#"[{"Config":{"Image":"base:latest","Healthcheck":null},"State":{"Status":"running","Health":null}}]"#;
    let mut world = world(vec![
        output(false, "candidate failed"),
        output(false, "logs unavailable"),
        output(true, "rollback up"),
        output(true, "container\n"),
        output(true, inspect),
    ]);
    let item = queued("one");
    world.storage.create_deployment(&item).unwrap();
    let task = Task::run(&item, "app", &world.service, true);
    world.finish(task);

    let stored = world.storage.deployment(&item.id).unwrap();
    assert_eq!(stored.status, "failed");
    assert!(stored
        .error_message
        .as_deref()
        .unwrap()
        .contains("candidate failed"));
    assert!(stored.command_log.contains("无法读取容器日志"));
    assert!(stored.command_log.contains("logs unavailable"));
    assert!(!stored.command_log.contains(inspect));
}

#[test]
fn silent_containers_are_noted() {
    let mut world = world(vec![
        output(false, "x"),
        output(true, " \n\t\n"),
        output(false, "y"),
    ]);
    let item = queued("one");
    world.storage.create_deployment(&item).unwrap();
    let task = Task::run(&item, "app", &world.service, true);
    world.finish(task);
    let stored = world.storage.deployment(&item.id).unwrap();
    assert!(stored.command_log.contains("（容器暂无日志）\n"));
    assert_eq!(stored.rollback_status.as_deref(), Some("failed"));
}

#[test]
fn lifecycle_operations_preserve_version_and_write_history() {
    let inspect = r#"[{"Config":{"Image":"ghcr.io/owner/identity:1.2.3","Healthcheck":null},"State":{"Status":"running","Health":null}}]"#;
    let mut world = world(Vec::new());
    world.persist_success(
        "baseline",
        "1.2.3",
        "sha256:baseline",
        "sha256:image-baseline",
    );
    for (action, outputs) in [
        (
            LifecycleAction::Recreate,
            vec![
                output(true, "recreate"),
                output(true, "container\n"),
                output(true, inspect),
            ],
        ),
        (LifecycleAction::Stop, vec![output(true, "stop")]),
        (LifecycleAction::Down, vec![output(true, "remove")]),
    ] {
        world.outputs = outputs;
        let (item, _) = enqueue_lifecycle(
            &mut world.storage,
            action.as_str(),
            NOW,
            "app",
            "identity",
            action,
        )
        .unwrap();
        assert_eq!(item.previous_version.as_deref(), Some("1.2.3"));
        assert_eq!(item.target_version, "1.2.3");
        let task = Task::run_lifecycle(&item, "app", &world.service, action, true);
        world.finish(task);
        let stored = world.storage.deployment(&item.id).unwrap();
        assert_eq!(stored.status, "succeeded");
        assert_eq!(stored.operation, action.as_str());
        assert_eq!(stored.rollback_status.as_deref(), Some("not_needed"));
        assert!(!stored.command_log.contains(inspect));
    }
    assert_eq!(
        world.storage.state("app", "identity").unwrap().desired_version,
        "1.2.3"
    );
}

#[test]
fn failed_lifecycle_operations_are_not_undone() {
    let mut world = world(vec![output(false, "cannot stop"), output(true, "last words")]);
    let (item, _) = enqueue_lifecycle(
        &mut world.storage,
        "one",
        NOW,
        "app",
        "identity",
        LifecycleAction::Stop,
    )
    .unwrap();
    assert_eq!(item.target_version, "");
    let task = Task::run_lifecycle(&item, "app", &world.service, LifecycleAction::Stop, true);
    world.finish(task);
    let stored = world.storage.deployment("one").unwrap();
    assert_eq!(stored.status, "failed");
    assert_eq!(stored.rollback_status.as_deref(), Some("unavailable"));
    assert_eq!(
        stored.command_log,
        "== 停止容器 ==\n\n操作失败: docker compose 停止服务失败\ncannot stop\n\n\
         == 容器最近 50 行日志 ==\nlast words\n"
    );
}

#[test]
fn missing_projects_fail_without_any_command() {
    let mut world = world(Vec::new());
    let item = queued("one");
    world.storage.create_deployment(&item).unwrap();
    let task = Task::run(&item, "app", &world.service, false);
    world.finish(task);
    let stored = world.storage.deployment("one").unwrap();
    assert_eq!(stored.status, "failed");
    assert_eq!(
        stored.error_message.as_deref(),
        Some("Compose 项目运行时不存在")
    );
    assert_eq!(stored.rollback_status.as_deref(), Some("failed"));
}

#[test]
fn commits_that_fail_are_undone() {
    let world = world(Vec::new());
    let item = queued("one");
    let mut task = Task::run(&item, "app", &world.service, true);
    let mut undone = false;
    while !matches!(task.action(), Action::Finished) {
        let event = match task.action() {
            Action::RecordSuccess { .. } => Event::Failed("disk is full".into()),
            Action::RecordFailure { error, rollback, .. } => {
                assert_eq!(error, "容器已启动但无法提交部署状态: disk is full");
                assert_eq!(rollback, "succeeded");
                undone = true;
                Event::Done
            }
            Action::InspectImage { image, repository } => Event::Artifact(
                image_artifact(
                    &image,
                    &repository,
                    &vec![ImageInspect {
                        id: "sha256:i".into(),
                        repo_digests: vec![format!("{repository}@sha256:d")],
                    }],
                )
                .unwrap(),
            ),
            Action::Run(_) | Action::Wait(_) => Event::Output(String::new()),
            _ => Event::Done,
        };
        // What does not answer the action changes nothing.
        let before = format!("{task:?}");
        task.handle(&match &event {
            Event::Artifact(_) => Event::Done,
            _ => Event::Artifact(ImageArtifact {
                image: "stray".into(),
                pinned_image: "stray".into(),
                digest: "stray".into(),
                image_id: "stray".into(),
            }),
        });
        assert_eq!(format!("{task:?}"), before);
        task.handle(&event);
    }
    assert!(undone);
}

#[test]
fn system_update_blocks_new_service_operations() {
    let world = world(Vec::new());
    let mut updates = UpdateManager::new("/data".into(), true, NOW);
    assert!(updates.begin(false));
    let project = Some(world.project.duplicate());
    assert!(matches!(
        check_admission(updates.is_active(false), &project, true, "identity"),
        Err(AppError::Updating)
    ));
    let mut wish = Wish::new("app", "identity", "1.2.3");
    wish.handle(&admission(&world, updates.is_active(false), true));
    assert!(matches!(wish.action(), WishAction::Refuse(AppError::Updating)));
    updates.cancel();
    assert!(check_admission(updates.is_active(false), &project, true, "identity").is_ok());
}

fn admission(world: &World, updating: bool, idle: bool) -> WishEvent {
    WishEvent::Admission {
        updating,
        project: Some(world.project.duplicate()),
        idle,
    }
}

#[test]
fn deployments_are_recorded_from_a_fresh_list() {
    let mut world = world(Vec::new());
    let mut wish = Wish::new("app", "identity", "1.2.3");
    assert!(matches!(wish.action(), WishAction::Admit));
    wish.handle(&WishEvent::Versions(Ok(available(&["1.2.3"]))));
    assert!(matches!(wish.action(), WishAction::Admit));
    assert!(wish.record(&mut world.storage, "one", NOW).is_none());
    wish.handle(&admission(&world, false, true));
    match wish.action() {
        WishAction::ReadVersions {
            cache_key,
            source: VersionSourceConfig::OciRegistry { registry, repository },
            pattern,
            refresh,
        } => {
            assert_eq!(cache_key, "app/identity");
            assert_eq!(registry, "ghcr.io");
            assert_eq!(repository, "owner/identity");
            assert_eq!(pattern, r"^\d+\.\d+\.\d+$");
            assert!(refresh);
        }
        _ => panic!("the versions should be read"),
    }
    assert!(wish.service().is_none());
    assert!(wish.record(&mut world.storage, "one", NOW).is_none());
    assert!(world.storage.deployments(10).is_empty());
    wish.handle(&WishEvent::Versions(Ok(available(&["1.2.2", "1.2.3"]))));
    assert!(matches!(wish.action(), WishAction::Record));
    assert_eq!(wish.service().unwrap().id, "identity");
    let (item, _) = wish.record(&mut world.storage, "one", NOW).unwrap().unwrap();
    assert_eq!(item.target_version, "1.2.3");
    assert_eq!(item.project_id, "app");
    assert_eq!(world.storage.deployment("one").unwrap().status, "queued");
}

#[test]
fn wishes_are_refused_with_a_reason() {
    let mut world = world(Vec::new());
    let after = |events: &[WishEvent], service: &str, version: &str| {
        let mut wish = Wish::new("app", service, version);
        for event in events {
            wish.handle(event);
        }
        wish
    };
    assert!(matches!(
        after(&[admission(&world, false, false)], "identity", "1.2.3").action(),
        WishAction::Refuse(AppError::Busy)
    ));
    assert!(matches!(
        after(&[admission(&world, false, true)], "other", "1.2.3").action(),
        WishAction::Refuse(AppError::NotFound)
    ));
    assert!(matches!(
        after(&[admission(&world, false, true)], "identity", "latest").action(),
        WishAction::Refuse(AppError::Invalid(message)) if message == "版本格式不符合服务规则"
    ));
    let unread = WishEvent::Versions(Err(AppError::Package("无法连接 Registry".into())));
    assert!(matches!(
        after(&[admission(&world, false, true), unread], "identity", "1.2.3").action(),
        WishAction::Refuse(AppError::Package(message)) if message == "无法连接 Registry"
    ));
    let listed = WishEvent::Versions(Ok(available(&["1.2.2"])));
    let wish = after(&[admission(&world, false, true), listed], "identity", "1.2.3");
    assert!(matches!(
        wish.record(&mut world.storage, "one", NOW),
        Some(Err(AppError::VersionNotFound(version))) if version == "1.2.3"
    ));
    assert!(world.storage.deployments(10).is_empty());
    assert!(matches!(
        admit_wish(Err(AppError::Busy), Err(AppError::NotFound)),
        WishState::Refused(AppError::Busy)
    ));
    assert!(matches!(
        admit_wish(Ok(world.service.duplicate()), Err(AppError::NotFound)),
        WishState::Refused(AppError::NotFound)
    ));
    assert!(matches!(
        admit_wish(Ok(world.service.duplicate()), Ok(())),
        WishState::Admitted(service) if service.id == "identity"
    ));
}

#[test]
fn operations_are_refused_with_a_reason() {
    let mut world = world(Vec::new());
    let project = Some(world.project.duplicate());
    assert!(matches!(
        check_admission(false, &None, true, "identity"),
        Err(AppError::NotFound)
    ));
    assert!(matches!(
        check_admission(false, &project, false, "identity"),
        Err(AppError::Busy)
    ));
    assert!(matches!(
        check_admission(false, &project, true, "unknown"),
        Err(AppError::NotFound)
    ));
    assert_eq!(
        check_admission(false, &project, true, "identity").unwrap().id,
        "identity"
    );
    assert!(matches!(check_project(true, false, false), Err(AppError::Updating)));
    assert!(matches!(check_project(false, false, false), Err(AppError::NotFound)));
    assert!(matches!(check_project(false, true, false), Err(AppError::Busy)));
    assert!(check_project(false, true, true).is_ok());
    assert!(judge_version(None, true).is_ok());
    assert!(matches!(judge_version(None, false), Err(AppError::Invalid(_))));
    assert!(matches!(
        judge_version(Some("bad".into()), true),
        Err(AppError::Internal(message)) if message == "bad"
    ));
    assert!(check_version(&world.service, "1.2.3").is_ok());
    assert!(matches!(
        check_version(&world.service, "latest"),
        Err(AppError::Invalid(message)) if message == "版本格式不符合服务规则"
    ));
    world.service.tag_pattern = "(".into();
    assert!(matches!(
        check_version(&world.service, "1.2.3"),
        Err(AppError::Internal(_))
    ));
    assert!(matches!(
        enqueue_rollback(&mut world.storage, "one", NOW, "app", "identity"),
        Err(AppError::Invalid(message)) if message == "当前服务还没有可回滚的部署基线"
    ));
    world.persist_success("first", "1.0.0", "sha256:one", "sha256:image-one");
    assert!(matches!(
        enqueue_rollback(&mut world.storage, "one", NOW, "app", "identity"),
        Err(AppError::Invalid(message)) if message == "没有找到上一个成功部署版本"
    ));
    assert!(matches!(
        enqueue(
            &mut world.storage,
            "one",
            NOW,
            "app",
            "identity",
            "3.0.0",
            &available(&["2.0.0"])
        ),
        Err(AppError::VersionNotFound(version)) if version == "3.0.0"
    ));
    let (item, changes) = enqueue(
        &mut world.storage,
        "one",
        NOW,
        "app",
        "identity",
        "2.0.0",
        &available(&["2.0.0"]),
    )
    .unwrap();
    assert_eq!(item.previous_version.as_deref(), Some("1.0.0"));
    assert_eq!(item.operation, "deploy");
    assert!(!changes.is_empty());
    assert_eq!(world.storage.deployment("one").unwrap().status, "queued");
}

#[test]
fn removed_service_state_is_preserved_but_excluded_from_override() {
    let mut world = world(Vec::new());
    world.persist_success("one", "1.2.3", "sha256:digest", "sha256:image");
    assert_eq!(
        images_from_db(&world.storage, &world.project),
        [(
            "identity".to_string(),
            "ghcr.io/owner/identity@sha256:digest".to_string()
        )]
    );
    world.project.services = vec![ServiceConfig {
        id: "replacement".into(),
        image: "nginx".into(),
        tag_pattern: "^.+$".into(),
        version_source: VersionSourceConfig::DockerHub {
            namespace: "library".into(),
            repository: "nginx".into(),
        },
    }];

    let text = rebuild_project_override(&world.storage, &world.project).unwrap();

    assert!(world.storage.state("app", "identity").is_some());
    let yaml: serde_yaml::Value = serde_yaml::from_str(&text).unwrap();
    assert!(yaml["services"].as_mapping().unwrap().is_empty());
}

#[test]
fn container_logs_are_not_waited_for_too_long() {
    let mut project = world(Vec::new()).project;
    assert_eq!(log_timeout(&project), 1);
    project.command_timeout_seconds = 600;
    assert_eq!(log_timeout(&project), 30);
    assert_eq!(operation_timeout(&project, &Operation::Logs { tail: 50 }), 30);
    assert_eq!(operation_timeout(&project, &Operation::Up), 600);
}
