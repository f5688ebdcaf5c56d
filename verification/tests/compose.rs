use windplume_deploy::compose::{
    absent_state, ids, image_artifact, inspect_image_log, inspect_log, inspection, ps_log,
    repositories_match, resolve_invocation, resolve_log, resolve_project, runtime, runtimes,
    summarize, wait_healthy, wait_healthy_image, wait_healthy_listed, write_image_override, CommandOutput, Compose, ComposeHandle, ComposeSet, ImageInspect,
    Inspect, Operation, RuntimeState, Wait,
};
use windplume_deploy::config::{ProjectConfig, ServiceConfig, VersionSourceConfig};

/// Reads the output of `docker inspect`.
fn read_containers(log: &str) -> Result<Vec<Inspect>, String> {
    let values: Vec<serde_json::Value> =
        serde_json::from_str(log).map_err(|error| error.to_string())?;
    let text = |value: &serde_json::Value| value.as_str().map(str::to_owned);
    Ok(values
        .iter()
        .map(|value| Inspect {
            image: text(&value["Image"]).unwrap_or_default(),
            config_image: text(&value["Config"]["Image"]).unwrap_or_default(),
            has_healthcheck: !value["Config"]["Healthcheck"].is_null(),
            health: text(&value["State"]["Health"]["Status"]),
            status: text(&value["State"]["Status"]).unwrap_or_default(),
            service: text(&value["Config"]["Labels"]["com.docker.compose.service"]),
        })
        .collect())
}

fn output(success: bool, log: &str) -> Result<CommandOutput, String> {
    Ok(CommandOutput {
        success,
        log: log.into(),
    })
}

fn project(id: &str, files: &[&str]) -> ProjectConfig {
    ProjectConfig {
        compose_files: files.iter().map(|file| file.to_string()).collect(),
        health_timeout_seconds: 1,
        command_timeout_seconds: 1,
        id: id.into(),
        services: Vec::new(),
    }
}

fn service(id: &str, image: &str) -> ServiceConfig {
    ServiceConfig {
        id: id.into(),
        image: image.into(),
        tag_pattern: ".*".into(),
        version_source: VersionSourceConfig::OciRegistry {
            registry: "ghcr.io".into(),
            repository: "o/i".into(),
        },
    }
}

/// What is read of one service from the output of `ps` and, where it names containers, of
/// `inspect`.
fn look(outputs: &mut Vec<Result<CommandOutput, String>>) -> RuntimeState {
    let listed = Operation::Ps.result(outputs.remove(0)).map(|log| ids(&log));
    let inspected = match &listed {
        Ok(found) if !found.is_empty() => {
            let read = inspect_log(outputs.remove(0)).and_then(|log| read_containers(&log));
            inspection(found, read)
        }
        _ => Err("nothing to inspect".into()),
    };
    runtime(&listed, inspected)
}

#[test]
fn stable_override() {
    let mut project = project("demo", &["/srv/compose.yaml"]);
    project.services = vec![service("a", "ghcr.io/o/i")];
    let images = vec![("a".to_string(), "ghcr.io/o/i@sha256:digest".to_string())];
    let text = write_image_override(&project, &images).unwrap();
    assert!(text.contains("ghcr.io/o/i@sha256:digest"));
    assert_eq!(text, "services:\n  a:\n    image: ghcr.io/o/i@sha256:digest\n");
    let read: serde_yaml::Value = serde_yaml::from_str(&text).unwrap();
    assert_eq!(read["services"]["a"]["image"], "ghcr.io/o/i@sha256:digest");
}

#[test]
fn override_lists_services_in_order_and_only_known_ones() {
    let mut project = project("demo", &["/srv/compose.yaml"]);
    project.services = vec![service("b", "i/b"), service("a", "i/a")];
    let image = |id: &str| (id.to_string(), format!("i/{id}:1"));
    let text = write_image_override(&project, &vec![image("b"), image("a")]).unwrap();
    assert_eq!(text, "services:\n  a:\n    image: i/a:1\n  b:\n    image: i/b:1\n");
    let again = vec![image("a"), image("b"), ("a".to_string(), "i/a:2".to_string())];
    assert_eq!(
        write_image_override(&project, &again).unwrap(),
        "services:\n  a:\n    image: i/a:2\n  b:\n    image: i/b:1\n"
    );
    assert_eq!(
        write_image_override(&project, &vec![image("a"), image("y"), image("z")]).unwrap_err(),
        "未知服务状态 y"
    );
    let empty = write_image_override(&project, &Vec::new()).unwrap();
    assert_eq!(empty, "services: {}\n");
    let read: serde_yaml::Value = serde_yaml::from_str(&empty).unwrap();
    assert!(read["services"].as_mapping().unwrap().is_empty());
}

#[test]
fn parses_healthcheck_and_no_healthcheck_states() {
    let mut outputs = vec![
        output(true, "one\n"),
        output(
            true,
            r#"[{"Config":{"Image":"image:1","Healthcheck":{"Test":["CMD","true"]}},"State":{"Status":"running","Health":{"Status":"healthy"}}}]"#,
        ),
        output(true, "two\n"),
        output(
            true,
            r#"[{"Config":{"Image":"image:2","Healthcheck":null},"State":{"Status":"running","Health":null}}]"#,
        ),
        output(true, "three\n"),
        output(
            true,
            r#"[{"Config":{"Image":"image:3","Healthcheck":{"Test":["CMD","false"]}},"State":{"Status":"running","Health":{"Status":"unhealthy"}}}]"#,
        ),
        output(true, ""),
        output(false, "no such project"),
        output(true, "four\n"),
        output(false, "no such container"),
    ];
    assert_eq!(look(&mut outputs).container_status, "healthy");
    assert_eq!(look(&mut outputs).container_status, "running");
    assert_eq!(look(&mut outputs).container_status, "unhealthy");
    assert_eq!(look(&mut outputs).container_status, "down");
    assert_eq!(look(&mut outputs).container_status, "unknown");
    assert_eq!(look(&mut outputs).container_status, "unknown");
    assert!(outputs.is_empty());
}

#[test]
fn batches_project_runtime_and_detects_mixed_replicas() {
    let found = ids(&ps_log(output(true, "one\ntwo\n")).unwrap());
    assert_eq!(found, ["one", "two"]);
    let log = inspect_log(output(
        true,
        r#"[
            {"Image":"sha256:one","Config":{"Image":"repo/app@sha256:one","Healthcheck":null,"Labels":{"com.docker.compose.service":"api"}},"State":{"Status":"running","Health":null}},
            {"Image":"sha256:two","Config":{"Image":"repo/app@sha256:two","Healthcheck":null,"Labels":{"com.docker.compose.service":"api"}},"State":{"Status":"running","Health":null}}
        ]"#,
    ))
    .unwrap();
    let states = runtimes(&read_containers(&log).unwrap());
    assert_eq!(states.len(), 1);
    assert_eq!(states[0].0, "api");
    let api = &states[0].1;
    assert_eq!(api.replicas, 2);
    assert!(api.mixed_images);
    assert!(api.actual_image.is_none());
    assert!(api.actual_image_id.is_none());
}

#[test]
fn containers_are_grouped_by_service_in_order() {
    let container = |service: Option<&str>, status: &str| Inspect {
        image: "sha256:x".into(),
        config_image: "x:1".into(),
        has_healthcheck: false,
        health: None,
        status: status.into(),
        service: service.map(str::to_owned),
    };
    let states = runtimes(&vec![
        container(Some("web"), "running"),
        container(None, "exited"),
        container(Some("api"), "running"),
        container(Some("web"), "exited"),
    ]);
    assert_eq!(
        states.iter().map(|(id, _)| id.as_str()).collect::<Vec<_>>(),
        ["api", "web"]
    );
    assert_eq!(states[0].1.replicas, 1);
    assert_eq!(states[0].1.container_status, "running");
    assert_eq!(states[1].1.replicas, 2);
    assert_eq!(states[1].1.container_status, "exited");
    assert_eq!(states[1].1.actual_image.as_deref(), Some("x:1"));
}

#[test]
fn resolves_compose_project_and_image_services() {
    let project = project("", &["/srv/demo/compose.yaml"]);
    let log = resolve_log(
        &project,
        output(
            true,
            r#"{"name":"demo","services":{"api":{"image":"ghcr.io/me/api:1.2.3"},"local":{"build":{"context":"."}}}}"#,
        ),
    )
    .unwrap();
    let value: serde_json::Value = serde_json::from_str(&log).unwrap();
    let services = value["services"]
        .as_object()
        .unwrap()
        .iter()
        .map(|(id, service)| (id.clone(), service["image"].as_str().map(str::to_owned)))
        .collect();
    let resolved =
        resolve_project(&project, value["name"].as_str().unwrap().into(), &services).unwrap();
    assert_eq!(resolved.id, "demo");
    assert_eq!(resolved.services.len(), 1);
    assert_eq!(resolved.services[0].id, "api");
    assert_eq!(resolved.services[0].image, "ghcr.io/me/api");
    assert_eq!(resolved.compose_files, project.compose_files);
}

#[test]
fn unresolvable_projects_are_reported() {
    let project = project("old", &["/srv/a.yaml", "/srv/b.yaml"]);
    assert_eq!(
        resolve_log(&project, output(false, "bad file")).unwrap_err(),
        "无法解析 Compose 项目 /srv/a.yaml\nbad file"
    );
    assert_eq!(
        resolve_log(&project, Err("命令执行超时".into())).unwrap_err(),
        "命令执行超时"
    );
    assert_eq!(
        resolve_project(&project, " \t".into(), &Vec::new()).unwrap_err(),
        "docker compose config 未返回项目名"
    );
    let bad = vec![("api".to_string(), Some("ghcr.io".to_string()))];
    assert_eq!(
        resolve_project(&project, "new".into(), &bad).unwrap_err(),
        "服务 api 的 image 缺少 repository: ghcr.io"
    );
    let blank = vec![("api".to_string(), Some("  ".to_string()))];
    assert!(resolve_project(&project, "new".into(), &blank).unwrap().services.is_empty());
    let asked = resolve_invocation(&project);
    assert_eq!(asked.cwd, "/srv");
    assert_eq!(
        asked.args,
        [
            "compose",
            "--project-directory",
            "/srv",
            "-f",
            "/srv/a.yaml",
            "-f",
            "/srv/b.yaml",
            "config",
            "--format",
            "json"
        ]
    );
}

#[test]
fn service_commands_preserve_file_order_project_dir_and_log_tail() {
    let base = "/srv/demo/compose.yaml";
    let production = "/srv/demo/compose.production.yaml";
    let compose = Compose::new(
        project("demo", &[base, production]),
        "/srv/demo/state/compose.deploy.yaml".into(),
    );
    let pull = compose.pull("api");
    assert_eq!(pull.cwd, "/srv/demo");
    let args = &pull.args;
    assert_eq!(args.last().unwrap(), "api");
    assert_eq!(args[1..3], ["--project-name", "demo"]);
    let base_at = args.iter().position(|arg| arg == base).unwrap();
    let production_at = args.iter().position(|arg| arg == production).unwrap();
    let override_at = args
        .iter()
        .position(|arg| arg.ends_with("compose.deploy.yaml"))
        .unwrap();
    assert!(base_at < production_at && production_at < override_at);
    assert_eq!(args[args.len() - 2], "pull");
    let logs = compose.logs("api", 200);
    assert_eq!(logs.cwd, "/srv/demo");
    assert_eq!(
        &logs.args[logs.args.len() - 5..],
        ["logs", "--no-color", "--tail", "200", "api"]
    );
    let recreate = compose.recreate("api");
    assert_eq!(
        &recreate.args[recreate.args.len() - 5..],
        ["up", "-d", "--force-recreate", "--no-deps", "api"]
    );
    assert!(!recreate.args.iter().any(|arg| arg == "pull"));
    let stop = compose.stop("api");
    assert_eq!(&stop.args[stop.args.len() - 2..], ["stop", "api"]);
    let remove = compose.remove("api");
    assert_eq!(
        &remove.args[remove.args.len() - 4..],
        ["rm", "--stop", "--force", "api"]
    );
}

#[test]
fn every_operation_has_its_command_and_its_failure() {
    let compose = Compose::new(project("demo", &["/srv/c.yaml"]), "/state/o.yaml".into());
    let base = [
        "compose",
        "--project-name",
        "demo",
        "--project-directory",
        "/srv",
        "-f",
        "/srv/c.yaml",
        "-f",
        "/state/o.yaml",
    ];
    for (operation, tail, failure) in [
        (Operation::Pull, vec!["pull", "a"], "docker compose pull 执行失败\nx"),
        (
            Operation::Up,
            vec!["up", "-d", "--no-deps", "a"],
            "docker compose up 执行失败\nx",
        ),
        (
            Operation::Recreate,
            vec!["up", "-d", "--force-recreate", "--no-deps", "a"],
            "docker compose 重建服务失败\nx",
        ),
        (Operation::Stop, vec!["stop", "a"], "docker compose 停止服务失败\nx"),
        (
            Operation::Remove,
            vec!["rm", "--stop", "--force", "a"],
            "docker compose 下线服务失败\nx",
        ),
        (
            Operation::Logs { tail: 7 },
            vec!["logs", "--no-color", "--tail", "7", "a"],
            "docker compose logs 执行失败\nx",
        ),
        (Operation::Ps, vec!["ps", "-q", "a"], "docker compose ps 执行失败\nx"),
    ] {
        let asked = compose.invocation(&operation, "a");
        assert_eq!(asked.args[..base.len()], base);
        assert_eq!(asked.args[base.len()..], tail);
        assert_eq!(asked.cwd, "/srv");
        assert_eq!(operation.result(output(false, "x")).unwrap_err(), failure);
        assert_eq!(operation.result(output(true, "x")).unwrap(), "x");
        assert_eq!(operation.result(Err("timeout".into())).unwrap_err(), "timeout");
    }
    assert_eq!(compose.ps_all().args[base.len()..], ["ps", "-q"]);
    assert_eq!(compose.up("a").args, compose.invocation(&Operation::Up, "a").args);
    assert_eq!(compose.ps("a").args, compose.invocation(&Operation::Ps, "a").args);
    let inspect = compose.inspect(&vec!["one".into(), "two".into()]).unwrap();
    assert_eq!(inspect.args, ["inspect", "one", "two"]);
    assert_eq!(inspect.cwd, "/srv");
    assert!(compose.inspect(&Vec::new()).is_none());
    assert_eq!(compose.inspect_image("a:1").args, ["image", "inspect", "a:1"]);
    assert_eq!(inspect_log(output(false, "x")).unwrap_err(), "docker inspect 执行失败");
    assert_eq!(ps_log(output(false, "x")).unwrap_err(), "docker compose ps 执行失败");
    assert_eq!(
        inspect_image_log(output(false, "x")).unwrap_err(),
        "无法检查已拉取镜像\nx"
    );
}

#[test]
fn copies_of_a_handle_share_one_configuration() {
    let mut set = ComposeSet::new();
    let compose = |id: &str| Compose::new(project(id, &["/srv/c.yaml"]), "/o.yaml".into());
    let first = set.add_project(compose("first"));
    let second = set.add_project(compose("second"));
    let copy = first;
    assert_eq!(set.project(first).unwrap().id, "first");
    assert_eq!(set.project(copy).unwrap().id, "first");
    set.replace_project(first, project("other", &["/home/c.yaml"]));
    assert_eq!(set.project(first).unwrap().id, "other");
    assert_eq!(set.project(copy).unwrap().id, "other");
    assert_eq!(set.project(second).unwrap().id, "second");
    let pull = set.compose(copy).unwrap().pull("a");
    assert_eq!(pull.cwd, "/home");
    assert!(pull.args.iter().any(|arg| arg == "/o.yaml"));
    set.replace_project(copy, project("last", &["/home/c.yaml"]));
    assert_eq!(set.project(first).unwrap().id, "last");
    let unknown = ComposeHandle { slot: 2 };
    set.replace_project(unknown, project("none", &["/home/c.yaml"]));
    assert!(set.project(unknown).is_none());
    assert!(set.compose(unknown).is_none());
    assert_eq!(set.project(second).unwrap().id, "second");
}

#[test]
fn waiting_ends_where_containers_cannot_be_listed() {
    let listed: Result<Vec<String>, String> = Ok(vec!["one".into()]);
    let unlisted: Result<Vec<String>, String> = Err("ps failed".into());
    for late in [false, true] {
        assert!(matches!(
            wait_healthy_listed(&unlisted, Err("nothing to inspect".into()), &None, late),
            Wait::Failed(error) if error == "ps failed"
        ));
    }
    assert!(matches!(
        wait_healthy_listed(&listed, Err("inspect failed".into()), &None, false),
        Wait::Again
    ));
    assert!(matches!(
        wait_healthy_listed(&listed, Err("inspect failed".into()), &None, true),
        Wait::Failed(error) if error == "inspect failed"
    ));
}

#[test]
fn projects_can_be_replaced() {
    let mut compose = Compose::new(project("demo", &["/srv/c.yaml"]), "/o.yaml".into());
    assert_eq!(compose.project().id, "demo");
    compose.replace_project(project("other", &["/home/c.yaml"]));
    assert_eq!(compose.project().id, "other");
    assert_eq!(compose.pull("a").cwd, "/home");
}

#[test]
fn waiting_ends_with_the_expected_image_or_a_reason() {
    let state = |status: &str, id: Option<&str>, mixed: bool| RuntimeState {
        actual_image: None,
        actual_image_id: id.map(str::to_owned),
        replicas: 1,
        mixed_images: mixed,
        container_status: status.into(),
    };
    let wanted = Some("sha256:a".to_string());
    let wait = |inspected, expected: &Option<String>, late| {
        wait_healthy_image(inspected, expected, late)
    };
    assert!(matches!(
        wait(Ok((state("running", Some("sha256:a"), false), true)), &wanted, false),
        Wait::Ready(log) if log == "容器状态：running\n"
    ));
    assert!(matches!(
        wait(Ok((state("running", Some("sha256:b"), false), true)), &wanted, false),
        Wait::Failed(error) if error == "容器运行的镜像 ID 与已验证候选镜像不一致"
    ));
    for anything in [None, Some(String::new())] {
        assert!(matches!(
            wait(Ok((state("healthy", Some("sha256:b"), false), true)), &anything, false),
            Wait::Ready(log) if log == "容器状态：healthy\n"
        ));
    }
    assert!(matches!(
        wait_healthy(Ok((state("running", Some("sha256:b"), false), true)), false),
        Wait::Ready(_)
    ));
    assert!(matches!(
        wait(Ok((state("running", Some("sha256:a"), true), true)), &wanted, false),
        Wait::Failed(error) if error == "服务的多个副本运行了不同镜像"
    ));
    for status in ["unhealthy", "exited", "dead"] {
        assert!(matches!(
            wait(Ok((state(status, None, false), false)), &wanted, false),
            Wait::Failed(error) if error == format!("容器状态异常: {status}")
        ));
    }
    assert!(matches!(wait(Ok((state("starting", None, false), false)), &wanted, false), Wait::Again));
    assert!(matches!(
        wait(Ok((state("starting", None, false), false)), &wanted, true),
        Wait::Failed(error) if error == "等待容器健康状态超时"
    ));
    assert!(matches!(wait(Err("gone".into()), &wanted, false), Wait::Again));
    assert!(matches!(
        wait(Err("gone".into()), &wanted, true),
        Wait::Failed(error) if error == "gone"
    ));
}

#[test]
fn inspection_needs_every_container() {
    assert_eq!(inspection(&Vec::new(), Ok(Vec::new())).unwrap_err(), "Compose 未返回容器");
    assert_eq!(
        inspection(&vec!["a".into()], Ok(Vec::new())).unwrap_err(),
        "部分容器无法检查"
    );
    assert_eq!(inspection(&vec!["a".into()], Err("bad".into())).unwrap_err(), "bad");
}

#[test]
fn the_last_bad_replica_decides() {
    let container = |healthcheck: bool, health: Option<&str>, status: &str| Inspect {
        image: String::new(),
        config_image: "x".into(),
        has_healthcheck: healthcheck,
        health: health.map(str::to_owned),
        status: status.into(),
        service: None,
    };
    let (state, ready) = summarize(&vec![
        container(true, Some("healthy"), "running"),
        container(true, None, "running"),
        container(false, None, "paused"),
        container(false, None, "running"),
    ]);
    assert_eq!(state.container_status, "paused");
    assert!(!ready);
    assert!(state.actual_image_id.is_none());
    assert_eq!(state.actual_image.as_deref(), Some("x"));
    let (state, ready) = summarize(&vec![
        container(true, Some("healthy"), "running"),
        container(false, None, "running"),
    ]);
    assert_eq!(state.container_status, "running");
    assert!(ready);
    let (state, _) = summarize(&vec![container(true, None, "running")]);
    assert_eq!(state.container_status, "starting");
    let (state, ready) = summarize(&Vec::new());
    assert_eq!(state.container_status, "healthy");
    assert!(ready);
    assert_eq!(absent_state("down").container_status, "down");
    assert_eq!(RuntimeState::default().container_status, "");
}

#[test]
fn repositories_have_several_names() {
    for (left, right, same) in [
        ("nginx", "docker.io/library/nginx", true),
        ("docker.io/nginx", "index.docker.io/library/nginx", true),
        ("registry-1.docker.io/me/app", "me/app", true),
        ("ghcr.io/me/app", "me/app", false),
        ("me/app", "me/api", false),
        ("library/nginx", "nginx", true),
        ("", "", true),
    ] {
        assert_eq!(repositories_match(left, right), same, "{left} {right}");
        assert_eq!(repositories_match(right, left), same, "{right} {left}");
    }
}

#[test]
fn pulled_images_are_pinned_by_the_digest_of_their_repository() {
    let inspected = |digests: &[&str]| ImageInspect {
        id: "sha256:id".into(),
        repo_digests: digests.iter().map(|digest| digest.to_string()).collect(),
    };
    let artifact = image_artifact(
        "nginx:1.27",
        "nginx",
        &vec![inspected(&["other@sha256:a", "docker.io/library/nginx@sha256:b"])],
    )
    .unwrap();
    assert_eq!(artifact.image, "nginx:1.27");
    assert_eq!(artifact.pinned_image, "nginx@sha256:b");
    assert_eq!(artifact.digest, "sha256:b");
    assert_eq!(artifact.image_id, "sha256:id");
    for digests in [vec![], vec!["nginx"], vec!["other@sha256:a"], vec!["nginx@md5:a", "nginx@sha256:b"]] {
        assert_eq!(
            image_artifact("nginx:1", "nginx", &vec![inspected(&digests)]).unwrap_err(),
            "已拉取镜像缺少目标仓库的 RepoDigest"
        );
    }
    assert_eq!(
        image_artifact("nginx:1", "nginx", &Vec::new()).unwrap_err(),
        "docker image inspect 未返回镜像"
    );
}
