use windplume_deploy::config::{
    default_command, default_health, default_tag_pattern, service_from_image, Config, ProjectConfig,
    RegistryConfig, ServerConfig, ServiceConfig, StorageConfig, VersionSourceConfig,
};
use windplume_deploy::duplicate::Duplicate;

fn project(files: &[&str]) -> ProjectConfig {
    ProjectConfig {
        compose_files: files.iter().map(|file| file.to_string()).collect(),
        health_timeout_seconds: 10,
        command_timeout_seconds: 10,
        id: String::new(),
        services: Vec::new(),
    }
}

fn config(projects: Vec<ProjectConfig>) -> Config {
    Config {
        server: ServerConfig::default(),
        registries: RegistryConfig::default(),
        storage: StorageConfig::default(),
        projects,
    }
}

fn existing(files: &[&str]) -> Vec<String> {
    files.iter().map(|file| file.to_string()).collect()
}

fn named(id: &str) -> ProjectConfig {
    let mut project = project(&["/srv/compose.yaml"]);
    project.id = id.into();
    project.services = vec![service_from_image("web".into(), "nginx".into()).unwrap()];
    project
}

#[test]
fn requires_absolute_existing_compose_files() {
    let cfg = config(vec![project(&["relative.yaml"])]);
    assert!(cfg.validate(&Vec::new()).is_err());
    assert_eq!(
        cfg.validate(&existing(&["relative.yaml"])).unwrap_err(),
        "Compose 文件必须使用绝对路径: relative.yaml"
    );
    let missing = config(vec![project(&["/srv/a.yaml", "/srv/b.yaml"])]);
    assert_eq!(
        missing.validate(&existing(&["/srv/a.yaml"])).unwrap_err(),
        "Compose 文件不存在: /srv/b.yaml"
    );
    assert!(missing.validate(&existing(&["/srv/a.yaml", "/srv/b.yaml"])).is_ok());
}

#[test]
fn infers_docker_hub_ghcr_and_registry_with_port() {
    let official = service_from_image("web".into(), "nginx:1.27".into()).unwrap();
    assert_eq!(official.image, "nginx");
    assert!(matches!(
        official.version_source,
        VersionSourceConfig::DockerHub {
            ref namespace,
            ref repository
        } if namespace == "library" && repository == "nginx"
    ));

    let ghcr = service_from_image("api".into(), "ghcr.io/owner/api:1.2.3".into()).unwrap();
    assert_eq!(ghcr.image, "ghcr.io/owner/api");
    assert!(matches!(
        ghcr.version_source,
        VersionSourceConfig::OciRegistry {
            ref registry,
            ref repository
        } if registry == "ghcr.io" && repository == "owner/api"
    ));

    let private = service_from_image(
        "job".into(),
        "registry.example.test:5000/team/job@sha256:abc".into(),
    )
    .unwrap();
    assert_eq!(private.image, "registry.example.test:5000/team/job");
}

#[test]
fn configuration_limits_are_checked_in_order() {
    let mut cfg = config(Vec::new());
    assert_eq!(
        cfg.validate(&Vec::new()).unwrap_err(),
        "至少配置一个 Compose 项目"
    );
    cfg.registries.cache_seconds = 0;
    assert_eq!(
        cfg.validate(&Vec::new()).unwrap_err(),
        "所有缓存和存储限制必须大于零"
    );
    let none = config(vec![project(&[])]);
    assert_eq!(
        none.validate(&Vec::new()).unwrap_err(),
        "每个 Compose 项目至少需要一个 compose_files 路径"
    );
    let mut slow = project(&["/srv/a.yaml"]);
    slow.health_timeout_seconds = 0;
    assert_eq!(
        config(vec![slow]).validate(&existing(&["/srv/a.yaml"])).unwrap_err(),
        "Compose 项目的超时必须大于零"
    );
}

#[test]
fn resolved_projects_need_valid_unique_names_and_services() {
    assert!(config(vec![named("app"), named("app-2_x")]).validate_resolved().is_ok());
    assert_eq!(
        config(vec![named("App")]).validate_resolved().unwrap_err(),
        "Compose 解析出的项目名无效: App"
    );
    assert_eq!(
        config(vec![named("-app")]).validate_resolved().unwrap_err(),
        "Compose 解析出的项目名无效: -app"
    );
    assert_eq!(
        config(vec![named("app"), named("app")]).validate_resolved().unwrap_err(),
        "Compose 项目名重复: app"
    );
    let mut empty = named("app");
    empty.services = Vec::new();
    assert_eq!(
        config(vec![empty]).validate_resolved().unwrap_err(),
        "Compose 项目 app 没有可管理的 image 服务"
    );
}

#[test]
fn defaults_are_operational() {
    assert_eq!(ServerConfig::default().listen, "127.0.0.1:8180");
    assert_eq!(RegistryConfig::default().cache_seconds, 604800);
    let storage = StorageConfig::default();
    assert_eq!(storage.data_dir, "/var/lib/windplume-deploy");
    assert_eq!(storage.history_limit, 500);
    assert_eq!(storage.max_log_bytes, 65536);
    assert_eq!(default_health(), 120);
    assert_eq!(default_command(), 600);
    assert_eq!(default_tag_pattern(), "^.+$");
}

#[test]
fn project_directory_is_the_parent_of_the_first_file() {
    for (file, dir) in [
        ("/srv/app/compose.yaml", "/srv/app"),
        ("/compose.yaml", "/"),
        ("/srv//app/compose.yaml", "/srv//app"),
        ("/srv/app/./compose.yaml", "/srv/app"),
        ("/srv/app/compose.yaml/", "/srv/app"),
        ("compose.yaml", ""),
        ("./compose.yaml", "."),
    ] {
        let project = project(&[file, "/elsewhere/b.yaml"]);
        assert!(project.has_project_dir());
        assert_eq!(project.project_dir(), dir, "{file}");
        assert_eq!(
            std::path::Path::new(file).parent().unwrap().to_str().unwrap(),
            dir
        );
    }
    assert!(!project(&["/"]).has_project_dir());
    assert!(!project(&[""]).has_project_dir());
    assert!(!project(&[]).has_project_dir());
}

#[test]
fn image_names_that_name_nothing_are_refused() {
    let error = |image: &str| service_from_image("web".into(), image.into()).unwrap_err();
    assert_eq!(error(":1.0"), "服务 web 的 image 无效: :1.0");
    assert_eq!(error("@sha256:abc"), "服务 web 的 image 无效: @sha256:abc");
    assert_eq!(error("ghcr.io"), "服务 web 的 image 缺少 repository: ghcr.io");
    assert_eq!(error("docker.io/"), "Docker Hub 镜像路径无效: ");
    assert_eq!(error("/nginx"), "Docker Hub 镜像路径无效: /nginx");
}

#[test]
fn docker_hub_goes_by_several_names() {
    for image in ["docker.io/me/app:1", "index.docker.io/me/app", "registry-1.docker.io/me/app@sha256:x"] {
        let service = service_from_image("web".into(), image.into()).unwrap();
        assert!(matches!(
            service.version_source,
            VersionSourceConfig::DockerHub { ref namespace, ref repository }
                if namespace == "me" && repository == "app"
        ));
        assert_eq!(service.version_source.kind(), "docker_hub");
    }
    let local = service_from_image("web".into(), "localhost/app:1".into()).unwrap();
    assert_eq!(local.version_source.kind(), "oci_registry");
}

#[test]
fn tag_and_digest_make_no_difference() {
    let a = service_from_image("a".into(), "ghcr.io/o/i:1.0".into()).unwrap();
    let b = service_from_image("b".into(), "ghcr.io/o/i:2.0@sha256:abc".into()).unwrap();
    assert_eq!(a.image, b.image);
    assert!(!b.image.contains('@'));
    assert_eq!(a.tag_pattern, "^.+$");
}

#[test]
fn services_are_found_by_name() {
    let project = named("app");
    assert_eq!(project.service("web").unwrap().image, "nginx");
    assert!(project.service("api").is_none());
    assert_eq!(project.service_ids(), ["web"]);
    assert_eq!(project.command_timeout(), 10);
    assert_eq!(project.health_timeout(), 10);
    let copy: ServiceConfig = project.services[0].duplicate();
    assert_eq!(copy.id, "web");
}

#[test]
fn names_that_compose_would_refuse_are_refused() {
    for name in ["", "_app", "app!", "app\n", "é"] {
        assert!(config(vec![named(name)]).validate_resolved().is_err(), "{name}");
    }
    for name in ["0", "a-b_c", "z9"] {
        assert!(config(vec![named(name)]).validate_resolved().is_ok(), "{name}");
    }
}
