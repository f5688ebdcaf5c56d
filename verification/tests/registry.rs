use windplume_deploy::config::VersionSourceConfig;
use windplume_deploy::error::AppError;
use windplume_deploy::registry::{
    above, cache_key, challenge_parameter, decode_docker_auth, is_stale, later, lists_version,
    normalize, offer, ranks_above, read_credentials, registry_credentials, same_registry,
    source_registry, OciBody, OciQuery, OciReply, OciRequest,
    PackageVersion, RawVersion, RegistryClient, Timestamp, TAGS_PER_PAGE,
};
use base64::Engine;

const SECOND: u128 = 1_000_000_000;

fn moment(text: &str) -> Timestamp {
    let read = chrono::DateTime::parse_from_rfc3339(text).unwrap();
    Timestamp {
        seconds: read.timestamp(),
        nanos: read.timestamp_subsec_nanos(),
    }
}

fn item(id: i64, tag: &str, updated: &str) -> RawVersion {
    RawVersion {
        version: tag.into(),
        source_id: id.to_string(),
        digest: Some(format!("sha256:{id}")),
        created_at: Some(moment(updated)),
        updated_at: Some(moment(updated)),
    }
}

fn names(versions: &[PackageVersion]) -> Vec<&str> {
    versions.iter().map(|item| item.version.as_str()).collect()
}

#[test]
fn filters_deduplicates_and_sorts_tags_from_any_source() {
    let result = normalize(
        &vec![
            item(1, "1.2.0", "2026-01-01T00:00:00Z"),
            item(2, "latest", "2026-01-03T00:00:00Z"),
            item(3, "1.10.0", "2026-01-02T00:00:00Z"),
            item(4, "1.2.0", "2026-01-04T00:00:00Z"),
        ],
        r"^\d+\.\d+\.\d+$",
    )
    .unwrap();
    assert_eq!(names(&result), ["1.10.0", "1.2.0"]);
    assert_eq!(result[1].digest.as_deref(), Some("sha256:1"));
}

#[test]
fn other_tags_follow_versions_from_the_latest_on() {
    let mut dateless = item(6, "undated", "2026-01-01T00:00:00Z");
    dateless.updated_at = None;
    let result = normalize(
        &vec![
            dateless,
            item(1, "edge", "2026-01-01T00:00:00Z"),
            item(2, "1.0.0-rc.1", "2026-01-01T00:00:00Z"),
            item(3, "stable", "2026-01-02T00:00:00Z"),
            item(4, "1.0.0", "2025-01-01T00:00:00Z"),
            item(5, "later-name", "2026-01-01T00:00:00Z"),
        ],
        ".",
    )
    .unwrap();
    assert_eq!(
        names(&result),
        ["1.0.0", "1.0.0-rc.1", "stable", "later-name", "edge", "undated"]
    );
}

#[test]
fn pre_releases_are_listed_from_the_highest_down() {
    let expected = [
        "1.0.1-alpha",
        "1.0.0+build",
        "1.0.0",
        "1.0.0-rc.1",
        "1.0.0-beta.11",
        "1.0.0-beta.2",
        "1.0.0-beta",
        "1.0.0-alpha.beta",
        "1.0.0-alpha.1",
        "1.0.0-alpha",
    ];
    for step in [1, 3, 7, 9] {
        let raw: Vec<RawVersion> = (0..expected.len())
            .map(|n| item(n as i64, expected[n * step % expected.len()], "2026-01-01T00:00:00Z"))
            .collect();
        assert_eq!(names(&normalize(&raw, ".").unwrap()), expected);
    }
    assert_eq!(TAGS_PER_PAGE, 1000);
}

#[test]
fn unreadable_patterns_are_internal_errors() {
    let expected = regex::Regex::new("(").unwrap_err().to_string();
    assert!(matches!(
        normalize(&Vec::new(), "("),
        Err(AppError::Internal(message)) if message == expected
    ));
}

#[test]
fn parses_standard_bearer_challenge() {
    let challenge = r#"Bearer realm="https://ghcr.io/token",service="ghcr.io",scope="repository:owner/image:pull""#;
    assert_eq!(
        challenge_parameter(challenge, "realm").as_deref(),
        Some("https://ghcr.io/token")
    );
    assert_eq!(
        challenge_parameter(challenge, "scope").as_deref(),
        Some("repository:owner/image:pull")
    );
    assert!(challenge_parameter(challenge, "missing").is_none());
    assert!(challenge_parameter("Basic realm=\"x\"", "realm").is_none());
    assert_eq!(
        challenge_parameter("Bearer junk, realm=\"\"x\" , service=", "realm").as_deref(),
        Some("x")
    );
    assert_eq!(challenge_parameter("Bearer service=", "service").as_deref(), Some(""));
}

#[test]
fn parses_oci_tag_response_used_by_ghcr_and_docker_hub() {
    let body: serde_json::Value =
        serde_json::from_str(r#"{"name": "owner/image", "tags": ["2.0.0", "1.0.0"]}"#).unwrap();
    let tags = body["tags"]
        .as_array()
        .map(|tags| tags.iter().map(|tag| tag.as_str().unwrap().to_owned()).collect());
    let mut query = OciQuery::new(&ghcr(), false);
    query.handle(&reply(200, "200 OK", None, OciBody::Tags(tags)));
    let versions = query.result().unwrap().unwrap();
    assert_eq!(
        versions.iter().map(|item| item.version.as_str()).collect::<Vec<_>>(),
        ["2.0.0", "1.0.0"]
    );
    assert_eq!(versions[0].source_id, "2.0.0");
    assert!(versions[0].digest.is_none());
}

#[test]
fn reads_inline_docker_login_credentials_without_exposing_secret() {
    let auth = base64::engine::general_purpose::STANDARD.encode("octocat:github_pat_secret");
    let credentials = decode_docker_auth(&auth).unwrap();
    assert_eq!(credentials.username, "octocat");
    assert_eq!(credentials.password, "github_pat_secret");
    assert!(same_registry("https://ghcr.io", "ghcr.io"));
}

#[test]
fn credentials_need_a_name_and_a_password() {
    let encode = |text: &str| base64::engine::general_purpose::STANDARD.encode(text);
    for text in ["", "name", ":password", "name:"] {
        assert!(decode_docker_auth(&encode(text)).is_none());
        assert!(read_credentials(Some(text.as_bytes().to_vec())).is_none());
    }
    assert!(decode_docker_auth("not base64").is_none());
    assert!(read_credentials(None).is_none());
    assert!(read_credentials(Some(vec![0xff, b':', b'x'])).is_none());
    let kept = read_credentials(Some(b"a:b:c".to_vec())).unwrap();
    assert_eq!((kept.username.as_str(), kept.password.as_str()), ("a", "b:c"));
}

#[test]
fn credentials_are_those_of_the_registry() {
    let encode = |text: &str| base64::engine::general_purpose::STANDARD.encode(text);
    let auths = vec![
        ("other.io".to_string(), Some(encode("x:y"))),
        ("https://index.docker.io/v1/".to_string(), Some(encode("hub:secret"))),
        ("ghcr.io".to_string(), None),
        ("https://ghcr.io/".to_string(), Some(encode("me:token"))),
    ];
    assert_eq!(
        registry_credentials(&auths, "registry-1.docker.io").unwrap().username,
        "hub"
    );
    assert_eq!(registry_credentials(&auths, "ghcr.io").unwrap().username, "me");
    assert!(registry_credentials(&auths, "quay.io").is_none());
    let broken = vec![("ghcr.io".to_string(), Some("?".to_string()))];
    assert!(registry_credentials(&broken, "ghcr.io").is_none());
    assert!(same_registry("registry-1.docker.io", "https://index.docker.io/v1//"));
    assert!(!same_registry("docker.io", "registry-1.docker.io"));
    assert!(same_registry("http://localhost:5000/", "localhost:5000"));
}

fn ghcr() -> VersionSourceConfig {
    VersionSourceConfig::OciRegistry {
        registry: "ghcr.io/".into(),
        repository: "owner/image".into(),
    }
}

fn reply(status: u16, text: &str, challenge: Option<&str>, body: OciBody) -> OciReply {
    OciReply::Response {
        status,
        status_text: text.into(),
        challenge: challenge.map(str::to_owned),
        body,
    }
}

fn refused(query: &OciQuery) -> String {
    assert!(matches!(query.request(), OciRequest::Finished));
    match query.result() {
        Some(Err(AppError::Package(message))) => message,
        _ => panic!("the query should have failed"),
    }
}

const CHALLENGE: &str = r#"Bearer realm="https://ghcr.io/token",service="ghcr.io""#;

#[test]
fn private_tags_are_read_with_a_token() {
    let mut query = OciQuery::new(&ghcr(), true);
    assert!(query.result().is_none());
    assert!(matches!(
        query.request(),
        OciRequest::Tags { url, token: None }
            if url == "https://ghcr.io/v2/owner/image/tags/list"
    ));
    query.handle(&reply(401, "401 Unauthorized", Some(CHALLENGE), OciBody::Invalid));
    assert!(matches!(
        query.request(),
        OciRequest::Token { realm, scope, service: Some(service), with_credentials: true }
            if realm == "https://ghcr.io/token"
                && scope == "repository:owner/image:pull"
                && service == "ghcr.io"
    ));
    query.handle(&reply(
        200,
        "200 OK",
        None,
        OciBody::Token {
            token: None,
            access_token: Some("secret".into()),
        },
    ));
    assert!(matches!(
        query.request(),
        OciRequest::Tags { url, token: Some(token) }
            if url == "https://ghcr.io/v2/owner/image/tags/list" && token == "secret"
    ));
    query.handle(&reply(200, "200 OK", None, OciBody::Tags(None)));
    assert!(query.result().unwrap().unwrap().is_empty());
    assert!(matches!(query.request(), OciRequest::Finished));
}

#[test]
fn docker_hub_tags_come_from_its_registry() {
    let source = VersionSourceConfig::DockerHub {
        namespace: "library".into(),
        repository: "nginx".into(),
    };
    assert!(matches!(
        OciQuery::new(&source, false).request(),
        OciRequest::Tags { url, token: None }
            if url == "https://registry-1.docker.io/v2/library/nginx/tags/list"
    ));
    let plain = VersionSourceConfig::OciRegistry {
        registry: "http://localhost:5000".into(),
        repository: "a".into(),
    };
    assert!(matches!(
        OciQuery::new(&plain, false).request(),
        OciRequest::Tags { url, .. } if url == "http://localhost:5000/v2/a/tags/list"
    ));
}

#[test]
fn failing_registries_are_reported() {
    let mut query = OciQuery::new(&ghcr(), false);
    query.handle(&OciReply::Unreachable { timeout: true });
    assert_eq!(refused(&query), "连接 OCI Registry 超时");

    let mut query = OciQuery::new(&ghcr(), false);
    query.handle(&OciReply::Unreachable { timeout: false });
    assert_eq!(refused(&query), "无法连接 OCI Registry");

    let mut query = OciQuery::new(&ghcr(), false);
    query.handle(&reply(404, "404 Not Found", None, OciBody::Invalid));
    assert_eq!(refused(&query), "OCI Registry 标签请求失败 (404 Not Found)");

    let mut query = OciQuery::new(&ghcr(), false);
    query.handle(&reply(200, "200 OK", None, OciBody::Invalid));
    assert_eq!(refused(&query), "OCI Registry 返回了无效响应");

    let mut query = OciQuery::new(&ghcr(), false);
    query.handle(&reply(401, "401 Unauthorized", None, OciBody::Invalid));
    assert_eq!(refused(&query), "OCI Registry 未提供 Bearer 认证信息");

    let mut query = OciQuery::new(&ghcr(), false);
    query.handle(&reply(401, "401 Unauthorized", Some("Basic"), OciBody::Invalid));
    assert_eq!(refused(&query), "OCI Registry 认证地址无效");

    for (with_credentials, hint) in [
        (
            true,
            "已使用 Docker 登录凭据；请确认 Token 具有 read:packages 权限且账号可读取该镜像",
        ),
        (
            false,
            "未找到该 Registry 的 Docker 登录凭据；私有镜像请先以服务用户执行 docker login",
        ),
    ] {
        let mut query = OciQuery::new(&ghcr(), with_credentials);
        query.handle(&reply(401, "401 Unauthorized", Some(CHALLENGE), OciBody::Invalid));
        query.handle(&reply(403, "403 Forbidden", None, OciBody::Invalid));
        assert_eq!(
            refused(&query),
            format!("OCI Registry 无法签发拉取 Token (403 Forbidden)；{hint}")
        );
    }

    let mut query = OciQuery::new(&ghcr(), false);
    query.handle(&reply(401, "401 Unauthorized", Some(CHALLENGE), OciBody::Invalid));
    query.handle(&reply(200, "200 OK", None, OciBody::Invalid));
    assert_eq!(refused(&query), "OCI Registry Token 响应无效");

    let mut query = OciQuery::new(&ghcr(), false);
    query.handle(&reply(401, "401 Unauthorized", Some(CHALLENGE), OciBody::Invalid));
    query.handle(&reply(
        200,
        "200 OK",
        None,
        OciBody::Token {
            token: None,
            access_token: None,
        },
    ));
    assert_eq!(refused(&query), "OCI Registry Token 响应缺少 Token");

    // A token that is not accepted is not asked for twice.
    let mut query = OciQuery::new(&ghcr(), false);
    query.handle(&reply(401, "401 Unauthorized", Some(CHALLENGE), OciBody::Invalid));
    query.handle(&reply(
        200,
        "200 OK",
        None,
        OciBody::Token {
            token: Some("t".into()),
            access_token: None,
        },
    ));
    query.handle(&reply(401, "401 Unauthorized", Some(CHALLENGE), OciBody::Invalid));
    assert_eq!(refused(&query), "OCI Registry 标签请求失败 (401 Unauthorized)");
}

fn listed(names: &[&str]) -> Vec<PackageVersion> {
    names
        .iter()
        .map(|name| PackageVersion {
            version: name.to_string(),
            source_id: name.to_string(),
            digest: None,
            created_at: None,
            updated_at: None,
        })
        .collect()
}

#[test]
fn versions_are_kept_for_a_while() {
    let mut client = RegistryClient::new(60);
    let key = cache_key("app", "api");
    assert_eq!(key, "app/api");
    assert!(client.versions(&key, false, 0).is_none());
    client.store(&key, listed(&["1.0.0"]), SECOND);
    assert_eq!(names(&client.versions(&key, false, 61 * SECOND - 1).unwrap()), ["1.0.0"]);
    assert!(client.versions(&key, true, 2 * SECOND).is_none());
    assert!(client.versions(&key, false, 61 * SECOND).is_none());
    client.store(&key, listed(&["2.0.0"]), 61 * SECOND);
    assert_eq!(names(&client.versions(&key, false, 61 * SECOND).unwrap()), ["2.0.0"]);
    assert!(is_stale(0, 60 * SECOND, 60));
    assert!(!is_stale(0, 60 * SECOND - 1, 60));
}

#[test]
fn refreshed_projects_forget_their_versions() {
    let mut client = RegistryClient::new(60);
    client.store(&cache_key("app", "api"), listed(&["1.0.0"]), 0);
    client.store(&cache_key("app-2", "api"), listed(&["2.0.0"]), 0);
    client.invalidate_project("app");
    assert!(client.versions("app/api", false, 1).is_none());
    assert!(client.versions("app-2/api", false, 1).is_some());
}

#[test]
fn moments_are_compared() {
    let early = Some(moment("2026-01-01T00:00:00Z"));
    let late = Some(moment("2026-01-01T00:00:00.5Z"));
    assert!(later(&late, &early));
    assert!(!later(&early, &late));
    assert!(!later(&early, &early));
    assert!(later(&early, &None));
    assert!(!later(&None, &early));
    assert!(!later(&None, &None));
    assert!(lists_version(&listed(&["a", "b"]), "b"));
    assert!(!lists_version(&listed(&["a", "b"]), "c"));
}

#[test]
fn tags_are_offered_once_and_ranked() {
    let raw = vec![
        item(1, "a", "2026-01-01T00:00:00Z"),
        item(2, "b", "2026-01-02T00:00:00Z"),
        item(3, "a", "2026-01-03T00:00:00Z"),
        item(4, "c", "2026-01-01T00:00:00Z"),
    ];
    let offered = offer(&raw, &vec![true, false, true, true]);
    assert_eq!(names(&offered), ["a", "c"]);
    assert_eq!(offered[0].source_id, "1");
    let later_one = offer(&raw, &vec![false, false, true, false]);
    assert_eq!(later_one[0].source_id, "3");
    let (a, c) = (&offered[0], &offered[1]);
    assert!(ranks_above(c, a, None, None, 0));
    assert!(!ranks_above(a, c, None, None, 1));
    assert!(ranks_above(a, c, Some((0, 0, 1)), None, 0));
    assert!(!ranks_above(a, c, None, Some((0, 0, 1)), 1));
    assert!(ranks_above(a, c, Some((1, 0, 0)), Some((0, 9, 9)), -1));
    assert!(above(Some((1, 2, 3)), Some((1, 2, 3)), 1));
    assert!(!above(Some((1, 2, 3)), Some((1, 2, 3)), 0));
    assert!(above(Some((1, 2, 4)), Some((1, 2, 3)), -1));
    assert!(!above(Some((1, 1, 9)), Some((1, 2, 3)), 1));
    assert!(!above(None, Some((1, 2, 3)), 1));
    assert_eq!(source_registry(&ghcr()), "ghcr.io/");
}
