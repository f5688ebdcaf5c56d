use windplume_deploy::error::AppError;
use windplume_deploy::github::{
    normalize, offer, ranks_above, ApiVersion, GithubClient, PackageQuery, PackageVersion, PageReply,
    VERSIONS_PER_PAGE,
};
use windplume_deploy::registry::Timestamp;

fn item(id: i64, name: &str, tags: &[&str], updated: &str) -> ApiVersion {
    let moment = || {
        let read = chrono::DateTime::parse_from_rfc3339(updated).unwrap();
        Timestamp {
            seconds: read.timestamp(),
            nanos: read.timestamp_subsec_nanos(),
        }
    };
    ApiVersion {
        id,
        name: name.into(),
        tags: tags.iter().map(|tag| tag.to_string()).collect(),
        created_at: moment(),
        updated_at: moment(),
    }
}

fn names(versions: &[PackageVersion]) -> Vec<&str> {
    versions.iter().map(|item| item.version.as_str()).collect()
}

#[test]
fn expands_filters_deduplicates_and_sorts_tags() {
    let result = normalize(
        &vec![
            item(1, "sha256:a", &["1.2.0", "latest"], "2026-01-01T00:00:00Z"),
            item(2, "sha256:b", &["1.10.0", "1.2.0"], "2026-01-02T00:00:00Z"),
        ],
        r"^\d+\.\d+\.\d+$",
    )
    .unwrap();
    assert_eq!(names(&result), ["1.10.0", "1.2.0"]);
    assert_eq!(result[1].digest.as_deref(), Some("sha256:a"));
    assert_eq!(result[1].package_version_id, 1);
}

#[test]
fn other_tags_keep_their_order_within_a_moment() {
    let result = normalize(
        &vec![
            item(1, "", &["b", "a"], "2026-01-01T00:00:00Z"),
            item(2, "", &["c"], "2026-01-02T00:00:00Z"),
        ],
        "^.$",
    )
    .unwrap();
    assert_eq!(names(&result), ["c", "b", "a"]);
    assert!(result[0].digest.is_none());
    assert!(matches!(normalize(&Vec::new(), "["), Err(AppError::Internal(_))));
}

fn page(count: usize) -> PageReply {
    let versions = (0..count)
        .map(|number| item(number as i64, "", &[&format!("1.0.{number}")], "2026-01-01T00:00:00Z"))
        .collect();
    PageReply::Response {
        status: 200,
        status_text: "200 OK".into(),
        body: Some(versions),
    }
}

#[test]
fn full_pages_are_followed() {
    let mut query = PackageQuery::new("https://api.github.com//", "me", "app");
    let url = "https://api.github.com/users/me/packages/container/app/versions";
    assert_eq!(query.request(), Some((url.to_string(), 1)));
    assert_eq!(VERSIONS_PER_PAGE, 100);
    query.handle(&page(100));
    assert_eq!(query.request(), Some((url.to_string(), 2)));
    assert!(query.result(".").is_none());
    query.handle(&page(99));
    assert!(query.request().is_none());
    let versions = query.result(".").unwrap().unwrap();
    assert_eq!(versions.len(), 100);
    assert_eq!(versions[0].version, "1.0.99");
}

#[test]
fn refusals_are_explained() {
    for (status, text, message) in [
        (401, "401 Unauthorized", "GitHub Token 无效 (401 Unauthorized)"),
        (403, "403 Forbidden", "GitHub 拒绝访问或已限流 (403 Forbidden)"),
        (404, "404 Not Found", "GitHub 包不存在或无权访问 (404 Not Found)"),
        (500, "500 Internal Server Error", "GitHub API 请求失败 (500 Internal Server Error)"),
    ] {
        let mut query = PackageQuery::new("https://api.github.com", "me", "app");
        query.handle(&PageReply::Response {
            status,
            status_text: text.into(),
            body: None,
        });
        assert!(matches!(
            query.result("."),
            Some(Err(AppError::Package(reason))) if reason == message
        ));
        assert!(query.request().is_none());
    }
    for (timeout, message) in [(true, "连接 GitHub 超时"), (false, "无法连接 GitHub")] {
        let mut query = PackageQuery::new("https://api.github.com", "me", "app");
        query.handle(&PageReply::Unreachable { timeout });
        assert!(matches!(
            query.result("."),
            Some(Err(AppError::Package(reason))) if reason == message
        ));
    }
    let mut query = PackageQuery::new("https://api.github.com", "me", "app");
    query.handle(&PageReply::Response {
        status: 200,
        status_text: "200 OK".into(),
        body: None,
    });
    assert!(matches!(
        query.result("."),
        Some(Err(AppError::Package(reason))) if reason == "GitHub 返回了无效响应"
    ));
}

#[test]
fn packages_are_kept_for_a_while() {
    let mut client = GithubClient::new(1);
    assert!(client.versions("api", false, 0).is_none());
    let versions = normalize(
        &vec![item(1, "sha256:a", &["1.0.0"], "2026-01-01T00:00:00Z")],
        ".",
    )
    .unwrap();
    client.store("api", versions, 0);
    assert_eq!(names(&client.versions("api", false, 999_999_999).unwrap()), ["1.0.0"]);
    assert!(client.versions("api", false, 1_000_000_000).is_none());
    assert!(client.versions("api", true, 0).is_none());
    assert!(client.versions("web", false, 0).is_none());
}

#[test]
fn images_offer_their_tags_once() {
    let raw = vec![
        item(1, "sha256:a", &["x", "y"], "2026-01-01T00:00:00Z"),
        item(2, "sha256:b", &["y", "z"], "2026-01-02T00:00:00Z"),
    ];
    let offered = offer(&raw, &vec![vec![false, true], vec![true, true]]);
    assert_eq!(names(&offered), ["y", "z"]);
    assert_eq!(offered[0].package_version_id, 1);
    assert!(ranks_above(&offered[1], &offered[0], None, None, 0));
    assert!(ranks_above(&offered[0], &offered[1], Some((1, 0, 0)), None, 0));
}
