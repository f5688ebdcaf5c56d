use flate2::write::GzEncoder;
use flate2::Compression;
use std::io::Cursor;
use windplume_deploy::duplicate::Duplicate;
use windplume_deploy::error::AppError;
use windplume_deploy::update::{
    accept_release, check_archive, check_binary, check_body, check_download, check_download_url, extract_binary, find_binary,
    helper_protocol_matches, parse_checksum, parse_release, read_release, release_api,
    runtime_root, stage_update, verify_archive, GitHubAsset, GitHubRelease, ReleaseReply,
    StageStep, UpdateManager, UpdateStatus, HELPER_POLLS, MAX_ARCHIVE_BYTES, RELEASE_CACHE_SECONDS,
};
use windplume_deploy::update_run::{UpdateAction, UpdateEvent, UpdateRun};

const PREFIX: &str = "https://github.com/ever-light/windplume-deploy/releases/download/";
const NOW: &str = "2026-05-01T00:00:00+00:00";

fn github_release(version: &str) -> GitHubRelease {
    let archive = format!("windplume-deploy-{version}-linux-x86_64.tar.gz");
    let asset = |name: String| GitHubAsset {
        browser_download_url: format!("{PREFIX}v{version}/{name}"),
        name,
    };
    GitHubRelease {
        tag_name: format!("v{version}"),
        html_url: format!("https://github.com/ever-light/windplume-deploy/releases/tag/v{version}"),
        published_at: Some("2026-01-01T00:00:00Z".into()),
        draft: false,
        prerelease: false,
        assets: vec![
            asset(archive.clone()),
            asset(format!("{archive}.sha256")),
            asset(format!("windplume-deploy-{version}-linux-x86_64.sig")),
        ],
    }
}

fn reason<T>(result: Result<T, AppError>) -> String {
    match result {
        Err(AppError::Update(message)) => message,
        _ => panic!("the update should be refused"),
    }
}

/// A compressed archive with the given files.
fn archive(files: &[(&str, &[u8])]) -> Vec<u8> {
    let mut archive = tar::Builder::new(GzEncoder::new(Vec::new(), Compression::default()));
    for (path, bytes) in files {
        let mut header = tar::Header::new_gnu();
        header.set_size(bytes.len() as u64);
        header.set_mode(0o755);
        header.as_gnu_mut().unwrap().name[..path.len()].copy_from_slice(path.as_bytes());
        header.set_cksum();
        archive.append(&header, Cursor::new(*bytes)).unwrap();
    }
    archive.into_inner().unwrap().finish().unwrap()
}

#[test]
fn selects_exact_stable_release_assets() {
    let release = parse_release(&github_release("0.1.42")).unwrap();
    assert_eq!(release.version, "0.1.42");
    assert_eq!(github_release("0.1.42").tag_name, format!("v{}", release.version));
    assert!(release.archive_url.ends_with("0.1.42-linux-x86_64.tar.gz"));
    assert!(release.signature_url.ends_with("0.1.42-linux-x86_64.sig"));
    let mut missing_signature = github_release("0.1.43");
    missing_signature.assets.pop();
    assert!(parse_release(&missing_signature).is_err());
    let mut prerelease = github_release("0.2.0");
    prerelease.prerelease = true;
    assert!(parse_release(&prerelease).is_err());
    assert!(parse_release(&github_release("0.2.0+build.1")).is_err());
}

#[test]
fn releases_are_refused_with_a_reason() {
    let mut draft = github_release("1.0.0");
    draft.draft = true;
    assert_eq!(reason(parse_release(&draft)), "最新 Release 不是稳定版");
    assert_eq!(
        reason(parse_release(&github_release("one"))),
        "Release 版本号无效: vone"
    );
    for version in ["1.0.0-rc.1", "1.0.0+build", "1.0.0+build-1", "1.0.0-rc.1+build-1"] {
        assert_eq!(
            reason(parse_release(&github_release(version))),
            "Release 版本必须是稳定的 X.Y.Z"
        );
    }
    let mut elsewhere = github_release("1.0.0");
    elsewhere.html_url.push('0');
    assert_eq!(reason(parse_release(&elsewhere)), "Release 页面地址不受信任");
    for index in 0..3 {
        let mut missing = github_release("1.0.0");
        let asset = missing.assets.remove(index);
        assert_eq!(
            reason(parse_release(&missing)),
            format!("Release 缺少资产 {}", asset.name)
        );
        let mut moved = github_release("1.0.0");
        moved.assets[index].browser_download_url = "https://example.com/file".into();
        assert_eq!(reason(parse_release(&moved)), "Release 资产地址不受信任");
    }
    let unread = github_release("1.0.0");
    assert!(accept_release(&unread, true, true).is_ok());
    assert_eq!(
        reason(accept_release(&unread, true, false)),
        "Release 版本必须是稳定的 X.Y.Z"
    );
    assert_eq!(reason(accept_release(&unread, false, false)), "Release 版本号无效: v1.0.0");
    for version in ["0.1.42", "1.0.0"] {
        let mut bare = github_release(version);
        bare.tag_name = version.into();
        let refusal = format!("Release 版本号无效: {version}");
        assert_eq!(reason(parse_release(&bare)), refusal);
        assert_eq!(reason(accept_release(&bare, true, true)), refusal);
        bare.draft = true;
        assert_eq!(reason(parse_release(&bare)), "最新 Release 不是稳定版");
    }
    let mut twice = github_release("1.0.0");
    twice.tag_name = "vv1.0.0".into();
    assert_eq!(reason(parse_release(&twice)), "Release 版本号无效: vv1.0.0");
    let mut upper = github_release("1.0.0");
    upper.tag_name = "V1.0.0".into();
    assert_eq!(reason(parse_release(&upper)), "Release 版本号无效: V1.0.0");
}

#[test]
fn validates_checksum_filename_and_digest() {
    let name = "windplume-deploy-0.1.42-linux-x86_64.tar.gz";
    let digest = "a".repeat(64);
    assert_eq!(
        parse_checksum(format!("{digest}  {name}\n").as_bytes(), name).unwrap(),
        digest
    );
    assert!(parse_checksum(format!("{digest}  other.tar.gz\n").as_bytes(), name).is_err());
}

#[test]
fn checksums_are_refused_with_a_reason() {
    let digest = "AbCdEf0123456789".repeat(4);
    assert_eq!(
        parse_checksum(format!("{digest} **name more").as_bytes(), "name").unwrap(),
        digest.to_ascii_lowercase()
    );
    assert_eq!(reason(parse_checksum(&[0xff], "name")), "SHA-256 文件不是 UTF-8");
    for text in ["", "abc name", &format!("{}g name", &digest[1..]), &"é".repeat(32)] {
        assert_eq!(reason(parse_checksum(text.as_bytes(), "name")), "SHA-256 文件无效");
    }
    assert_eq!(
        reason(parse_checksum(digest.as_bytes(), "name")),
        "SHA-256 文件缺少文件名"
    );
    assert_eq!(
        reason(parse_checksum(format!("{digest} eman").as_bytes(), "name")),
        "SHA-256 文件名与 Release 不匹配"
    );
}

#[test]
fn extracts_only_expected_release_binary() {
    let version = "0.1.42";
    let bytes = b"test binary";
    let path = format!("windplume-deploy-{version}-linux-x86_64/windplume-deploy");
    let compressed = archive(&[(&path, bytes)]);
    assert_eq!(extract_binary(&compressed, version).unwrap(), bytes);
    assert!(extract_binary(&compressed, "0.1.43").is_err());
    assert_eq!(
        reason(extract_binary(&compressed, "0.1.43")),
        "Release 压缩包缺少 windplume-deploy 二进制"
    );
}

#[test]
fn unsafe_archives_are_refused() {
    let good = "windplume-deploy-1.0.0-linux-x86_64/windplume-deploy";
    for path in ["../evil", "/etc/passwd", "a/../../b"] {
        assert_eq!(
            reason(extract_binary(&archive(&[(path, b"x"), (good, b"y")]), "1.0.0")),
            "Release 包含不安全路径"
        );
        // What follows the program is not looked at.
        assert_eq!(
            extract_binary(&archive(&[(good, b"y"), (path, b"x")]), "1.0.0").unwrap(),
            b"y"
        );
    }
    let spelled = "./windplume-deploy-1.0.0-linux-x86_64//windplume-deploy";
    assert_eq!(extract_binary(&archive(&[(good, b"z")]), "1.0.0").unwrap(), b"z");
    assert!(extract_binary(&archive(&[(spelled, b"z")]), "1.0.0").is_err());
    assert_eq!(
        reason(extract_binary(&archive(&[(good, b"")]), "1.0.0")),
        "候选二进制大小无效"
    );
    assert!(reason(extract_binary(&b"no archive".to_vec(), "1.0.0")).starts_with("Release 压缩包无效: "));
    assert_eq!(reason(check_binary(Err("cut off".into()))), "无法解压候选二进制: cut off");
    assert_eq!(
        reason(check_binary(Ok(vec![0; MAX_ARCHIVE_BYTES as usize + 1]))),
        "候选二进制大小无效"
    );
    assert_eq!(check_binary(Ok(vec![7])).unwrap(), [7]);
    let paths = vec![Ok(b"a".to_vec()), Ok(good.as_bytes().to_vec()), Err("late".to_string())];
    assert_eq!(find_binary(&paths, "1.0.0").unwrap(), 1);
    let paths = vec![Err("early".to_string()), Ok(good.as_bytes().to_vec())];
    assert_eq!(reason(find_binary(&paths, "1.0.0")), "Release 压缩包无效: early");
}

#[test]
fn candidates_must_match_their_checksum() {
    let name = "windplume-deploy-1.0.0-linux-x86_64.tar.gz";
    let bytes = archive(&[("windplume-deploy-1.0.0-linux-x86_64/windplume-deploy", b"program")]);
    let digest = <sha2::Sha256 as sha2::Digest>::digest(&bytes);
    let checksum: String = digest.iter().map(|byte| format!("{byte:02X}")).collect();
    let line = format!("{checksum}  {name}\n");
    assert!(check_archive("1.0.0", &bytes, line.as_bytes()).is_ok());
    assert_eq!(extract_binary(&bytes, "1.0.0").unwrap(), b"program");
    let other = format!("{}  {name}\n", "0".repeat(64));
    assert_eq!(
        reason(check_archive("1.0.0", &bytes, other.as_bytes())),
        "Release SHA-256 校验失败"
    );
    assert!(verify_archive("1.0.0", &digest.to_vec(), line.as_bytes()).is_ok());
    assert!(verify_archive("1.0.1", &digest.to_vec(), line.as_bytes()).is_err());
}

#[test]
fn downloads_are_limited() {
    assert!(check_download_url(&format!("{PREFIX}v1.0.0/file")).is_ok());
    assert_eq!(
        reason(check_download_url("https://github.com/other/file")),
        "Release 资产地址不受信任"
    );
    assert!(check_download(200, "200 OK", Some(MAX_ARCHIVE_BYTES)).is_ok());
    assert!(check_download(204, "204 No Content", None).is_ok());
    assert_eq!(
        reason(check_download(200, "200 OK", Some(MAX_ARCHIVE_BYTES + 1))),
        "Release 资产超过 100 MiB 限制"
    );
    assert_eq!(
        reason(check_download(404, "404 Not Found", None)),
        "Release 下载失败 (404 Not Found)"
    );
    assert!(check_body(100 * 1024 * 1024).is_ok());
    assert_eq!(reason(check_body(100 * 1024 * 1024 + 1)), "Release 资产超过 100 MiB 限制");
}

#[test]
fn release_queries_are_explained() {
    assert_eq!(
        release_api(),
        "https://api.github.com/repos/ever-light/windplume-deploy/releases/latest"
    );
    assert_eq!(
        reason(read_release(&ReleaseReply::Unreachable("no route".into()))),
        "GitHub Release 查询失败: no route"
    );
    let answer = |status, text: &str, body| ReleaseReply::Response {
        status,
        status_text: text.into(),
        body,
    };
    assert_eq!(
        reason(read_release(&answer(403, "403 Forbidden", Err("x".into())))),
        "GitHub Release 查询失败 (403 Forbidden)"
    );
    assert_eq!(
        reason(read_release(&answer(200, "200 OK", Err("bad json".into())))),
        "GitHub Release 响应无效: bad json"
    );
    assert_eq!(
        read_release(&answer(200, "200 OK", Ok(github_release("1.2.3")))).unwrap().version,
        "1.2.3"
    );
}

#[test]
fn staged_request_is_a_cross_restart_maintenance_lock() {
    let mut manager = UpdateManager::new("/data".into(), true, NOW);
    assert!(manager.is_active(true));
    assert!(!manager.begin(true));
    assert!(!manager.is_active(false));
}

#[test]
fn one_update_runs_at_a_time() {
    let mut manager = UpdateManager::new("/data".into(), true, NOW);
    assert!(manager.self_update_supported());
    assert!(manager.begin(false));
    assert!(manager.is_active(false));
    assert!(!manager.begin(false));
    manager.cancel();
    assert!(manager.begin(false));
}

#[test]
fn stages_signature_and_creates_request_last() {
    let steps = stage_update("/data/update", "1.2.3");
    let mut files = vec![
        ("/data/update/request".to_string(), "stale".to_string()),
        ("/data/update/candidate.sha256".to_string(), "legacy".to_string()),
    ];
    for step in &steps {
        let (path, content) = match step {
            StageStep::Remove(path) => (path, None),
            StageStep::WriteCandidate(path) => (path, Some("candidate".to_string())),
            StageStep::WriteSignature(path) => (path, Some("signature".to_string())),
            StageStep::WriteRequest { path, version } => (path, Some(version.clone())),
        };
        files.retain(|(name, _)| name != path);
        if let Some(content) = content {
            files.push((path.clone(), content));
        }
    }
    files.sort();
    assert_eq!(
        files,
        [
            ("/data/update/candidate".to_string(), "candidate".to_string()),
            ("/data/update/candidate.sig".to_string(), "signature".to_string()),
            ("/data/update/request".to_string(), "1.2.3".to_string()),
        ]
    );
    assert!(matches!(steps.last(), Some(StageStep::WriteRequest { .. })));
}

#[test]
fn rejects_old_update_helper_protocol() {
    assert!(!helper_protocol_matches(true, "2\n"));
    assert!(helper_protocol_matches(true, "3\n"));
    assert!(!helper_protocol_matches(false, "3\n"));
}

#[test]
fn the_update_directory_depends_on_the_installation() {
    assert_eq!(runtime_root(true, "/data"), "/var/lib/windplume-deploy");
    assert_eq!(runtime_root(false, "/data"), "/data");
    let installed = UpdateManager::new("/var/lib/windplume-deploy".into(), true, NOW);
    assert_eq!(installed.update_dir(), "/var/lib/windplume-deploy/update");
    assert_eq!(
        installed.status_file(),
        "/var/lib/windplume-deploy/update-status/status.json"
    );
    let local = UpdateManager::new("/data".into(), false, NOW);
    assert_eq!(local.status_file(), "/data/update/status.json");
    assert!(!local.self_update_supported());
}

#[test]
fn releases_are_kept_for_an_hour() {
    let second: u128 = 1_000_000_000;
    let mut manager = UpdateManager::new("/data".into(), true, NOW);
    assert!(manager.latest(false, 0).is_none());
    let release = parse_release(&github_release("1.2.3")).unwrap();
    manager.store(&release, 0);
    let limit = u128::from(RELEASE_CACHE_SECONDS) * second;
    assert_eq!(limit, 3600 * second);
    assert_eq!(manager.latest(false, limit - 1).unwrap().version, "1.2.3");
    assert!(manager.latest(true, 0).is_none());
    assert!(manager.latest(false, limit).is_none());
}

fn status(state: &str) -> UpdateStatus {
    UpdateStatus {
        state: state.into(),
        target_version: Some("1.2.3".into()),
        message: "from the helper".into(),
        updated_at: NOW.into(),
    }
}

/// A manager with an update that is under way, and has been told that so many steps succeeded.
fn under_way(steps: usize) -> (UpdateManager, UpdateRun) {
    let mut manager = UpdateManager::new("/data".into(), true, NOW);
    manager.claim(false, &vec![true]).unwrap();
    let release = parse_release(&github_release("1.2.3")).unwrap();
    let mut run = UpdateRun::start(release, &mut manager, NOW);
    for _ in 0..steps {
        run.handle(&mut manager, &UpdateEvent::Done, NOW);
    }
    (manager, run)
}

#[test]
fn the_helper_ends_maintenance() {
    let mut manager = UpdateManager::new("/data".into(), true, NOW);
    let idle = manager.status(None);
    assert_eq!((idle.state.as_str(), idle.message.as_str()), ("idle", "尚未执行更新"));
    assert_eq!(idle.updated_at, NOW);
    assert_eq!(manager.status(Some(status("installing"))).state, "installing");
    manager.begin(false);
    manager.set_status("ready", "1.2.3", "waiting", NOW);
    assert_eq!(manager.status(None).duplicate().target_version.as_deref(), Some("1.2.3"));
    assert!(!manager.poll(&status("installing")));
    assert!(manager.is_active(false));
    assert_eq!(manager.status(None).state, "ready");
    for state in ["failed", "rolled_back", "succeeded"] {
        manager.begin(false);
        assert!(manager.poll(&status(state)));
        assert!(!manager.is_active(false));
        assert_eq!(manager.status(None).state, state);
    }
}

#[test]
fn updates_proceed_step_by_step() {
    let (mut manager, mut run) = under_way(0);
    assert_eq!(manager.status(None).message, "正在下载 Release");
    assert!(matches!(
        run.action(),
        UpdateAction::Download { archive_url, checksum_url, signature_url }
            if archive_url.ends_with(".tar.gz")
                && checksum_url.ends_with(".sha256")
                && signature_url.ends_with(".sig")
    ));
    // What does not answer the action is passed over.
    run.handle(&mut manager, &UpdateEvent::Pending(true), NOW);
    run.handle(&mut manager, &UpdateEvent::Done, NOW);
    assert!(matches!(run.action(), UpdateAction::Check { version } if version == "1.2.3"));
    assert_eq!(manager.status(None).state, "downloading");
    run.handle(&mut manager, &UpdateEvent::Done, NOW);
    assert!(matches!(run.action(), UpdateAction::Extract { .. }));
    assert_eq!(manager.status(None).state, "verifying");
    run.handle(&mut manager, &UpdateEvent::Done, NOW);
    assert!(matches!(run.action(), UpdateAction::Stage { .. }));
    assert_eq!(manager.status(None).state, "ready");
    run.handle(&mut manager, &UpdateEvent::Done, NOW);
    assert!(matches!(run.action(), UpdateAction::Poll));
    run.handle(&mut manager, &UpdateEvent::Status(status("installing")), NOW);
    assert!(manager.is_active(false));
    run.handle(&mut manager, &UpdateEvent::Status(status("succeeded")), NOW);
    assert!(matches!(run.action(), UpdateAction::Finished));
    assert!(!manager.is_active(false));
    assert_eq!(manager.status(None).message, "from the helper");
}

#[test]
fn failed_preparations_end_maintenance() {
    for steps in 0..4 {
        let (mut manager, mut run) = under_way(steps);
        let error = AppError::Update("no space".into());
        run.handle(&mut manager, &UpdateEvent::Failed(error), NOW);
        assert!(matches!(run.action(), UpdateAction::Finished));
        assert!(!manager.is_active(false));
        let last = manager.status(None);
        assert_eq!((last.state.as_str(), last.message.as_str()), ("failed", "无法更新程序: no space"));
    }
}

#[test]
fn silent_helpers_are_given_up() {
    assert_eq!(HELPER_POLLS, 90);
    let (mut manager, mut run) = under_way(4);
    for _ in 0..90 {
        assert!(matches!(run.action(), UpdateAction::Poll));
        run.handle(&mut manager, &UpdateEvent::Status(status("ready")), NOW);
    }
    assert!(matches!(run.action(), UpdateAction::LookForRequest));
    run.handle(&mut manager, &UpdateEvent::Pending(true), NOW);
    assert!(matches!(run.action(), UpdateAction::Withdraw));
    assert!(manager.is_active(false));
    run.handle(&mut manager, &UpdateEvent::Done, NOW);
    assert!(matches!(run.action(), UpdateAction::Finished));
    assert_eq!(manager.status(None).message, "systemd 更新助手未响应，已取消维护状态");
    assert!(!manager.is_active(false));
}

#[test]
fn updates_need_idle_projects() {
    let mut manager = UpdateManager::new("/data".into(), true, NOW);
    assert!(matches!(manager.claim(false, &vec![true, false]), Err(AppError::Busy)));
    assert!(!manager.is_active(false));
    assert!(matches!(manager.claim(true, &vec![true, false]), Err(AppError::Updating)));
    assert!(manager.claim(false, &vec![true, true]).is_ok());
    assert!(matches!(manager.claim(false, &vec![true, true]), Err(AppError::Updating)));
}
