use windplume_deploy::compose::CommandOutput;
use windplume_deploy::system::{
    command_timeout, first_word, parse_df, parse_docker_df, parse_images, parse_meminfo,
    parse_mount, same_disk, size_parts, unit_multiplier, DockerDfRow, DockerImageRow, ServiceImage,
    SystemManager,
};

/// The size that a number with a unit spells.
fn size(value: &str) -> Result<u64, String> {
    let (number, unit) = size_parts(value);
    let number: f64 = number.parse().map_err(|_| "not a number".to_string())?;
    Ok((number * unit_multiplier(&unit)? as f64).round().max(0.0) as u64)
}

fn text(value: &serde_json::Value, name: &str) -> String {
    value[name].as_str().unwrap().to_owned()
}

fn df_rows(log: &str) -> Vec<Result<DockerDfRow, String>> {
    log.lines()
        .map(|line| {
            let value: serde_json::Value = serde_json::from_str(line).unwrap();
            Ok(DockerDfRow {
                kind: text(&value, "Type"),
                total: text(&value, "TotalCount"),
                active: text(&value, "Active"),
                size: size(&text(&value, "Size")),
                reclaimable: size(&first_word(&text(&value, "Reclaimable"))),
            })
        })
        .collect()
}

fn image_rows(log: &str) -> Vec<Result<DockerImageRow, String>> {
    log.lines()
        .map(|line| {
            let value: serde_json::Value = serde_json::from_str(line).unwrap();
            Ok(DockerImageRow {
                id: text(&value, "ID"),
                repository: text(&value, "Repository"),
                tag: text(&value, "Tag"),
                digest: text(&value, "Digest"),
                size: size(&text(&value, "Size")),
                created_at: text(&value, "CreatedAt"),
                containers: text(&value, "Containers"),
            })
        })
        .collect()
}

fn service(repository: &str) -> ServiceImage {
    ServiceImage {
        project_id: "project".into(),
        service_id: "web".into(),
        repository: repository.into(),
    }
}

#[test]
fn parses_host_and_docker_space() {
    let (disk, percent) = parse_df("1B-blocks Used Available Use%\n1000 650 350 65%\n").unwrap();
    assert_eq!(disk.available_bytes, 350);
    assert_eq!(percent.parse::<f64>().unwrap(), 65.0);

    let (memory, swap) = parse_meminfo(
        "MemTotal: 4000 kB\nMemAvailable: 2500 kB\nSwapTotal: 1000 kB\nSwapFree: 800 kB\n",
    )
    .unwrap();
    assert_eq!(memory.used_bytes, 1_500 * 1024);
    assert_eq!(swap.available_bytes, 800 * 1024);

    let docker = parse_docker_df(&df_rows(
        r#"{"Active":"7","Reclaimable":"3.005GB (67%)","Size":"4.468GB","TotalCount":"28","Type":"Images"}
{"Active":"0","Reclaimable":"8.142GB","Size":"11.13GB","TotalCount":"98","Type":"Build Cache"}"#,
    ))
    .unwrap();
    assert_eq!(docker.images.total, 28);
    assert_eq!(docker.images.reclaimable_bytes, 3_005_000_000);
    assert_eq!(docker.build_cache.size_bytes, 11_130_000_000);
}

#[test]
fn disk_reports_need_four_fields() {
    assert_eq!(parse_df(" \n\n").unwrap_err(), "df 未返回磁盘信息");
    assert_eq!(parse_df("1 2 3\n").unwrap_err(), "df 返回格式无效");
    let expected = "x".parse::<u64>().unwrap_err().to_string();
    assert_eq!(parse_df("1 x 3 4%\n").unwrap_err(), expected);
    let (disk, percent) = parse_df("9 9 9 9%\n 10 4 6 40%% \n \n").unwrap();
    assert_eq!((disk.total_bytes, disk.used_bytes), (10, 4));
    assert_eq!(percent, "40");
}

#[test]
fn mounts_are_told_apart() {
    assert_eq!(parse_mount("Mounted on\n/data disk \n").unwrap(), "/data disk");
    assert!(parse_mount("\n").is_err());
    assert!(same_disk("/", "/"));
    assert!(!same_disk("/", "/var"));
}

#[test]
fn memory_reports_need_totals() {
    assert_eq!(
        parse_meminfo("MemFree: 1 kB\n").unwrap_err(),
        "/proc/meminfo 缺少 MemTotal"
    );
    assert_eq!(
        parse_meminfo("MemTotal: 1 kB\n").unwrap_err(),
        "/proc/meminfo 缺少 SwapTotal"
    );
    let (memory, swap) =
        parse_meminfo("no colon\nMemTotal: 1 kB\nMemTotal: 2 kB\nEmpty:\nSwapTotal: 0 kB\nMemAvailable: 3 kB\n")
            .unwrap();
    assert_eq!(memory.total_bytes, 2048);
    assert_eq!(memory.used_bytes, 0);
    assert_eq!(memory.available_bytes, 3072);
    assert_eq!((swap.total_bytes, swap.used_bytes), (0, 0));
    let huge = u64::MAX;
    let (memory, _) = parse_meminfo(&format!("MemTotal: {huge} kB\nSwapTotal: 0 kB\n")).unwrap();
    assert_eq!(memory.total_bytes, u64::MAX);
    let expected = "many".parse::<u64>().unwrap_err().to_string();
    assert_eq!(parse_meminfo("Other: many\n").unwrap_err(), expected);
}

#[test]
fn units_are_decimal_or_binary() {
    for (unit, bytes) in [
        ("B", 1u64),
        ("", 1),
        ("kB", 1_000),
        ("KB", 1_000),
        ("MB", 1_000_000),
        ("GB", 1_000_000_000),
        ("TB", 1_000_000_000_000),
        ("KiB", 1_024),
        ("MiB", 1_048_576),
        ("GiB", 1_073_741_824),
        ("TiB", 1_099_511_627_776),
    ] {
        assert_eq!(unit_multiplier(unit).unwrap(), bytes);
    }
    assert_eq!(unit_multiplier("PB").unwrap_err(), "无法识别空间单位: PB");
    assert_eq!(size_parts("1.5 GB "), ("1.5".to_string(), "GB".to_string()));
    assert_eq!(size_parts("17"), ("17".to_string(), String::new()));
    assert_eq!(size_parts("-1B"), (String::new(), "-1B".to_string()));
    assert_eq!(first_word("  3GB (67%)"), "3GB");
    assert_eq!(first_word(" "), "");
}

#[test]
fn docker_reports_fail_with_their_first_fault() {
    let row = |total: &str, size: Result<u64, String>| {
        Ok(DockerDfRow {
            kind: "Images".into(),
            total: total.into(),
            active: "0".into(),
            size,
            reclaimable: Ok(0),
        })
    };
    assert_eq!(
        parse_docker_df(&vec![Err("bad row".into())]).unwrap_err(),
        "bad row"
    );
    assert_eq!(
        parse_docker_df(&vec![row("1", Err("bad size".into())), Err("bad row".into())]).unwrap_err(),
        "bad size"
    );
    assert_eq!(
        parse_docker_df(&vec![row("x", Err("bad size".into()))]).unwrap_err(),
        "x".parse::<u64>().unwrap_err().to_string()
    );
    let usage = parse_docker_df(&vec![row("1", Ok(5)), row("2", Ok(7))]).unwrap();
    assert_eq!((usage.images.total, usage.images.size_bytes), (2, 7));
    assert_eq!(usage.containers.total, 0);
}

#[test]
fn only_lists_managed_repositories_and_protects_referenced_images() {
    let rows = image_rows(
        r#"{"Containers":"0","CreatedAt":"2026-07-30 00:00:00 +0000 UTC","Digest":"sha256:old","ID":"sha256:old","Repository":"ghcr.io/me/app","Size":"100MB","Tag":"1.0.0"}
{"Containers":"1","CreatedAt":"2026-07-31 00:00:00 +0000 UTC","Digest":"sha256:current","ID":"sha256:current","Repository":"ghcr.io/me/app","Size":"110MB","Tag":"1.1.0"}
{"Containers":"0","CreatedAt":"2026-07-31 00:00:00 +0000 UTC","Digest":"sha256:other","ID":"sha256:other","Repository":"other/app","Size":"90MB","Tag":"latest"}"#,
    );
    let services = vec![service("ghcr.io/me/app")];
    let protected = vec![("sha256:old".to_string(), vec!["rollback".to_string()])];
    let images = parse_images(&rows, &services, &protected, &Vec::new()).unwrap();
    assert_eq!(images.len(), 2);
    assert!(!images[0].removable);
    assert_eq!(images[0].protected_reasons, ["container"]);
    assert!(!images[1].removable);
    assert_eq!(images[1].protected_reasons, ["rollback"]);
}

#[test]
fn images_of_any_container_are_kept() {
    let rows = image_rows(
        r#"{"Containers":"N/A","CreatedAt":"2","Digest":"<none>","ID":"sha256:a","Repository":"nginx","Size":"1kB","Tag":"b"}
{"Containers":"N/A","CreatedAt":"2","Digest":"sha256:d","ID":"sha256:b","Repository":"nginx","Size":"1kB","Tag":"a"}"#,
    );
    let services = vec![service("docker.io/library/nginx")];
    let used = vec!["sha256:a".to_string(), "sha256:a".to_string()];
    let images = parse_images(&rows, &services, &Vec::new(), &used).unwrap();
    assert_eq!(images[0].id, "sha256:b");
    assert!(images[0].removable);
    assert!(images[0].protected_reasons.is_empty());
    assert_eq!(images[0].digest.as_deref(), Some("sha256:d"));
    assert_eq!(images[0].size_bytes, 1000);
    assert_eq!(images[0].services[0].service_id, "web");
    assert_eq!(images[1].containers, 2);
    assert_eq!(images[1].protected_reasons, ["container"]);
    assert!(images[1].digest.is_none());
    assert!(!images[1].removable);
    let bad = image_rows(
        r#"{"Containers":"x","CreatedAt":"2","Digest":"","ID":"a","Repository":"nginx","Size":"1kB","Tag":"b"}"#,
    );
    assert_eq!(
        parse_images(&bad, &services, &Vec::new(), &Vec::new()).unwrap_err(),
        "x".parse::<u64>().unwrap_err().to_string()
    );
}

#[test]
fn commands_are_spelled_out() {
    let manager = SystemManager::new("/data".into());
    let disk = manager.disk("/");
    assert_eq!(disk.program, "df");
    assert_eq!(disk.args, ["-B1", "--output=size,used,avail,pcent", "/"]);
    assert_eq!(disk.cwd, "/data");
    assert_eq!(
        manager.docker_usage().args,
        ["system", "df", "--format", "{{json .}}"]
    );
    assert_eq!(
        manager.images().args,
        ["image", "ls", "--digests", "--no-trunc", "--format", "{{json .}}"]
    );
    assert_eq!(manager.containers().args[..2], ["container", "ls"]);
    assert!(manager.container_images(&Vec::new()).is_none());
    assert_eq!(
        manager.container_images(&vec!["a".into()]).unwrap().args[..2],
        ["container", "inspect"]
    );
    assert_eq!(manager.remove_image("sha256:a").args, ["image", "rm", "sha256:a"]);
    assert_eq!(
        manager.prune_build_cache().args,
        ["builder", "prune", "--force", "--filter", "until=168h"]
    );
    assert_eq!(command_timeout(), 30);
    let output = |success, log: &str| {
        Ok(CommandOutput {
            success,
            log: log.into(),
        })
    };
    assert_eq!(disk.result(output(false, " no \n")).unwrap_err(), "df 执行失败: no");
    let images = manager.images();
    assert_eq!(
        images.result(output(false, " no \n")).unwrap_err(),
        "Docker 命令执行失败: no"
    );
    assert_eq!(images.result(output(true, " yes \n")).unwrap(), " yes \n");
    assert_eq!(images.result(Err("late".into())).unwrap_err(), "late");
}
