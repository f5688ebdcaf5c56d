//! What the functions at the panel's edge hand back, for every result that their contracts allow.
use crate::compose::{
    self, CommandOutput, Compose, Invocation, Operation, RuntimeState, Wait, WaitView,
};
use crate::config::{self, ProjectConfig, ServiceConfig, VersionSourceConfig};
use crate::deployment::{
    self, Action, ActionView, Job, LifecycleAction, Step, Task, Wish, WishAction,
};
use crate::duplicate;
use crate::error::{AppError, AppErrorView, ErrorResponse};
use crate::github::PackageQuery;
use crate::host_laws;
use crate::outside;
use crate::paths;
use crate::registry::{
    self, OciQuery, OciRequest, OciStateView, RawVersion, RegistryCredentials,
};
use crate::storage::{Deployment, DeploymentArtifact, ServiceRevision, Storage};
use crate::system::{self, HostCommand, ManagedImage, SystemManager};
use crate::text;
use crate::text_laws;
use crate::update::{self, ReleaseInfo, UpdateManager, UpdateStatus};
use crate::update_run::{UpdateAction, UpdateRun};
use crate::web;
use vstd::prelude::*;

verus! {

/// A deployment begins with marking itself as running. It is of the service and the version that
/// were asked for, and knows nothing yet.
pub proof fn law_deployments_begin(
    item: &Deployment,
    project_id: &str,
    service: &ServiceConfig,
    present: bool,
    task: Task,
)
    requires
        call_ensures(Task::run, (item, project_id, service, present), task),
    ensures
        ({
            let t = task.deep_view();
            &&& t.job == Job::Deploy && t.step == Step::Mark && t.present == present
            &&& t.id == item.id@ && t.project_id == project_id@ && t.service_id == service.id@
            &&& t.repository == service.image@
            &&& t.version == item.target_version@
            &&& t.log.len() == 0 && t.fatal is None
        }),
{
}

/// A rollback begins with marking itself as running. It is to the version and the image that were
/// recorded.
pub proof fn law_rollbacks_begin(
    item: &Deployment,
    project_id: &str,
    service: &ServiceConfig,
    revision: &ServiceRevision,
    present: bool,
    task: Task,
)
    requires
        call_ensures(Task::run_revision, (item, project_id, service, revision, present), task),
    ensures
        ({
            let t = task.deep_view();
            &&& t.job == Job::Rollback && t.step == Step::Mark && t.present == present
            &&& t.id == item.id@ && t.project_id == project_id@ && t.service_id == service.id@
            &&& t.version == revision.version@
            &&& t.artifact.image == revision.image@
            &&& t.artifact.pinned_image == revision.pinned_image@
            &&& t.artifact.digest == revision.image_digest@
            &&& t.artifact.image_id == revision.image_id@
            &&& t.log.len() == 0 && t.fatal is None
        }),
{
}

/// Any other operation begins with marking itself as running, and is the one that was asked for.
pub proof fn law_lifecycle_operations_begin(
    item: &Deployment,
    project_id: &str,
    service: &ServiceConfig,
    action: LifecycleAction,
    present: bool,
    task: Task,
)
    requires
        call_ensures(Task::run_lifecycle, (item, project_id, service, action, present), task),
    ensures
        ({
            let t = task.deep_view();
            &&& t.job == Job::Lifecycle(action) && t.step == Step::Mark && t.present == present
            &&& t.id == item.id@ && t.project_id == project_id@ && t.service_id == service.id@
            &&& t.log.len() == 0 && t.fatal is None
        }),
{
}

/// How long the commands of a project may take: as long as it says, but reading logs no longer than
/// half a minute and looking at containers no longer than a quarter of one.
pub proof fn law_commands_take_their_time(
    project: &ProjectConfig,
    operation: &Operation,
    logs: u64,
    any: u64,
    looking: u64,
    query: Option<u64>,
    host: u64,
)
    requires
        call_ensures(deployment::log_timeout, (project,), logs),
        call_ensures(deployment::operation_timeout, (project, operation), any),
        call_ensures(web::runtime_timeout, (project,), looking),
        call_ensures(web::runtime_query, (project,), query),
        call_ensures(system::command_timeout, (), host),
    ensures
        ({
            let own = project.command_timeout_seconds;
            &&& own <= 30 ==> logs == own
            &&& own > 30 ==> logs == 30
            &&& *operation is Logs ==> any == logs
            &&& !(*operation is Logs) ==> any == own
            &&& own <= 15 ==> looking == own
            &&& own > 15 ==> looking == 15
            &&& project.services@.len() == 0 ==> query is None
            &&& project.services@.len() > 0 ==> query == Some(looking)
            &&& host == 30
        }),
{
}

/// What is taken where nothing is configured.
pub proof fn law_defaults(health: u64, command: u64, pattern: String)
    requires
        call_ensures(config::default_health, (), health),
        call_ensures(config::default_command, (), command),
        call_ensures(config::default_tag_pattern, (), pattern),
    ensures
        health == 120,
        command == 600,
        pattern@ == "^.+$"@,
{
}

/// How many lines of a log are read, and how many operations are listed: fifty where nothing is
/// asked for, at least one, and at most two hundred lines and five hundred operations.
pub proof fn law_what_is_asked_for_is_limited(n: u32, all: u32, lines: u32, some: u32, listed: u32)
    requires
        call_ensures(web::log_tail, (None::<u32>,), all),
        call_ensures(web::log_tail, (Some(n),), lines),
        call_ensures(web::history_limit, (None::<u32>,), some),
        call_ensures(web::history_limit, (Some(n),), listed),
    ensures
        all == 50,
        some == 50,
        n == 0 ==> lines == 1 && listed == 1,
        1 <= n <= 200 ==> lines == n,
        n > 200 ==> lines == 200,
        1 <= n <= 500 ==> listed == n,
        n > 500 ==> listed == 500,
{
}

/// A project is shown as busy during an update and while something is done to it.
pub proof fn law_busy_projects(updating: bool, idle: bool, busy: bool)
    requires
        call_ensures(web::is_in_progress, (updating, idle), busy),
    ensures
        busy <==> updating || !idle,
{
}

/// A request that is not the session's own is answered as forbidden.
pub proof fn law_rejected_requests(answer: ErrorResponse)
    requires
        call_ensures(web::csrf_rejection, (), answer),
    ensures
        answer.status == 403,
        answer.code@ == "csrf_rejected"@,
        answer.message@ == "请求来源校验失败，请刷新页面后重试"@,
{
}

/// The panel begins an update exactly where the release is newer than what runs, whatever its major
/// number.
pub proof fn law_newer_releases_are_installed(
    current: &str,
    latest: &str,
    release: &ReleaseInfo,
    answer: Result<(), AppError>,
    offered: bool,
)
    requires
        call_ensures(web::start_update, (current, release), answer),
        call_ensures(web::update_available, (latest, current), offered),
        release.version@ == latest@,
        outside::semver_numbers(current@) is Some,
        outside::semver_numbers(release.version@) is Some,
    ensures
        answer is Ok <==> offered,
        outside::numbers_exceed(
            outside::semver_numbers(release.version@)->0,
            outside::semver_numbers(current@)->0,
        ) ==> answer is Ok,
        outside::numbers_exceed(
            outside::semver_numbers(current@)->0,
            outside::semver_numbers(release.version@)->0,
        ) ==> answer is Err,
{
}

/// The commands that the panel runs on the host.
pub proof fn law_host_commands(
    manager: &SystemManager,
    path: &str,
    id: &str,
    disk: HostCommand,
    mount: HostCommand,
    usage: HostCommand,
    images: HostCommand,
    containers: HostCommand,
    remove: HostCommand,
    prune: HostCommand,
)
    requires
        call_ensures(SystemManager::disk, (manager, path), disk),
        call_ensures(SystemManager::mount_point, (manager, path), mount),
        call_ensures(SystemManager::docker_usage, (manager,), usage),
        call_ensures(SystemManager::images, (manager,), images),
        call_ensures(SystemManager::containers, (manager,), containers),
        call_ensures(SystemManager::remove_image, (manager, id), remove),
        call_ensures(SystemManager::prune_build_cache, (manager,), prune),
    ensures
        disk.program@ == "df"@ && mount.program@ == "df"@,
        disk.args.deep_view() == seq!["-B1"@, "--output=size,used,avail,pcent"@, path@],
        mount.args.deep_view() == seq!["--output=target"@, path@],
        usage.program@ == "docker"@ && images.program@ == "docker"@ && containers.program@
            == "docker"@ && remove.program@ == "docker"@ && prune.program@ == "docker"@,
        usage.args.deep_view() == seq!["system"@, "df"@, "--format"@, "{{json .}}"@],
        images.args.deep_view() == seq![
            "image"@,
            "ls"@,
            "--digests"@,
            "--no-trunc"@,
            "--format"@,
            "{{json .}}"@,
        ],
        containers.args.deep_view() == seq![
            "container"@,
            "ls"@,
            "--all"@,
            "--quiet"@,
            "--no-trunc"@,
        ],
        remove.args.deep_view() == seq!["image"@, "rm"@, id@],
        prune.args.deep_view() == seq![
            "builder"@,
            "prune"@,
            "--force"@,
            "--filter"@,
            "until=168h"@,
        ],
        ({
            let cwd = manager.deep_view();
            &&& disk.cwd@ == cwd && mount.cwd@ == cwd && usage.cwd@ == cwd && images.cwd@ == cwd
            &&& containers.cwd@ == cwd && remove.cwd@ == cwd && prune.cwd@ == cwd
        }),
{
}

/// The images of containers are asked for all at once, and not at all where there are none.
pub proof fn law_container_images_are_asked_for(
    manager: &SystemManager,
    ids: &Vec<String>,
    command: Option<HostCommand>,
)
    requires
        call_ensures(SystemManager::container_images, (manager, ids), command),
    ensures
        command is None <==> ids@.len() == 0,
        command matches Some(run) ==> run.program@ == "docker"@ && run.cwd@ == manager.deep_view()
            && run.args.deep_view() == seq!["container"@, "inspect"@, "--format"@, "{{.Image}}"@]
            + ids.deep_view(),
{
}

/// Two mount points are one disk exactly where they are the same.
pub proof fn law_disks_are_told_apart(first: &str, second: &str, same: bool)
    requires
        call_ensures(system::same_disk, (first, second), same),
    ensures
        same <==> first@ == second@,
{
}

/// A query for a service's versions begins without a token, at the registry that its source names,
/// without slashes behind the address.
pub proof fn law_queries_begin(source: &VersionSourceConfig, has_credentials: bool, query: OciQuery)
    requires
        call_ensures(OciQuery::new, (source, has_credentials), query),
    ensures
        query.deep_view().state == OciStateView::Tags,
        query.deep_view().has_credentials == has_credentials,
        match *source {
            VersionSourceConfig::DockerHub { namespace, repository } => {
                &&& query.deep_view().repository == namespace@ + "/"@ + repository@
                &&& query.deep_view().registry == text::trim_end_char("registry-1.docker.io"@, '/')
            },
            VersionSourceConfig::OciRegistry { registry, repository } => {
                &&& query.deep_view().repository == repository@
                &&& query.deep_view().registry == text::trim_end_char(registry@, '/')
            },
        },
{
}

/// A query for a package begins at its first page, at the user's own address.
pub proof fn law_package_queries_begin(base: &str, owner: &str, package: &str, query: PackageQuery)
    requires
        call_ensures(PackageQuery::new, (base, owner, package), query),
    ensures
        query.deep_view().url == text::trim_end_char(base@, '/') + "/users/"@ + owner@
            + "/packages/container/"@ + package@ + "/versions"@,
        query.deep_view().page == 1,
        query.deep_view().raw.len() == 0,
        query.deep_view().result is None,
{
}

/// Where releases are asked for, and from where they may be downloaded.
pub proof fn law_releases_have_one_source(api: &str, url: &str, answer: Result<(), AppError>)
    requires
        call_ensures(update::release_api, (), api),
        call_ensures(update::check_download_url, (url,), answer),
    ensures
        api@ == "https://api.github.com/repos/ever-light/windplume-deploy/releases/latest"@,
        answer is Ok <==> text::starts_with(
            url@,
            "https://github.com/ever-light/windplume-deploy/releases/download/"@,
        ),
{
}

/// The panel keeps its files in one place where its helper is installed, and otherwise where it is
/// told to.
pub proof fn law_files_have_their_place(installed: bool, fallback: &str, root: String)
    requires
        call_ensures(update::runtime_root, (installed, fallback), root),
    ensures
        root@ == (if installed {
            "/var/lib/windplume-deploy"@
        } else {
            fallback@
        }),
{
}

/// An update manager begins idle, with nothing under way and nothing known.
pub proof fn law_update_managers_begin(
    dir: String,
    supported: bool,
    now: &str,
    manager: UpdateManager,
)
    requires
        call_ensures(UpdateManager::new, (dir, supported, now), manager),
    ensures
        ({
            let m = manager.deep_view();
            &&& m.data_dir == dir@
            &&& m.supported == supported
            &&& !m.active && m.cache is None
            &&& m.status.state == "idle"@ && m.status.target_version is None
            &&& m.status.message == "尚未执行更新"@ && m.status.updated_at == now@
        }),
{
}

/// An installation that cannot update itself says so.
pub proof fn law_updates_need_support(supported: bool, answer: Result<(), AppError>)
    requires
        call_ensures(web::check_update_support, (supported,), answer),
    ensures
        answer is Ok <==> supported,
        answer matches Err(error) ==> error.deep_view() == AppErrorView::Update(
            "当前不支持自更新：需 Linux x86_64，并需运行 install.sh 安装签名公钥和更新助手"@,
        ),
{
}

/// The file that is written without a candidate is the one that pins what should run.
pub proof fn law_files_without_candidate(
    storage: &Storage,
    project: &ProjectConfig,
    service_id: &str,
    rebuilt: Result<String, String>,
    written: Result<String, String>,
)
    requires
        call_ensures(deployment::rebuild_project_override, (storage, project), rebuilt),
        call_ensures(
            deployment::candidate_override,
            (storage, project, service_id, &None::<String>),
            written,
        ),
    ensures
        duplicate::outcome(rebuilt) == duplicate::outcome(written),
{
}

/// The commands that Compose is given for a service, and those that Docker is given for containers
/// and images. All of them run in the project's directory.
pub proof fn law_compose_commands(
    compose: &Compose,
    service: &str,
    ids: &Vec<String>,
    image: &str,
    all: Invocation,
    inspect: Option<Invocation>,
    inspect_image: Invocation,
    operation: &Operation,
    run: Invocation,
)
    requires
        compose.deep_view().cfg.has_dir(),
        call_ensures(Compose::ps_all, (compose,), all),
        call_ensures(Compose::inspect, (compose, ids), inspect),
        call_ensures(Compose::inspect_image, (compose, image), inspect_image),
        call_ensures(Compose::invocation, (compose, operation, service), run),
    ensures
        ({
            let c = compose.deep_view();
            let dir = c.cfg.dir();
            &&& all.args.deep_view() == c.base_args() + seq!["ps"@, "-q"@] && all.cwd@ == dir
            &&& ids@.len() == 0 <==> inspect is None
            &&& inspect matches Some(command) ==> command.args.deep_view() == seq!["inspect"@]
                + ids.deep_view() && command.cwd@ == dir
            &&& inspect_image.args.deep_view() == seq!["image"@, "inspect"@, image@]
            &&& inspect_image.cwd@ == dir
            &&& run.args.deep_view() == c.base_args() + operation.arguments(service@)
            &&& run.cwd@ == dir
        }),
{
}

/// Each operation has a command of its own, and it is the one that the operation asks for.
pub proof fn law_operations_are_their_commands(
    compose: &Compose,
    service: &str,
    tail: u32,
    pull: Invocation,
    up: Invocation,
    recreate: Invocation,
    stop: Invocation,
    remove: Invocation,
    logs: Invocation,
    ps: Invocation,
)
    requires
        compose.deep_view().cfg.has_dir(),
        call_ensures(Compose::pull, (compose, service), pull),
        call_ensures(Compose::up, (compose, service), up),
        call_ensures(Compose::recreate, (compose, service), recreate),
        call_ensures(Compose::stop, (compose, service), stop),
        call_ensures(Compose::remove, (compose, service), remove),
        call_ensures(Compose::logs, (compose, service, tail), logs),
        call_ensures(Compose::ps, (compose, service), ps),
    ensures
        ({
            let base = compose.deep_view().base_args();
            let s = service@;
            &&& pull.args.deep_view() == base + seq!["pull"@, s]
            &&& up.args.deep_view() == base + seq!["up"@, "-d"@, "--no-deps"@, s]
            &&& recreate.args.deep_view() == base + seq![
                "up"@,
                "-d"@,
                "--force-recreate"@,
                "--no-deps"@,
                s,
            ]
            &&& stop.args.deep_view() == base + seq!["stop"@, s]
            &&& remove.args.deep_view() == base + seq!["rm"@, "--stop"@, "--force"@, s]
            &&& logs.args.deep_view() == base + seq![
                "logs"@,
                "--no-color"@,
                "--tail"@,
                text::decimal(tail as nat),
                s,
            ]
            &&& ps.args.deep_view() == base + seq!["ps"@, "-q"@, s]
        }),
{
}

/// A body of up to 100 MiB is accepted.
pub proof fn law_bodies_are_limited(length: usize, answer: Result<(), AppError>)
    requires
        call_ensures(update::check_body, (length,), answer),
    ensures
        answer is Ok <==> length <= 100 * 1024 * 1024,
        answer matches Err(error) ==> error.deep_view() == AppErrorView::Update(
            "Release 资产超过 100 MiB 限制"@,
        ),
{
}

/// The helper speaks the panel's protocol where it says 3, with white space around it at most, and
/// ends well.
pub proof fn law_helpers_speak_one_protocol(
    success: bool,
    printed: &str,
    before: Seq<char>,
    said: Seq<char>,
    after: Seq<char>,
    matches: bool,
)
    requires
        call_ensures(update::helper_protocol_matches, (success, printed), matches),
        text_laws::is_blank(before),
        text_laws::is_bare(said),
        text_laws::is_blank(after),
        printed@ == before + said + after,
    ensures
        matches <==> success && said == "3"@,
{
    text_laws::law_white_space_around_is_taken_off(before, said, after);
}

/// What the helper has written counts before what the panel knows itself.
pub proof fn law_helpers_know_better(
    manager: &UpdateManager,
    written: UpdateStatus,
    known: UpdateStatus,
    told: UpdateStatus,
)
    requires
        call_ensures(UpdateManager::status, (manager, None::<UpdateStatus>), known),
        call_ensures(UpdateManager::status, (manager, Some(written)), told),
    ensures
        known.deep_view() == manager.deep_view().status,
        told.deep_view() == written.deep_view(),
{
}

/// Images are removed exactly where each of those that were asked for is listed as removable.
pub proof fn law_cleanup_is_all_or_nothing(
    requested: &Vec<String>,
    images: &Vec<ManagedImage>,
    answer: Result<(), AppError>,
)
    requires
        call_ensures(web::check_cleanup, (requested, images), answer),
    ensures
        answer is Ok <==> forall|i: int|
            0 <= i < requested@.len() ==> exists|k: int|
                0 <= k < images@.len() && (#[trigger] images@[k]).removable && images@[k].id@
                    == (#[trigger] requested@[i])@,
{
    let asked = requested.deep_view();
    let listed = images.deep_view();
    web::law_cleanup_removes_only_removable_images(asked, listed);
    assert forall|i: int| 0 <= i < requested@.len() implies (web::is_removable(
        listed,
        #[trigger] asked[i],
    ) <==> exists|k: int|
        0 <= k < images@.len() && (#[trigger] images@[k]).removable && images@[k].id@
            == requested@[i]@) by {
        assert(asked[i] == requested@[i]@);
        if web::is_removable(listed, asked[i]) {
            let k = choose|k: int|
                0 <= k < listed.len() && (#[trigger] listed[k]).removable && listed[k].id
                    == asked[i];
            assert(images@[k].removable);
        }
        if exists|k: int|
            0 <= k < images@.len() && (#[trigger] images@[k]).removable && images@[k].id@
                == requested@[i]@ {
            let k = choose|k: int|
                0 <= k < images@.len() && (#[trigger] images@[k]).removable && images@[k].id@
                    == requested@[i]@;
            assert(listed[k] == images@[k].deep_view());
        }
    }
    if forall|i: int|
        0 <= i < requested@.len() ==> exists|k: int|
            0 <= k < images@.len() && (#[trigger] images@[k]).removable && images@[k].id@
                == (#[trigger] requested@[i])@ {
        assert forall|i: int| 0 <= i < asked.len() implies web::is_removable(
            listed,
            #[trigger] asked[i],
        ) by {
            assert(asked[i] == requested@[i]@);
        }
    }
    if web::not_removable(asked, listed) is None {
        assert forall|i: int| 0 <= i < requested@.len() implies exists|k: int|
            0 <= k < images@.len() && (#[trigger] images@[k]).removable && images@[k].id@
                == (#[trigger] requested@[i])@ by {
            assert(web::is_removable(listed, asked[i]));
        }
    }
}

/// A downloaded archive is accepted exactly where its checksum file names it and says its own
/// digest.
pub proof fn law_downloaded_archives_are_checked(
    version: &str,
    archive: &Vec<u8>,
    checksum: &[u8],
    answer: Result<(), AppError>,
)
    requires
        call_ensures(update::check_archive, (version, archive, checksum), answer),
    ensures
        answer is Ok <==> update::checksum_in(
            checksum@,
            "windplume-deploy-"@ + version@ + "-linux-x86_64.tar.gz"@,
        ) == Ok::<_, AppErrorView>(update::hex(outside::sha256_digest(archive@))),
{
}

/// The credentials for a registry are what Docker keeps for it, decoded.
pub proof fn law_kept_credentials_are_decoded(
    auths: &Vec<(String, Option<String>)>,
    registry: &str,
    auth: &str,
    found: Option<RegistryCredentials>,
    decoded: Option<RegistryCredentials>,
)
    requires
        call_ensures(registry::registry_credentials, (auths, registry), found),
        call_ensures(registry::decode_docker_auth, (auth,), decoded),
        registry::kept_auth(auths.deep_view(), registry@) == Some(auth@),
    ensures
        found.deep_view() == decoded.deep_view(),
        decoded.deep_view() == registry::credentials_in(outside::base64_bytes(auth@)),
{
}

/// A query has a result exactly where it has ended, and then it is that one.
pub proof fn law_query_results(query: &OciQuery, result: Option<Result<Vec<RawVersion>, AppError>>)
    requires
        call_ensures(OciQuery::result, (query,), result),
    ensures
        result is None <==> !(query.deep_view().state is Finished),
        result is Some ==> query.deep_view().state == OciStateView::Finished(
            duplicate::outcome(result->0),
        ),
{
}

/// A task asks for what its view asks for, and so do a wish, a query and an update.
pub proof fn law_actions_are_handed_out(
    task: &Task,
    action: Action,
    wish: &Wish,
    wanted: WishAction,
    query: &OciQuery,
    request: OciRequest,
    run: &UpdateRun,
    next: UpdateAction,
)
    requires
        call_ensures(Task::action, (task,), action),
        call_ensures(Wish::action, (wish,), wanted),
        call_ensures(OciQuery::request, (query,), request),
        call_ensures(UpdateRun::action, (run,), next),
    ensures
        action.deep_view() == task.deep_view().action(),
        wanted.deep_view() == wish.deep_view().action(),
        request.deep_view() == query.deep_view().request(),
        next.deep_view() == run.deep_view().action(),
{
}

/// After a restart, a deployment that was started and whose image runs, healthy or running, is
/// taken to have come through.
pub proof fn law_resumed_deployments(
    item: &Deployment,
    project_id: &str,
    service: &ServiceConfig,
    artifact: &DeploymentArtifact,
    actual: &RuntimeState,
    task: Task,
)
    requires
        call_ensures(Task::resume, (item, project_id, service, artifact, actual), task),
        artifact.target_image is Some,
        artifact.target_pinned_image is Some,
        artifact.target_digest is Some,
        artifact.target_image_id is Some,
        artifact.target_image_id->0@.len() > 0,
        actual.actual_image_id is Some,
        actual.actual_image_id->0@ == artifact.target_image_id->0@,
        !actual.mixed_images,
        actual.container_status@ == "healthy"@ || actual.container_status@ == "running"@,
        artifact.phase@ == "checking"@ || artifact.phase@ == "committing"@,
    ensures
        match task.deep_view().action() {
            ActionView::RecordSuccess { revision, .. } => {
                &&& revision.version == item.target_version@
                &&& revision.image == artifact.target_image->0@
                &&& revision.pinned_image == artifact.target_pinned_image->0@
                &&& revision.image_digest == artifact.target_digest->0@
                &&& revision.image_id == artifact.target_image_id->0@
            },
            _ => false,
        },
{
}

/// A request is accepted where it only reads, or where it brings the session's token and does not
/// come from elsewhere.
pub proof fn law_requests_are_guarded(
    method: &str,
    expected: &str,
    token: &Option<String>,
    origin: &Option<String>,
    host: &Option<String>,
    accepted: bool,
)
    requires
        call_ensures(web::csrf_guard, (method, expected, token, origin, host), accepted),
    ensures
        method@ == "GET"@ || method@ == "HEAD"@ || method@ == "OPTIONS"@ ==> accepted,
        token is Some && token->0@ == expected@ && origin is None ==> accepted,
        accepted && method@ != "GET"@ && method@ != "HEAD"@ && method@ != "OPTIONS"@ ==> token is Some
            && token->0@ == expected@,
{
}

/// What is made of a command's output. One that cannot be run, or ran too long, is the error that
/// it was; one that failed has a message of its own, with what it said where that tells the reason.
pub proof fn law_failed_commands_say_what_failed(
    result: Result<CommandOutput, String>,
    project: &ProjectConfig,
    looked: Result<String, String>,
    listed: Result<String, String>,
    image: Result<String, String>,
    resolved: Result<String, String>,
)
    requires
        project.compose_files@.len() > 0,
        call_ensures(compose::inspect_log, (result,), looked),
        call_ensures(compose::ps_log, (result,), listed),
        call_ensures(compose::inspect_image_log, (result,), image),
        call_ensures(compose::resolve_log, (project, result), resolved),
    ensures
        match result {
            Err(error) => {
                &&& looked is Err && listed is Err && image is Err && resolved is Err
                &&& looked->Err_0@ == error@ && listed->Err_0@ == error@
                &&& image->Err_0@ == error@ && resolved->Err_0@ == error@
            },
            Ok(output) => if output.success {
                &&& looked is Ok && listed is Ok && image is Ok && resolved is Ok
                &&& looked->Ok_0@ == output.log@ && listed->Ok_0@ == output.log@
                &&& image->Ok_0@ == output.log@ && resolved->Ok_0@ == output.log@
            } else {
                &&& looked is Err && listed is Err && image is Err && resolved is Err
                &&& looked->Err_0@ == "docker inspect 执行失败"@
                &&& listed->Err_0@ == "docker compose ps 执行失败"@
                &&& image->Err_0@ == "无法检查已拉取镜像"@ + "\n"@ + output.log@
                &&& resolved->Err_0@ == "无法解析 Compose 项目 "@ + project.compose_files@[0]@
                    + "\n"@ + output.log@
            },
        },
{
}

/// Waiting for a service without saying which image it should run is waiting for any image. What is
/// seen of the containers counts where they could be listed; where they could not, the wait is over.
pub proof fn law_waiting_for_any_image(
    inspected: Result<(RuntimeState, bool), String>,
    expected: &Option<String>,
    error: String,
    ids: Vec<String>,
    time_is_up: bool,
    any: Wait,
    none: Wait,
    this: Wait,
    seen: Wait,
    lost: Wait,
)
    requires
        call_ensures(compose::wait_healthy, (inspected, time_is_up), any),
        call_ensures(compose::wait_healthy_image, (inspected, &None::<String>, time_is_up), none),
        call_ensures(compose::wait_healthy_image, (inspected, expected, time_is_up), this),
        call_ensures(
            compose::wait_healthy_listed,
            (&Ok::<Vec<String>, String>(ids), inspected, expected, time_is_up),
            seen,
        ),
        call_ensures(
            compose::wait_healthy_listed,
            (&Err::<Vec<String>, String>(error), inspected, expected, time_is_up),
            lost,
        ),
    ensures
        any.deep_view() == none.deep_view(),
        seen.deep_view() == this.deep_view(),
        lost.deep_view() == WaitView::Failed(error@),
{
}

/// A project's containers have as long to become healthy as the project says.
pub proof fn law_health_has_its_time(project: &ProjectConfig, seconds: u64)
    requires
        call_ensures(ProjectConfig::health_timeout, (project,), seconds),
    ensures
        seconds == project.health_timeout_seconds,
{
}

/// Something is too old once as many seconds have passed as it may be kept.
pub proof fn law_age_is_counted_in_seconds(at: u128, now: u128, seconds: u64, stale: bool)
    requires
        call_ensures(registry::is_stale, (at, now, seconds), stale),
    ensures
        stale <==> seconds == 0 || at + seconds * 1_000_000_000 <= now,
{
}

/// The first word of a text is found behind white space, and ends at the next.
pub proof fn law_first_word(value: &str, word: String)
    requires
        call_ensures(system::first_word, (value,), word),
    ensures
        text::words(value@).len() > 0 ==> word@ == text::words(value@)[0],
        text::words(value@).len() == 0 ==> word@.len() == 0,
{
}

/// A size is a number and a unit, with white space between them or none.
pub proof fn law_sizes_have_a_number_and_a_unit(
    value: &str,
    number: Seq<char>,
    gap: Seq<char>,
    unit: Seq<char>,
    end: Seq<char>,
    parts: (String, String),
)
    requires
        value@ == number + (gap + unit + end),
        forall|i: int|
            0 <= i < number.len() ==> text::is_digit(#[trigger] number[i]) || number[i] == '.',
        text_laws::is_blank(gap),
        text_laws::is_blank(end),
        unit.len() > 0 && text_laws::is_bare(unit),
        !text::is_digit(unit[0]) && unit[0] != '.',
        call_ensures(system::size_parts, (value,), parts),
    ensures
        parts.0@ == number,
        parts.1@ == unit,
{
    let rest = gap + unit + end;
    assert(!text::is_digit(rest[0]) && rest[0] != '.') by {
        if gap.len() > 0 {
            assert(rest[0] == gap[0]);
        } else {
            assert(rest[0] == unit[0]);
        }
    }
    host_laws::law_sizes_are_taken_apart(number, rest);
    text_laws::law_white_space_around_is_taken_off(gap, unit, end);
}

/// The helper says how far it is in the panel's own directory where it is installed there, and
/// otherwise among the files of the update.
pub proof fn law_helpers_write_in_one_place(manager: &UpdateManager, file: String)
    requires
        call_ensures(UpdateManager::status_file, (manager,), file),
    ensures
        manager.deep_view().data_dir == "/var/lib/windplume-deploy"@ ==> file@
            == "/var/lib/windplume-deploy/update-status/status.json"@,
        !paths::is_same(
            vstd::utf8::encode_utf8(manager.deep_view().data_dir),
            vstd::utf8::encode_utf8("/var/lib/windplume-deploy"@),
        ) && manager.deep_view().data_dir.len() > 0 && manager.deep_view().data_dir.last() != '/'
            ==> file@ == manager.deep_view().data_dir + "/"@ + "update"@ + "/"@ + "status.json"@,
{
    reveal_strlit("update");
    let dir = manager.deep_view().data_dir;
    if dir.len() > 0 && dir.last() != '/' {
        assert((dir + "/"@ + "update"@).last() == 'e');
    }
}

/// A project has a directory where its first file lies in one, and that directory is its own. Its
/// other files do not matter.
pub proof fn law_projects_lie_with_their_first_file(
    project: &ProjectConfig,
    lies: bool,
    dir: String,
)
    requires
        call_ensures(ProjectConfig::has_project_dir, (project,), lies),
        lies ==> call_ensures(ProjectConfig::project_dir, (project,), dir),
    ensures
        project.compose_files@.len() == 0 ==> !lies,
        project.compose_files@.len() > 0 ==> {
            let first = config::parent(project.compose_files@[0]@);
            &&& lies <==> first is Some
            &&& first matches Some(place) ==> dir@ == place
        },
{
}

} // verus!
