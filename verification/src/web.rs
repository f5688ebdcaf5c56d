//! The web interface: what it shows, and which requests it accepts.
use crate::compose::{self, RuntimeState, RuntimeStateView};
use crate::config::{self, ProjectConfig, ProjectConfigView, ServiceConfig, ServiceConfigView};
use crate::deployment;
use crate::duplicate::{self, Duplicate};
use crate::error::{self, AppError, AppErrorView, ErrorResponse};
use crate::ordered;
use crate::outside;
use crate::registry;
use crate::state::{RuntimeStateSnapshot, RuntimeStateSnapshotView};
use crate::storage::{self, Storage, StorageView};
use crate::system::{ManagedImage, ManagedImageView, ServiceImage, ServiceImageView};
use crate::text;
use crate::update::ReleaseInfo;
use vstd::prelude::*;

verus! {

/// How many lines of a container's log are shown, unless more are asked for.
pub const CONTAINER_LOG_DEFAULT_TAIL: u32 = 50;

pub const CONTAINER_LOG_MAX_TAIL: u32 = 200;

/// How long finished operations are kept when the history is cleaned up, in days.
pub const HISTORY_RETENTION_DAYS: i64 = 30;

/// How old what is known of the containers may be, in seconds.
pub const RUNTIME_CACHE_MAX_AGE_SECONDS: u64 = 55;

/// A service as it is shown.
#[derive(Debug)]
pub struct ServiceView {
    pub id: String,
    pub image: String,
    pub version_source: String,
    pub desired_version: Option<String>,
    pub desired_image: Option<String>,
    pub actual_image: Option<String>,
    pub container_status: String,
    pub image_status: String,
    pub drift: bool,
    pub replicas: usize,
    pub rollback_available: bool,
}

pub struct ShownService {
    pub id: Seq<char>,
    pub image: Seq<char>,
    pub version_source: Seq<char>,
    pub desired_version: Option<Seq<char>>,
    pub desired_image: Option<Seq<char>>,
    pub actual_image: Option<Seq<char>>,
    pub container_status: Seq<char>,
    pub image_status: Seq<char>,
    pub drift: bool,
    pub replicas: usize,
    pub rollback_available: bool,
}

impl DeepView for ServiceView {
    type V = ShownService;

    open spec fn deep_view(&self) -> ShownService {
        ShownService {
            id: self.id.deep_view(),
            image: self.image.deep_view(),
            version_source: self.version_source.deep_view(),
            desired_version: self.desired_version.deep_view(),
            desired_image: self.desired_image.deep_view(),
            actual_image: self.actual_image.deep_view(),
            container_status: self.container_status.deep_view(),
            image_status: self.image_status.deep_view(),
            drift: self.drift,
            replicas: self.replicas,
            rollback_available: self.rollback_available,
        }
    }
}

impl Duplicate for ServiceView {
    fn duplicate(&self) -> (r: Self) {
        ServiceView {
            id: self.id.duplicate(),
            image: self.image.duplicate(),
            version_source: self.version_source.duplicate(),
            desired_version: self.desired_version.duplicate(),
            desired_image: self.desired_image.duplicate(),
            actual_image: self.actual_image.duplicate(),
            container_status: self.container_status.duplicate(),
            image_status: self.image_status.duplicate(),
            drift: self.drift,
            replicas: self.replicas,
            rollback_available: self.rollback_available,
        }
    }
}

/// A project as it is shown.
#[derive(Debug)]
pub struct ProjectView {
    pub id: String,
    pub compose_files: Vec<String>,
    pub deployment_in_progress: bool,
    pub runtime_refreshing: bool,
    pub runtime_error: Option<String>,
    pub services: Vec<ServiceView>,
}

pub struct ShownProject {
    pub id: Seq<char>,
    pub compose_files: Seq<Seq<char>>,
    pub deployment_in_progress: bool,
    pub runtime_refreshing: bool,
    pub runtime_error: Option<Seq<char>>,
    pub services: Seq<ShownService>,
}

impl DeepView for ProjectView {
    type V = ShownProject;

    open spec fn deep_view(&self) -> ShownProject {
        ShownProject {
            id: self.id.deep_view(),
            compose_files: self.compose_files.deep_view(),
            deployment_in_progress: self.deployment_in_progress,
            runtime_refreshing: self.runtime_refreshing,
            runtime_error: self.runtime_error.deep_view(),
            services: self.services.deep_view(),
        }
    }
}

impl Duplicate for ProjectView {
    fn duplicate(&self) -> (r: Self) {
        ProjectView {
            id: self.id.duplicate(),
            compose_files: self.compose_files.duplicate(),
            deployment_in_progress: self.deployment_in_progress,
            runtime_refreshing: self.runtime_refreshing,
            runtime_error: self.runtime_error.duplicate(),
            services: self.services.duplicate(),
        }
    }
}

/// How what runs of a service compares with what should run.
pub open spec fn image_status_of(
    managed: bool,
    runtime_loaded: bool,
    expected_image: Option<Seq<char>>,
    expected_image_id: Option<Seq<char>>,
    actual: RuntimeStateView,
) -> Seq<char> {
    if !managed {
        "unmanaged"@
    } else if !runtime_loaded {
        "unknown"@
    } else if actual.mixed_images {
        "drift"@
    } else if expected_image_id is Some {
        if actual.actual_image_id == expected_image_id {
            "matched"@
        } else {
            "drift"@
        }
    } else if expected_image is Some && actual.actual_image == expected_image {
        "matched"@
    } else {
        "drift"@
    }
}

fn same_option(a: &Option<String>, b: &Option<String>) -> (r: bool)
    ensures
        r == (a.deep_view() == b.deep_view()),
{
    match (a, b) {
        (Some(x), Some(y)) => text::same(x.as_str(), y.as_str()),
        (None, None) => true,
        _ => false,
    }
}

pub fn image_status(
    managed: bool,
    runtime_loaded: bool,
    expected_image: &Option<String>,
    expected_image_id: &Option<String>,
    actual: &RuntimeState,
) -> (r: &'static str)
    ensures
        r@ == image_status_of(
            managed,
            runtime_loaded,
            expected_image.deep_view(),
            expected_image_id.deep_view(),
            actual.deep_view(),
        ),
{
    if !managed {
        "unmanaged"
    } else if !runtime_loaded {
        "unknown"
    } else if actual.mixed_images {
        "drift"
    } else if expected_image_id.is_some() {
        if same_option(&actual.actual_image_id, expected_image_id) {
            "matched"
        } else {
            "drift"
        }
    } else if expected_image.is_some() && same_option(&actual.actual_image, expected_image) {
        "matched"
    } else {
        "drift"
    }
}

/// A managed service is shown as matched exactly when all its containers run the image that was
/// deployed.
pub proof fn law_matched_means_the_deployed_image_runs(
    expected_image: Option<Seq<char>>,
    expected_image_id: Seq<char>,
    actual: RuntimeStateView,
)
    ensures
        image_status_of(true, true, expected_image, Some(expected_image_id), actual)
            == "matched"@ <==> !actual.mixed_images && actual.actual_image_id == Some(
            expected_image_id,
        ),
        image_status_of(true, true, expected_image, Some(expected_image_id), actual) == "drift"@
            <==> actual.mixed_images || actual.actual_image_id != Some(expected_image_id),
{
    reveal_strlit("matched");
    reveal_strlit("drift");
    assert("matched"@.len() != "drift"@.len());
}

/// What is known of a service: what was seen of it, that nothing was seen of it, or that nobody
/// has looked yet. What was seen under a name is shown once; `again` says that it has been.
pub open spec fn known_state(
    snapshot: RuntimeStateSnapshotView,
    service_id: Seq<char>,
    again: bool,
) -> RuntimeStateView {
    match snapshot.states {
        Some(states) => match ordered::value_of(states, service_id) {
            Some(state) if !again => state,
            _ => compose::absent("down"@),
        },
        None => compose::absent(
            if snapshot.refreshing {
                "loading"@
            } else {
                "unknown"@
            },
        ),
    }
}

/// Whether a service has a version to go back to.
pub open spec fn can_roll_back(
    s: StorageView,
    project_id: Seq<char>,
    service_id: Seq<char>,
) -> bool {
    deployment::rollback_target(s, project_id, service_id) is Ok
}

pub open spec fn source_kind(source: config::VersionSourceConfigView) -> Seq<char> {
    match source {
        config::VersionSourceConfigView::DockerHub { .. } => "docker_hub"@,
        config::VersionSourceConfigView::OciRegistry { .. } => "oci_registry"@,
    }
}

/// A service as it is shown.
pub open spec fn service_shown(
    project_id: Seq<char>,
    service: ServiceConfigView,
    again: bool,
    snapshot: RuntimeStateSnapshotView,
    s: StorageView,
) -> ShownService {
    let desired = s.state(project_id, service.id);
    let actual = known_state(snapshot, service.id, again);
    let status = image_status_of(
        desired is Some,
        snapshot.states is Some,
        match desired {
            Some(state) => Some(state.pinned_image),
            None => None,
        },
        match desired {
            Some(state) => Some(state.image_id),
            None => None,
        },
        actual,
    );
    ShownService {
        id: service.id,
        image: service.image,
        version_source: source_kind(service.version_source),
        desired_version: deployment::current_version(desired),
        desired_image: match desired {
            Some(state) => Some(state.image),
            None => None,
        },
        actual_image: actual.actual_image,
        container_status: actual.container_status,
        image_status: status,
        drift: status == "drift"@,
        replicas: actual.replicas,
        rollback_available: can_roll_back(s, project_id, service.id),
    }
}

/// Whether a service of the same name stands before the `i`th.
pub open spec fn shown_before(project: ProjectConfigView, i: int) -> bool {
    project.service_ids().take(i).contains(project.services[i].id)
}

/// A project as it is shown.
pub open spec fn project_shown(
    project: ProjectConfigView,
    busy: bool,
    snapshot: RuntimeStateSnapshotView,
    s: StorageView,
) -> ShownProject {
    ShownProject {
        id: project.id,
        compose_files: project.compose_files,
        deployment_in_progress: busy,
        runtime_refreshing: snapshot.refreshing,
        runtime_error: snapshot.error,
        services: Seq::new(
            project.services.len(),
            |i: int|
                service_shown(
                    project.id,
                    project.services[i],
                    shown_before(project, i),
                    snapshot,
                    s,
                ),
        ),
    }
}

fn actual_state(snapshot: &RuntimeStateSnapshot, service_id: &str, again: bool) -> (r: RuntimeState)
    ensures
        r.deep_view() == known_state(snapshot.deep_view(), service_id@, again),
{
    match &snapshot.states {
        Some(states) => {
            if again {
                return compose::absent_state("down");
            }
            match ordered::find_value(states, service_id) {
                Some(state) => state.duplicate(),
                None => compose::absent_state("down"),
            }
        },
        None => {
            if snapshot.refreshing {
                compose::absent_state("loading")
            } else {
                compose::absent_state("unknown")
            }
        },
    }
}

fn show_service(
    project_id: &str,
    service: &ServiceConfig,
    again: bool,
    snapshot: &RuntimeStateSnapshot,
    storage: &Storage,
) -> (r: ServiceView)
    ensures
        r.deep_view() == service_shown(
            project_id@,
            service.deep_view(),
            again,
            snapshot.deep_view(),
            storage.deep_view(),
        ),
{
    let desired = storage.state(project_id, service.id.as_str());
    let actual = actual_state(snapshot, service.id.as_str(), again);
    let (pinned_image, image_id): (Option<String>, Option<String>) = match &desired {
        Some(state) => (Some(state.pinned_image.clone()), Some(state.image_id.clone())),
        None => (None, None),
    };
    let status = image_status(
        desired.is_some(),
        snapshot.states.is_some(),
        &pinned_image,
        &image_id,
        &actual,
    );
    let rollback_available = match &desired {
        Some(state) => storage.previous_revision(
            project_id,
            service.id.as_str(),
            state.last_deployment_id.as_str(),
        ).is_some(),
        None => false,
    };
    let (desired_version, desired_image): (Option<String>, Option<String>) = match desired {
        Some(state) => (Some(state.desired_version), Some(state.image)),
        None => (None, None),
    };
    ServiceView {
        id: service.id.clone(),
        image: service.image.clone(),
        version_source: service.version_source.kind().to_owned(),
        desired_version,
        desired_image,
        actual_image: actual.actual_image,
        container_status: actual.container_status,
        image_status: status.to_owned(),
        drift: text::same(status, "drift"),
        replicas: actual.replicas,
        rollback_available,
    }
}

/// Shows a project. `busy` says whether an operation on it is under way or none may begin.
pub fn project_view(
    project: &ProjectConfig,
    busy: bool,
    snapshot: &RuntimeStateSnapshot,
    storage: &Storage,
) -> (r: ProjectView)
    ensures
        r.deep_view() == project_shown(
            project.deep_view(),
            busy,
            snapshot.deep_view(),
            storage.deep_view(),
        ),
{
    let ghost expected = project_shown(
        project.deep_view(),
        busy,
        snapshot.deep_view(),
        storage.deep_view(),
    ).services;
    let ghost names = project.deep_view().service_ids();
    let mut seen: Vec<String> = Vec::new();
    let mut services: Vec<ServiceView> = Vec::new();
    let mut i: usize = 0;
    proof {
        assert(seen.deep_view() =~= names.take(0));
        assert(services.deep_view() =~= expected.take(0));
    }
    while i < project.services.len()
        invariant
            i <= project.services@.len(),
            names == project.deep_view().service_ids(),
            expected == project_shown(
                project.deep_view(),
                busy,
                snapshot.deep_view(),
                storage.deep_view(),
            ).services,
            seen.deep_view() == names.take(i as int),
            services.deep_view() == expected.take(i as int),
        decreases project.services@.len() - i,
    {
        let service = &project.services[i];
        let ghost earlier = seen.deep_view();
        let ghost shown = services.deep_view();
        let again = config::lists(&seen, service.id.as_str());
        proof {
            assert(project.deep_view().services[i as int] == service.deep_view());
            assert(again == shown_before(project.deep_view(), i as int));
        }
        services.push(show_service(project.id.as_str(), service, again, snapshot, storage));
        seen.push(service.id.clone());
        proof {
            assert(services.deep_view() =~= shown.push(expected[i as int]));
            assert(seen.deep_view() =~= earlier.push(names[i as int]));
            assert(expected.take(i + 1) =~= expected.take(i as int).push(expected[i as int]));
            assert(names.take(i + 1) =~= names.take(i as int).push(names[i as int]));
        }
        i = i + 1;
    }
    proof {
        assert(expected.take(i as int) =~= expected);
    }
    ProjectView {
        id: project.id.clone(),
        compose_files: project.compose_files.duplicate(),
        deployment_in_progress: busy,
        runtime_refreshing: snapshot.refreshing,
        runtime_error: snapshot.error.duplicate(),
        services,
    }
}

/// How long looking at the containers of a project may take, in seconds.
pub fn runtime_timeout(project: &ProjectConfig) -> (r: u64)
    ensures
        r == (if project.command_timeout_seconds < 15 {
            project.command_timeout_seconds
        } else {
            15
        }),
{
    if project.command_timeout_seconds < 15 {
        project.command_timeout_seconds
    } else {
        15
    }
}

/// Whether a project is shown as busy: during an update of the panel, and while something is done
/// to the project.
pub fn is_in_progress(updating: bool, idle: bool) -> (r: bool)
    ensures
        r == (updating || !idle),
{
    updating || !idle
}

/// How long to look at the containers of a project, in seconds. A project without services has
/// none to look at.
pub fn runtime_query(project: &ProjectConfig) -> (r: Option<u64>)
    ensures
        r == (if project.services@.len() == 0 {
            None
        } else if project.command_timeout_seconds < 15 {
            Some(project.command_timeout_seconds)
        } else {
            Some(15)
        }),
{
    if project.services.len() == 0 {
        None
    } else {
        Some(runtime_timeout(project))
    }
}

/// The service that a request is about.
pub open spec fn requested_service(project: Option<ProjectConfigView>, service_id: Seq<char>) -> Result<
    ServiceConfigView,
    AppErrorView,
> {
    match project {
        None => Err(AppErrorView::NotFound),
        Some(project) => match project.service(service_id) {
            Some(service) => Ok(service),
            None => Err(AppErrorView::NotFound),
        },
    }
}

pub fn find_service(project: &Option<ProjectConfig>, service_id: &str) -> (r: Result<
    ServiceConfig,
    AppError,
>)
    ensures
        duplicate::outcome(r) == requested_service(project.deep_view(), service_id@),
{
    match project {
        None => Err(AppError::NotFound),
        Some(project) => match project.service(service_id) {
            Some(service) => Ok(service),
            None => Err(AppError::NotFound),
        },
    }
}

pub open spec fn clamped(value: Option<u32>, default: u32, most: u32) -> u32 {
    let n = match value {
        Some(n) => n,
        None => default,
    };
    if n < 1 {
        1
    } else if n > most {
        most
    } else {
        n
    }
}

fn clamp(value: Option<u32>, default: u32, most: u32) -> (r: u32)
    ensures
        r == clamped(value, default, most),
{
    let n: u32 = match value {
        Some(n) => n,
        None => default,
    };
    if n < 1 {
        1
    } else if n > most {
        most
    } else {
        n
    }
}

/// How many lines of a log are read.
pub fn log_tail(tail: Option<u32>) -> (r: u32)
    ensures
        r == clamped(tail, 50, 200),
        1 <= r <= 200,
{
    clamp(tail, CONTAINER_LOG_DEFAULT_TAIL, CONTAINER_LOG_MAX_TAIL)
}

/// How many operations are listed.
pub fn history_limit(limit: Option<u32>) -> (r: u32)
    ensures
        r == clamped(limit, 50, 500),
        1 <= r <= 500,
{
    clamp(limit, 50, 500)
}

/// Whether a request that only reads is made.
pub open spec fn is_reading(method: Seq<char>) -> bool {
    method == "GET"@ || method == "HEAD"@ || method == "OPTIONS"@
}

/// Whether a request comes from the page that the panel itself served: it carries the token of
/// the session, and where it says where it comes from, that is the host it goes to.
pub open spec fn is_own_request(
    method: Seq<char>,
    expected_token: Seq<char>,
    token: Option<Seq<char>>,
    origin: Option<Seq<char>>,
    authority: Option<Seq<char>>,
    host: Option<Seq<char>>,
) -> bool {
    ||| is_reading(method)
    ||| token == Some(expected_token) && (origin is Some ==> authority is Some && host is Some
        && text::lowercase(authority->0) == text::lowercase(host->0))
}

/// Decides about a request, given the authority that its origin names.
pub fn check_request(
    method: &str,
    expected_token: &str,
    token: &Option<String>,
    origin: &Option<String>,
    authority: &Option<String>,
    host: &Option<String>,
) -> (r: bool)
    ensures
        r == is_own_request(
            method@,
            expected_token@,
            token.deep_view(),
            origin.deep_view(),
            authority.deep_view(),
            host.deep_view(),
        ),
{
    if text::same(method, "GET") || text::same(method, "HEAD") || text::same(method, "OPTIONS") {
        return true;
    }
    let token_matches = match token {
        Some(token) => text::same(token.as_str(), expected_token),
        None => false,
    };
    let origin_matches = match origin {
        None => true,
        Some(_) => match (authority, host) {
            (Some(authority), Some(host)) => text::same(
                text::lowered(authority.as_str()).as_str(),
                text::lowered(host.as_str()).as_str(),
            ),
            _ => false,
        },
    };
    token_matches && origin_matches
}

/// The authority that an origin names, where there is one.
pub open spec fn origin_authority(origin: Option<Seq<char>>) -> Option<Seq<char>> {
    match origin {
        Some(origin) => outside::uri_authority(origin),
        None => None,
    }
}

/// Decides whether a request is accepted.
pub fn csrf_guard(
    method: &str,
    expected_token: &str,
    token: &Option<String>,
    origin: &Option<String>,
    host: &Option<String>,
) -> (r: bool)
    ensures
        r == is_own_request(
            method@,
            expected_token@,
            token.deep_view(),
            origin.deep_view(),
            origin_authority(origin.deep_view()),
            host.deep_view(),
        ),
{
    let authority = match origin {
        Some(origin) => outside::parse_authority(origin.as_str()),
        None => None,
    };
    check_request(method, expected_token, token, origin, &authority, host)
}

/// The answer to a request that is not accepted.
pub fn csrf_rejection() -> (r: ErrorResponse)
    ensures
        r.deep_view() == error::error_response(
            403,
            "csrf_rejected"@,
            "请求来源校验失败，请刷新页面后重试"@,
        ),
{
    ErrorResponse {
        status: 403,
        code: "csrf_rejected".to_owned(),
        message: "请求来源校验失败，请刷新页面后重试".to_owned(),
    }
}

/// A request that changes something is refused without the token of the session, and where it
/// comes from somewhere else than it goes to.
pub proof fn law_foreign_requests_are_refused(
    method: Seq<char>,
    expected_token: Seq<char>,
    token: Option<Seq<char>>,
    origin: Option<Seq<char>>,
    authority: Option<Seq<char>>,
    host: Option<Seq<char>>,
)
    requires
        !is_reading(method),
    ensures
        token != Some(expected_token) ==> !is_own_request(
            method,
            expected_token,
            token,
            origin,
            authority,
            host,
        ),
        origin is Some && (authority is None || host is None || text::lowercase(authority->0)
            != text::lowercase(host->0)) ==> !is_own_request(
            method,
            expected_token,
            token,
            origin,
            authority,
            host,
        ),
{
}

/// What reading the Compose files of a project again comes to.
pub open spec fn refreshed(
    current: ProjectConfigView,
    candidate: Result<ProjectConfigView, Seq<char>>,
) -> Result<ProjectConfigView, AppErrorView> {
    match candidate {
        Err(error) => Err(AppErrorView::Invalid(error)),
        Ok(candidate) => if candidate.id != current.id {
            Err(
                AppErrorView::Invalid(
                    "Compose 项目名从 "@ + current.id + " 变为 "@ + candidate.id
                        + "，请重启服务处理项目身份变化"@,
                ),
            )
        } else if candidate.services.len() == 0 {
            Err(AppErrorView::Invalid("Compose 项目没有可管理的 image 服务"@))
        } else {
            Ok(candidate)
        },
    }
}

/// Decides whether a project takes over what its Compose files now say.
pub fn refresh_compose(current: &ProjectConfig, candidate: Result<ProjectConfig, String>) -> (r:
    Result<ProjectConfig, AppError>)
    ensures
        duplicate::outcome(r) == refreshed(current.deep_view(), duplicate::outcome(candidate)),
{
    match candidate {
        Err(error) => Err(AppError::Invalid(error)),
        Ok(candidate) => {
            if candidate.id != current.id {
                let mut message = text::joined3(
                    "Compose 项目名从 ",
                    current.id.as_str(),
                    " 变为 ",
                );
                message.append(candidate.id.as_str());
                message.append("，请重启服务处理项目身份变化");
                Err(AppError::Invalid(message))
            } else if candidate.services.len() == 0 {
                Err(AppError::Invalid("Compose 项目没有可管理的 image 服务".to_owned()))
            } else {
                Ok(candidate)
            }
        },
    }
}

/// A project never changes its name while the panel runs, and never ends up without services.
pub proof fn law_refresh_keeps_the_name(
    current: ProjectConfigView,
    candidate: Result<ProjectConfigView, Seq<char>>,
)
    requires
        refreshed(current, candidate) is Ok,
    ensures
        refreshed(current, candidate)->Ok_0.id == current.id,
        refreshed(current, candidate)->Ok_0.services.len() > 0,
{
}

/// The reasons for which an image is kept, with one more.
pub open spec fn with_reason(
    protected: Seq<(Seq<char>, Seq<Seq<char>>)>,
    image_id: Seq<char>,
    reason: Seq<char>,
) -> Seq<(Seq<char>, Seq<Seq<char>>)> {
    let reasons = match ordered::value_of(protected, image_id) {
        Some(reasons) => reasons,
        None => Seq::empty(),
    };
    ordered::with_entry(protected, image_id, ordered::with_item(reasons, reason))
}

/// The images that are kept for a service: the one that it should run, and the one that it can go
/// back to.
pub open spec fn kept_for_service(
    protected: Seq<(Seq<char>, Seq<Seq<char>>)>,
    s: StorageView,
    project_id: Seq<char>,
    service_id: Seq<char>,
) -> Seq<(Seq<char>, Seq<Seq<char>>)> {
    match s.state(project_id, service_id) {
        None => protected,
        Some(current) => {
            let kept = with_reason(protected, current.image_id, "current"@);
            match storage::earlier_revision(
                s.revisions,
                project_id,
                service_id,
                current.last_deployment_id,
            ) {
                Some(previous) => with_reason(kept, previous.image_id, "rollback"@),
                None => kept,
            }
        },
    }
}

/// The images that are kept for the first `n` services of a project.
pub open spec fn kept_for_services(
    protected: Seq<(Seq<char>, Seq<Seq<char>>)>,
    s: StorageView,
    project: ProjectConfigView,
    n: int,
) -> Seq<(Seq<char>, Seq<Seq<char>>)>
    decreases n,
{
    if n <= 0 || n > project.services.len() {
        protected
    } else {
        kept_for_service(
            kept_for_services(protected, s, project, n - 1),
            s,
            project.id,
            project.services[n - 1].id,
        )
    }
}

/// The images that are kept for the services of all projects, with the reasons.
pub open spec fn kept_images(s: StorageView, projects: Seq<ProjectConfigView>) -> Seq<
    (Seq<char>, Seq<Seq<char>>),
>
    decreases projects.len(),
{
    if projects.len() == 0 {
        Seq::empty()
    } else {
        kept_for_services(
            kept_images(s, projects.drop_last()),
            s,
            projects.last(),
            projects.last().services.len() as int,
        )
    }
}

fn add_reason(protected: &mut Vec<(String, Vec<String>)>, image_id: &str, reason: &str)
    ensures
        final(protected).deep_view() == with_reason(
            old(protected).deep_view(),
            image_id@,
            reason@,
        ),
{
    let mut reasons: Vec<String> = match ordered::find_value(&*protected, image_id) {
        Some(reasons) => reasons.duplicate(),
        None => {
            let none: Vec<String> = Vec::new();
            proof {
                assert(none.deep_view() =~= Seq::empty());
            }
            none
        },
    };
    ordered::put_item(&mut reasons, reason.to_owned());
    ordered::put_entry(protected, image_id.to_owned(), reasons);
}

fn keep_for_service(
    protected: &mut Vec<(String, Vec<String>)>,
    storage: &Storage,
    project_id: &str,
    service_id: &str,
)
    ensures
        final(protected).deep_view() == kept_for_service(
            old(protected).deep_view(),
            storage.deep_view(),
            project_id@,
            service_id@,
        ),
{
    if let Some(current) = storage.state(project_id, service_id) {
        add_reason(protected, current.image_id.as_str(), "current");
        if let Some(previous) = storage.previous_revision(
            project_id,
            service_id,
            current.last_deployment_id.as_str(),
        ) {
            add_reason(protected, previous.image_id.as_str(), "rollback");
        }
    }
}

/// The images that must not be removed, with the reasons.
pub fn protected_images(storage: &Storage, projects: &Vec<ProjectConfig>) -> (r: Vec<
    (String, Vec<String>),
>)
    ensures
        r.deep_view() == kept_images(storage.deep_view(), projects.deep_view()),
{
    let ghost all = projects.deep_view();
    let mut out: Vec<(String, Vec<String>)> = Vec::new();
    let mut i: usize = 0;
    proof {
        assert(out.deep_view() =~= kept_images(storage.deep_view(), all.take(0)));
    }
    while i < projects.len()
        invariant
            i <= projects@.len(),
            all == projects.deep_view(),
            out.deep_view() == kept_images(storage.deep_view(), all.take(i as int)),
        decreases projects@.len() - i,
    {
        let project = &projects[i];
        let ghost before = out.deep_view();
        let mut n: usize = 0;
        while n < project.services.len()
            invariant
                n <= project.services@.len(),
                out.deep_view() == kept_for_services(
                    before,
                    storage.deep_view(),
                    project.deep_view(),
                    n as int,
                ),
            decreases project.services@.len() - n,
        {
            proof {
                assert(project.deep_view().services[n as int].id == project.services@[n as int].id@);
            }
            keep_for_service(
                &mut out,
                storage,
                project.id.as_str(),
                project.services[n].id.as_str(),
            );
            n = n + 1;
        }
        proof {
            assert(all.take(i + 1).drop_last() =~= all.take(i as int));
            assert(all.take(i + 1).last() == project.deep_view());
        }
        i = i + 1;
    }
    proof {
        assert(all.take(i as int) =~= all);
    }
    out
}

/// Whether an image is kept for this reason.
pub open spec fn is_kept(
    protected: Seq<(Seq<char>, Seq<Seq<char>>)>,
    image_id: Seq<char>,
    reason: Seq<char>,
) -> bool {
    match ordered::value_of(protected, image_id) {
        Some(reasons) => reasons.contains(reason),
        None => false,
    }
}

proof fn lemma_with_reason(
    protected: Seq<(Seq<char>, Seq<Seq<char>>)>,
    image_id: Seq<char>,
    reason: Seq<char>,
    other_image: Seq<char>,
    other_reason: Seq<char>,
)
    ensures
        is_kept(with_reason(protected, image_id, reason), image_id, reason),
        is_kept(protected, other_image, other_reason) ==> is_kept(
            with_reason(protected, image_id, reason),
            other_image,
            other_reason,
        ),
{
    let reasons = match ordered::value_of(protected, image_id) {
        Some(reasons) => reasons,
        None => Seq::empty(),
    };
    ordered::law_entry_is_found(
        protected,
        image_id,
        ordered::with_item(reasons, reason),
        other_image,
    );
    ordered::law_item_is_in_set(reasons, reason, reason);
    ordered::law_item_is_in_set(reasons, reason, other_reason);
}

proof fn lemma_kept_for_service(
    protected: Seq<(Seq<char>, Seq<Seq<char>>)>,
    s: StorageView,
    project_id: Seq<char>,
    service_id: Seq<char>,
    image: Seq<char>,
    reason: Seq<char>,
)
    ensures
        is_kept(protected, image, reason) ==> is_kept(
            kept_for_service(protected, s, project_id, service_id),
            image,
            reason,
        ),
        s.state(project_id, service_id) matches Some(current) ==> is_kept(
            kept_for_service(protected, s, project_id, service_id),
            current.image_id,
            "current"@,
        ),
        deployment::rollback_target(s, project_id, service_id) matches Ok(previous) ==> is_kept(
            kept_for_service(protected, s, project_id, service_id),
            previous.image_id,
            "rollback"@,
        ),
{
    if let Some(current) = s.state(project_id, service_id) {
        let kept = with_reason(protected, current.image_id, "current"@);
        lemma_with_reason(protected, current.image_id, "current"@, image, reason);
        if let Some(previous) = storage::earlier_revision(
            s.revisions,
            project_id,
            service_id,
            current.last_deployment_id,
        ) {
            lemma_with_reason(kept, previous.image_id, "rollback"@, image, reason);
            lemma_with_reason(
                kept,
                previous.image_id,
                "rollback"@,
                current.image_id,
                "current"@,
            );
        }
    }
}

proof fn lemma_kept_for_services(
    protected: Seq<(Seq<char>, Seq<Seq<char>>)>,
    s: StorageView,
    project: ProjectConfigView,
    n: int,
    k: int,
    image: Seq<char>,
    reason: Seq<char>,
)
    requires
        0 <= n <= project.services.len(),
    ensures
        is_kept(protected, image, reason) ==> is_kept(
            kept_for_services(protected, s, project, n),
            image,
            reason,
        ),
        0 <= k < n ==> {
            &&& s.state(project.id, project.services[k].id) matches Some(current) ==> is_kept(
                kept_for_services(protected, s, project, n),
                current.image_id,
                "current"@,
            )
            &&& deployment::rollback_target(s, project.id, project.services[k].id) matches Ok(
                previous,
            ) ==> is_kept(
                kept_for_services(protected, s, project, n),
                previous.image_id,
                "rollback"@,
            )
        },
    decreases n,
{
    if n > 0 {
        let before = kept_for_services(protected, s, project, n - 1);
        let service_id = project.services[n - 1].id;
        lemma_kept_for_services(protected, s, project, n - 1, k, image, reason);
        lemma_kept_for_service(before, s, project.id, service_id, image, reason);
        if 0 <= k < n - 1 {
            if let Some(current) = s.state(project.id, project.services[k].id) {
                lemma_kept_for_service(
                    before,
                    s,
                    project.id,
                    service_id,
                    current.image_id,
                    "current"@,
                );
            }
            if let Ok(previous) = deployment::rollback_target(
                s,
                project.id,
                project.services[k].id,
            ) {
                lemma_kept_for_service(
                    before,
                    s,
                    project.id,
                    service_id,
                    previous.image_id,
                    "rollback"@,
                );
            }
        }
    }
}

/// The image that a service should run and the image that it can go back to are kept, for every
/// service of every project.
pub proof fn law_deployed_images_are_kept(
    s: StorageView,
    projects: Seq<ProjectConfigView>,
    p: int,
    k: int,
)
    requires
        0 <= p < projects.len(),
        0 <= k < projects[p].services.len(),
    ensures
        s.state(projects[p].id, projects[p].services[k].id) matches Some(current) ==> is_kept(
            kept_images(s, projects),
            current.image_id,
            "current"@,
        ),
        deployment::rollback_target(s, projects[p].id, projects[p].services[k].id) matches Ok(
            previous,
        ) ==> is_kept(kept_images(s, projects), previous.image_id, "rollback"@),
    decreases projects.len(),
{
    let front = projects.drop_last();
    let last = projects.last();
    let before = kept_images(s, front);
    let n = last.services.len() as int;
    let current = s.state(projects[p].id, projects[p].services[k].id);
    let previous = deployment::rollback_target(s, projects[p].id, projects[p].services[k].id);
    if p < front.len() {
        law_deployed_images_are_kept(s, front, p, k);
        if let Some(state) = current {
            lemma_kept_for_services(before, s, last, n, 0, state.image_id, "current"@);
        }
        if let Ok(revision) = previous {
            lemma_kept_for_services(before, s, last, n, 0, revision.image_id, "rollback"@);
        }
    } else {
        lemma_kept_for_services(before, s, last, n, k, Seq::empty(), Seq::empty());
    }
}

/// The services of a project with their images.
pub open spec fn project_services(project: ProjectConfigView) -> Seq<ServiceImageView> {
    project.services.map_values(
        |service: ServiceConfigView|
            ServiceImageView {
                project_id: project.id,
                service_id: service.id,
                repository: service.image,
            },
    )
}

pub open spec fn all_services(projects: Seq<ProjectConfigView>) -> Seq<ServiceImageView>
    decreases projects.len(),
{
    if projects.len() == 0 {
        Seq::empty()
    } else {
        all_services(projects.drop_last()) + project_services(projects.last())
    }
}

/// The services of all projects with their images, in order.
pub fn managed_services(projects: &Vec<ProjectConfig>) -> (r: Vec<ServiceImage>)
    ensures
        r.deep_view() == ordered::ranked::<ServiceImage>(all_services(projects.deep_view())),
        ordered::in_order::<ServiceImage>(r.deep_view()),
{
    let ghost all = projects.deep_view();
    let mut out: Vec<ServiceImage> = Vec::new();
    let mut i: usize = 0;
    proof {
        assert(out.deep_view() =~= all_services(all.take(0)));
    }
    while i < projects.len()
        invariant
            i <= projects@.len(),
            all == projects.deep_view(),
            out.deep_view() == all_services(all.take(i as int)),
        decreases projects@.len() - i,
    {
        let project = &projects[i];
        let ghost before = out.deep_view();
        let ghost own = project_services(project.deep_view());
        let mut n: usize = 0;
        proof {
            assert(before + own.take(0) =~= before);
        }
        while n < project.services.len()
            invariant
                n <= project.services@.len(),
                own == project_services(project.deep_view()),
                out.deep_view() == before + own.take(n as int),
            decreases project.services@.len() - n,
        {
            let ghost so_far = out.deep_view();
            out.push(
                ServiceImage {
                    project_id: project.id.clone(),
                    service_id: project.services[n].id.clone(),
                    repository: project.services[n].image.clone(),
                },
            );
            proof {
                assert(out.deep_view() =~= so_far.push(own[n as int]));
                assert(before + own.take(n + 1) =~= (before + own.take(n as int)).push(
                    own[n as int],
                ));
            }
            n = n + 1;
        }
        proof {
            assert(own.take(n as int) =~= own);
            assert(all.take(i + 1).drop_last() =~= all.take(i as int));
            assert(all.take(i + 1).last() == project.deep_view());
        }
        i = i + 1;
    }
    proof {
        assert(all.take(i as int) =~= all);
    }
    ordered::sort(&out)
}

/// How many of the images can be removed, and how large they are together.
pub open spec fn removable_total(images: Seq<ManagedImageView>) -> (nat, nat)
    decreases images.len(),
{
    if images.len() == 0 {
        (0, 0)
    } else {
        let rest = removable_total(images.drop_last());
        if images.last().removable {
            (rest.0 + 1, rest.1 + images.last().size_bytes as nat)
        } else {
            rest
        }
    }
}

pub fn removable_totals(images: &Vec<ManagedImage>) -> (r: (usize, u128))
    ensures
        r.0 == removable_total(images.deep_view()).0,
        r.1 == removable_total(images.deep_view()).1,
{
    let ghost all = images.deep_view();
    let mut number: usize = 0;
    let mut size: u128 = 0;
    let total: usize = images.len();
    let mut i: usize = 0;
    while i < images.len()
        invariant
            i <= images@.len() == total,
            all == images.deep_view(),
            number <= i,
            size <= i * u64::MAX,
            number == removable_total(all.take(i as int)).0,
            size == removable_total(all.take(i as int)).1,
        decreases images@.len() - i,
    {
        proof {
            assert(all.take(i + 1).drop_last() =~= all.take(i as int));
            assert(all.take(i + 1).last() == images@[i as int].deep_view());
            assert(i * u64::MAX + u64::MAX == (i + 1) * u64::MAX) by (nonlinear_arith);
            assert((i + 1) * u64::MAX <= u128::MAX) by (nonlinear_arith)
                requires
                    i + 1 <= usize::MAX,
                    usize::MAX <= u64::MAX,
            ;
        }
        if images[i].removable {
            number = number + 1;
            size = size + images[i].size_bytes as u128;
        }
        i = i + 1;
    }
    proof {
        assert(all.take(i as int) =~= all);
    }
    (number, size)
}

/// Whether a text is the full ID of an image.
pub open spec fn is_image_id(id: Seq<char>) -> bool {
    id.len() == 71 && text::starts_with(id, "sha256:"@) && text::all_hex(id.skip(7))
}

pub open spec fn all_image_ids(ids: Seq<Seq<char>>) -> bool {
    forall|i: int| 0 <= i < ids.len() ==> is_image_id(#[trigger] ids[i])
}

/// The images that a request names, in order and each of them once.
pub open spec fn requested_images(ids: Seq<Seq<char>>) -> Result<Seq<Seq<char>>, AppErrorView> {
    let chosen = ordered::item_set(ids);
    if chosen.len() == 0 || chosen.len() > 100 {
        Err(AppErrorView::Invalid("请选择 1 到 100 个镜像"@))
    } else if !all_image_ids(chosen) {
        Err(AppErrorView::Invalid("镜像 ID 格式无效"@))
    } else {
        Ok(chosen)
    }
}

fn image_id(id: &str) -> (r: bool)
    ensures
        r == is_image_id(id@),
{
    let cs = text::chars_of(id);
    if cs.len() != 71 || !text::begins_with(id, "sha256:") {
        return false;
    }
    let digits = text::text_of(&cs, 7, 71);
    proof {
        assert(digits@ =~= id@.skip(7));
    }
    text::hex_only(digits.as_str())
}

/// Checks which images a request names.
pub fn validate_image_ids(image_ids: &Vec<String>) -> (r: Result<Vec<String>, AppError>)
    ensures
        duplicate::outcome(r) == requested_images(image_ids.deep_view()),
{
    let chosen = ordered::set_of(image_ids);
    proof {
        assert(chosen.deep_view().len() == chosen@.len());
    }
    if chosen.len() == 0 || chosen.len() > 100 {
        return Err(AppError::Invalid("请选择 1 到 100 个镜像".to_owned()));
    }
    let ghost all = chosen.deep_view();
    let mut i: usize = 0;
    while i < chosen.len()
        invariant
            i <= chosen@.len(),
            all == chosen.deep_view(),
            all == ordered::item_set(image_ids.deep_view()),
            0 < all.len() <= 100,
            forall|j: int| 0 <= j < i ==> is_image_id(#[trigger] all[j]),
        decreases chosen@.len() - i,
    {
        proof {
            assert(all[i as int] == chosen@[i as int]@);
        }
        if !image_id(chosen[i].as_str()) {
            return Err(AppError::Invalid("镜像 ID 格式无效".to_owned()));
        }
        i = i + 1;
    }
    Ok(chosen)
}

pub open spec fn is_removable(images: Seq<ManagedImageView>, id: Seq<char>) -> bool {
    exists|i: int| 0 <= i < images.len() && (#[trigger] images[i]).removable && images[i].id == id
}

/// The first of the requested images that cannot be removed.
pub open spec fn not_removable(requested: Seq<Seq<char>>, images: Seq<ManagedImageView>) -> Option<
    Seq<char>,
>
    decreases requested.len(),
{
    if requested.len() == 0 {
        None
    } else if !is_removable(images, requested[0]) {
        Some(requested[0])
    } else {
        not_removable(requested.drop_first(), images)
    }
}

fn can_be_removed(images: &Vec<ManagedImage>, id: &str) -> (r: bool)
    ensures
        r == is_removable(images.deep_view(), id@),
{
    let ghost all = images.deep_view();
    let mut i: usize = 0;
    while i < images.len()
        invariant
            i <= images@.len(),
            all == images.deep_view(),
            forall|j: int| 0 <= j < i ==> !((#[trigger] all[j]).removable && all[j].id == id@),
        decreases images@.len() - i,
    {
        proof {
            assert(all[i as int] == images@[i as int].deep_view());
        }
        if images[i].removable && text::same(images[i].id.as_str(), id) {
            return true;
        }
        i = i + 1;
    }
    false
}

/// Checks, just before images are removed, that every one of them still may be.
pub fn check_cleanup(requested: &Vec<String>, images: &Vec<ManagedImage>) -> (r: Result<
    (),
    AppError,
>)
    ensures
        match not_removable(requested.deep_view(), images.deep_view()) {
            Some(id) => duplicate::outcome(r) == Err::<(), _>(
                AppErrorView::Invalid("镜像已被引用、已不存在或不属于受管 Compose："@ + id),
            ),
            None => r is Ok,
        },
{
    let ghost all = requested.deep_view();
    let mut i: usize = 0;
    proof {
        assert(all.skip(0) =~= all);
    }
    while i < requested.len()
        invariant
            i <= requested@.len(),
            all == requested.deep_view(),
            not_removable(all.skip(i as int), images.deep_view()) == not_removable(
                all,
                images.deep_view(),
            ),
        decreases requested@.len() - i,
    {
        proof {
            assert(all.skip(i as int)[0] == requested@[i as int]@);
            assert(all.skip(i as int).drop_first() =~= all.skip(i + 1));
        }
        if !can_be_removed(images, requested[i].as_str()) {
            return Err(
                AppError::Invalid(
                    text::joined2(
                        "镜像已被引用、已不存在或不属于受管 Compose：",
                        requested[i].as_str(),
                    ),
                ),
            );
        }
        i = i + 1;
    }
    Ok(())
}

/// Images are removed only where every one that was asked for is an unused image of a repository
/// that some service uses; one that is not stops all of them.
pub proof fn law_cleanup_removes_only_removable_images(
    requested: Seq<Seq<char>>,
    images: Seq<ManagedImageView>,
)
    ensures
        not_removable(requested, images) is None <==> forall|i: int|
            0 <= i < requested.len() ==> is_removable(images, #[trigger] requested[i]),
    decreases requested.len(),
{
    if requested.len() > 0 {
        let rest = requested.drop_first();
        law_cleanup_removes_only_removable_images(rest, images);
        if not_removable(requested, images) is None {
            assert forall|i: int| 0 <= i < requested.len() implies is_removable(
                images,
                #[trigger] requested[i],
            ) by {
                if i > 0 {
                    assert(requested[i] == rest[i - 1]);
                }
            }
        }
        if forall|i: int| 0 <= i < requested.len() ==> is_removable(images, #[trigger] requested[i]) {
            assert(is_removable(images, requested[0]));
            assert forall|i: int| 0 <= i < rest.len() implies is_removable(
                images,
                #[trigger] rest[i],
            ) by {
                assert(is_removable(images, requested[i + 1]));
            }
        }
    }
}

/// Whether maintenance of the host may begin: not during an update, and only while no project has
/// an operation under way.
pub open spec fn maintenance_error(updating: bool, idle: Seq<bool>) -> Option<AppErrorView> {
    if updating {
        Some(AppErrorView::Updating)
    } else if idle.contains(false) {
        Some(AppErrorView::Busy)
    } else {
        None
    }
}

/// Decides whether maintenance may begin. `idle` says for each project whether no operation on it
/// is under way.
pub fn check_maintenance(updating: bool, idle: &Vec<bool>) -> (r: Result<(), AppError>)
    ensures
        match maintenance_error(updating, idle@) {
            Some(error) => duplicate::outcome(r) == Err::<(), _>(error),
            None => r is Ok,
        },
{
    if updating {
        return Err(AppError::Updating);
    }
    let mut i: usize = 0;
    while i < idle.len()
        invariant
            i <= idle@.len(),
            !updating,
            forall|j: int| 0 <= j < i ==> #[trigger] idle@[j],
        decreases idle@.len() - i,
    {
        if !idle[i] {
            proof {
                assert(idle@[i as int] == false);
            }
            return Err(AppError::Busy);
        }
        i = i + 1;
    }
    Ok(())
}

/// Whether one version is later than another. What is no semantic version is never later.
pub open spec fn is_newer(latest: Seq<char>, current: Seq<char>) -> bool {
    registry::is_above(
        outside::semver_numbers(latest),
        outside::semver_numbers(current),
        outside::semver_order(latest, current),
    )
}

/// Whether the panel can be updated to a release. The version that already runs is no update of
/// itself, and what can be updated to a version is no update of it.
pub fn update_available(latest: &str, current: &str) -> (r: bool)
    ensures
        r == is_newer(latest@, current@),
        latest@ == current@ ==> !r,
        r ==> !is_newer(current@, latest@),
{
    let (x, y, order) = registry::compare(latest, current);
    registry::above(x, y, order)
}

/// Checks that this installation can update itself.
pub fn check_update_support(supported: bool) -> (r: Result<(), AppError>)
    ensures
        duplicate::outcome(r) == (if supported {
            Ok(())
        } else {
            Err(
                AppErrorView::Update(
                    "当前不支持自更新：需 Linux x86_64，并需运行 install.sh 安装签名公钥和更新助手"@,
                ),
            )
        }),
{
    if supported {
        Ok(())
    } else {
        Err(
            AppError::Update(
                "当前不支持自更新：需 Linux x86_64，并需运行 install.sh 安装签名公钥和更新助手".to_owned(),
            ),
        )
    }
}

/// Whether an update may begin, from a version with the numbers `x` to one with the numbers `y`,
/// where `order` says how the second compares to the first.
pub open spec fn update_verdict(
    x: Option<(u64, u64, u64)>,
    y: Option<(u64, u64, u64)>,
    order: i8,
) -> Result<(), AppErrorView> {
    if x is None {
        Err(AppErrorView::Update("当前程序版本无效"@))
    } else if y is None {
        Err(AppErrorView::Update("Release 版本无效"@))
    } else if !registry::is_above(y, x, order) {
        Err(AppErrorView::Invalid("当前已是最新稳定版"@))
    } else {
        Ok(())
    }
}

pub fn judge_update(
    x: Option<(u64, u64, u64)>,
    y: Option<(u64, u64, u64)>,
    order: i8,
) -> (r: Result<(), AppError>)
    ensures
        duplicate::outcome(r) == update_verdict(x, y, order),
{
    if x.is_none() {
        return Err(AppError::Update("当前程序版本无效".to_owned()));
    }
    if y.is_none() {
        return Err(AppError::Update("Release 版本无效".to_owned()));
    }
    if !registry::above(y, x, order) {
        return Err(AppError::Invalid("当前已是最新稳定版".to_owned()));
    }
    Ok(())
}

/// Whether an update to a release may begin.
pub open spec fn update_target(current: Seq<char>, target: Seq<char>) -> Result<(), AppErrorView> {
    update_verdict(
        outside::semver_numbers(current),
        outside::semver_numbers(target),
        outside::semver_order(target, current),
    )
}

/// Checks that a release is newer than what runs. It never is where the same version runs, or
/// one that is newer than the release.
pub fn start_update(current: &str, release: &ReleaseInfo) -> (r: Result<(), AppError>)
    ensures
        duplicate::outcome(r) == update_target(current@, release.version@),
        r is Ok ==> release.version@ != current@ && !is_newer(current@, release.version@),
{
    let (y, x, order) = registry::compare(release.version.as_str(), current);
    judge_update(x, y, order)
}

/// The panel is never replaced by a version with lower numbers.
pub proof fn law_updates_never_go_back(current: Seq<char>, target: Seq<char>)
    requires
        update_target(current, target) is Ok,
    ensures
        outside::semver_numbers(current) is Some,
        outside::semver_numbers(target) is Some,
        !outside::numbers_exceed(
            outside::semver_numbers(current)->0,
            outside::semver_numbers(target)->0,
        ),
{
}

} // verus!
