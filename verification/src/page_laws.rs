//! What the panel shows, accepts and refuses.
use crate::compose::RuntimeStateView;
use crate::config::{ProjectConfigView, ServiceConfigView, VersionSourceConfigView};
use crate::deployment;
use crate::error::{AppErrorView, ErrorResponseView};
use crate::ordered;
use crate::outside;
use crate::state::{RuntimeStateCacheView, RuntimeStateSnapshotView};
use crate::storage::{self, StorageView};
use crate::system::{ManagedImageView, ServiceImageView};
use crate::text;
use crate::web;
use vstd::prelude::*;

verus! {

/// An update of the panel is accepted exactly where it is newer than what runs: wherever its major
/// number is higher, or with the same major number its minor number, or with both the same its
/// patch number; and with all three the same where it is the later one.
pub proof fn law_updates_are_the_newer_versions(
    current: Seq<char>,
    target: Seq<char>,
    have: (u64, u64, u64),
    want: (u64, u64, u64),
)
    requires
        outside::semver_numbers(current) == Some(have),
        outside::semver_numbers(target) == Some(want),
    ensures
        web::update_target(current, target) is Ok <==> web::is_newer(target, current),
        want.0 > have.0 ==> web::update_target(current, target) is Ok,
        want.0 == have.0 && want.1 > have.1 ==> web::update_target(current, target) is Ok,
        want.0 == have.0 && want.1 == have.1 && want.2 > have.2 ==> web::update_target(
            current,
            target,
        ) is Ok,
        want == have ==> (web::update_target(current, target) is Ok <==> outside::semver_order(
            target,
            current,
        ) > 0),
        want.0 < have.0 ==> web::update_target(current, target) is Err,
        want.0 == have.0 && want.1 < have.1 ==> web::update_target(current, target) is Err,
        want.0 == have.0 && want.1 == have.1 && want.2 < have.2 ==> web::update_target(
            current,
            target,
        ) is Err,
        web::update_target(current, target) matches Err(error) ==> error == AppErrorView::Invalid(
            "当前已是最新稳定版"@,
        ),
{
}

/// Where what runs has no semantic version, or the release has none, there is no update, and the
/// answer says which.
pub proof fn law_updates_need_semantic_versions(current: Seq<char>, target: Seq<char>)
    requires
        outside::semver_numbers(current) is None || outside::semver_numbers(target) is None,
    ensures
        web::update_target(current, target) == Err::<(), _>(
            AppErrorView::Update(
                if outside::semver_numbers(current) is None {
                    "当前程序版本无效"@
                } else {
                    "Release 版本无效"@
                },
            ),
        ),
        !web::is_newer(target, current),
{
}

/// What is shown of a service's image: that nothing was deployed, that nobody has looked yet, or
/// whether what runs is what was deployed, by its ID where that is known and by its name otherwise.
/// Containers with different images are never what was deployed.
pub proof fn law_image_status_is_exact(
    managed: bool,
    loaded: bool,
    expected_image: Option<Seq<char>>,
    expected_image_id: Option<Seq<char>>,
    actual: RuntimeStateView,
)
    ensures
        ({
            let status = web::image_status_of(
                managed,
                loaded,
                expected_image,
                expected_image_id,
                actual,
            );
            let runs = !actual.mixed_images && match expected_image_id {
                Some(id) => actual.actual_image_id == Some(id),
                None => expected_image is Some && actual.actual_image == expected_image,
            };
            &&& status == "unmanaged"@ <==> !managed
            &&& status == "unknown"@ <==> managed && !loaded
            &&& status == "matched"@ <==> managed && loaded && runs
            &&& status == "drift"@ <==> managed && loaded && !runs
        }),
{
    reveal_strlit("unmanaged");
    reveal_strlit("unknown");
    reveal_strlit("matched");
    reveal_strlit("drift");
    assert("unmanaged"@.len() == 9 && "unknown"@.len() == 7 && "matched"@.len() == 7
        && "drift"@.len() == 5);
    assert("unknown"@[0] == 'u' && "matched"@[0] == 'm');
}

/// What is shown of a service: its configuration, what it should run as it is recorded, and what
/// was seen of its containers. Where nobody has looked yet, that is said, and whether somebody is
/// looking; where nothing was seen of it, it is shown as down. What was seen under a name is shown
/// once.
pub proof fn law_services_are_shown_as_they_are(
    project_id: Seq<char>,
    service: ServiceConfigView,
    again: bool,
    snapshot: RuntimeStateSnapshotView,
    s: StorageView,
)
    ensures
        ({
            let shown = web::service_shown(project_id, service, again, snapshot, s);
            let seen = match snapshot.states {
                Some(states) => if again {
                    None
                } else {
                    ordered::value_of(states, service.id)
                },
                None => None,
            };
            &&& shown.id == service.id
            &&& shown.image == service.image
            &&& shown.version_source == (match service.version_source {
                VersionSourceConfigView::DockerHub { .. } => "docker_hub"@,
                VersionSourceConfigView::OciRegistry { .. } => "oci_registry"@,
            })
            &&& match s.state(project_id, service.id) {
                Some(state) => {
                    &&& shown.desired_version == Some(state.desired_version)
                    &&& shown.desired_image == Some(state.image)
                    &&& snapshot.states is Some && seen is Some ==> (shown.image_status
                        == "matched"@ <==> !seen->0.mixed_images && seen->0.actual_image_id == Some(
                        state.image_id,
                    ))
                },
                None => {
                    &&& shown.desired_version is None
                    &&& shown.desired_image is None
                    &&& shown.image_status == "unmanaged"@
                },
            }
            &&& match seen {
                Some(state) => {
                    &&& shown.actual_image == state.actual_image
                    &&& shown.container_status == state.container_status
                    &&& shown.replicas == state.replicas
                },
                None => {
                    &&& shown.actual_image is None
                    &&& shown.replicas == 0
                    &&& shown.container_status == (if snapshot.states is Some {
                        "down"@
                    } else if snapshot.refreshing {
                        "loading"@
                    } else {
                        "unknown"@
                    })
                },
            }
            &&& shown.drift <==> shown.image_status == "drift"@
            &&& shown.rollback_available <==> deployment::rollback_target(
                s,
                project_id,
                service.id,
            ) is Ok
        }),
{
    let actual = web::known_state(snapshot, service.id, again);
    if let Some(state) = s.state(project_id, service.id) {
        law_image_status_is_exact(
            true,
            snapshot.states is Some,
            Some(state.pinned_image),
            Some(state.image_id),
            actual,
        );
    }
}

/// A project is shown with its files, all its services in their order, and what is under way.
pub proof fn law_projects_are_shown_as_they_are(
    project: ProjectConfigView,
    busy: bool,
    snapshot: RuntimeStateSnapshotView,
    s: StorageView,
    i: int,
)
    requires
        0 <= i < project.services.len(),
    ensures
        ({
            let shown = web::project_shown(project, busy, snapshot, s);
            &&& shown.id == project.id
            &&& shown.compose_files == project.compose_files
            &&& shown.deployment_in_progress == busy
            &&& shown.runtime_refreshing == snapshot.refreshing
            &&& shown.runtime_error == snapshot.error
            &&& shown.services.len() == project.services.len()
            &&& shown.services[i] == web::service_shown(
                project.id,
                project.services[i],
                exists|j: int|
                    0 <= j < i && (#[trigger] project.services[j]).id == project.services[i].id,
                snapshot,
                s,
            )
        }),
{
    let before = project.service_ids().take(i);
    let id = project.services[i].id;
    if before.contains(id) {
        let j = choose|j: int| 0 <= j < before.len() && before[j] == id;
        assert(project.services[j].id == id);
    }
    if exists|j: int| 0 <= j < i && (#[trigger] project.services[j]).id == id {
        let j = choose|j: int| 0 <= j < i && (#[trigger] project.services[j]).id == id;
        assert(before[j] == id);
    }
}

/// A service is found exactly where its project is known and has it.
pub proof fn law_requested_services_are_found(
    project: Option<ProjectConfigView>,
    service_id: Seq<char>,
)
    ensures
        match web::requested_service(project, service_id) {
            Ok(service) => {
                &&& project is Some
                &&& project->0.services.contains(service)
                &&& service.id == service_id
            },
            Err(error) => {
                &&& error == AppErrorView::NotFound
                &&& project is Some ==> forall|i: int|
                    0 <= i < project->0.services.len() ==> (#[trigger] project->0.services[i]).id
                        != service_id
            },
        },
{
    if let Some(project) = project {
        crate::operation_laws::lemma_service_found(project.services, service_id);
    }
}

/// A number that was asked for is taken where it is in bounds, and otherwise the nearest bound.
pub proof fn law_numbers_are_kept_in_bounds(value: Option<u32>, default: u32, most: u32)
    requires
        1 <= most,
    ensures
        ({
            let n = match value {
                Some(n) => n,
                None => default,
            };
            let r = web::clamped(value, default, most);
            &&& 1 <= r <= most
            &&& 1 <= n <= most ==> r == n
            &&& n == 0 ==> r == 1
            &&& n > most ==> r == most
        }),
{
}

/// A request is accepted exactly where it only reads, or brings the token of the session and, where
/// it says where it comes from, comes from where it goes to. Upper and lower case of the address do
/// not matter.
pub proof fn law_own_requests_are_accepted(
    method: Seq<char>,
    expected_token: Seq<char>,
    token: Option<Seq<char>>,
    origin: Option<Seq<char>>,
    authority: Option<Seq<char>>,
    host: Option<Seq<char>>,
)
    ensures
        ({
            let accepted = web::is_own_request(
                method,
                expected_token,
                token,
                origin,
                authority,
                host,
            );
            &&& method == "GET"@ || method == "HEAD"@ || method == "OPTIONS"@ ==> accepted
            &&& token == Some(expected_token) && origin is None ==> accepted
            &&& token == Some(expected_token) && authority is Some && host is Some
                && text::lowercase(authority->0) == text::lowercase(host->0) ==> accepted
            &&& token == Some(expected_token) && authority is Some && authority == host ==> accepted
            &&& accepted ==> method == "GET"@ || method == "HEAD"@ || method == "OPTIONS"@ || (
            token == Some(expected_token) && (origin is None || authority is Some && host is Some
                && text::lowercase(authority->0) == text::lowercase(host->0)))
        }),
        web::origin_authority(None) is None,
        origin is Some ==> web::origin_authority(origin) == outside::uri_authority(origin->0),
{
}

/// The services of a project are taken over exactly where the files could be read, name the same
/// project and have a service left; and otherwise the answer says what is wrong.
pub proof fn law_refreshed_projects_are_exact(
    current: ProjectConfigView,
    candidate: ProjectConfigView,
    error: Seq<char>,
)
    ensures
        web::refreshed(current, Err(error)) == Err::<ProjectConfigView, _>(
            AppErrorView::Invalid(error),
        ),
        candidate.id == current.id && candidate.services.len() > 0 ==> web::refreshed(
            current,
            Ok(candidate),
        ) == Ok::<_, AppErrorView>(candidate),
        candidate.id != current.id ==> web::refreshed(current, Ok(candidate)) == Err::<
            ProjectConfigView,
            _,
        >(
            AppErrorView::Invalid(
                "Compose 项目名从 "@ + current.id + " 变为 "@ + candidate.id
                    + "，请重启服务处理项目身份变化"@,
            ),
        ),
        candidate.id == current.id && candidate.services.len() == 0 ==> web::refreshed(
            current,
            Ok(candidate),
        ) == Err::<ProjectConfigView, _>(
            AppErrorView::Invalid("Compose 项目没有可管理的 image 服务"@),
        ),
{
}

/// Whether an image is what a service of a project runs or can go back to, for this reason.
pub open spec fn is_wanted_by(
    s: StorageView,
    project_id: Seq<char>,
    service_id: Seq<char>,
    image: Seq<char>,
    reason: Seq<char>,
) -> bool {
    ||| reason == "current"@ && s.state(project_id, service_id) is Some && s.state(
        project_id,
        service_id,
    )->0.image_id == image
    ||| reason == "rollback"@ && deployment::rollback_target(s, project_id, service_id) is Ok
        && deployment::rollback_target(s, project_id, service_id)->Ok_0.image_id == image
}

/// Whether an image is what some service runs or can go back to, for this reason.
pub open spec fn is_wanted(
    s: StorageView,
    projects: Seq<ProjectConfigView>,
    image: Seq<char>,
    reason: Seq<char>,
) -> bool {
    exists|p: int, k: int|
        0 <= p < projects.len() && 0 <= k < projects[p].services.len() && #[trigger] is_wanted_by(
            s,
            projects[p].id,
            projects[p].services[k].id,
            image,
            reason,
        )
}

proof fn lemma_only_reason(
    protected: Seq<(Seq<char>, Seq<Seq<char>>)>,
    image_id: Seq<char>,
    reason: Seq<char>,
    image: Seq<char>,
    why: Seq<char>,
)
    requires
        web::is_kept(web::with_reason(protected, image_id, reason), image, why),
    ensures
        web::is_kept(protected, image, why) || image == image_id && why == reason,
{
    let reasons = match ordered::value_of(protected, image_id) {
        Some(reasons) => reasons,
        None => Seq::empty(),
    };
    ordered::law_entry_is_found(
        protected,
        image_id,
        ordered::with_item(reasons, reason),
        image,
    );
    ordered::law_item_is_in_set(reasons, reason, why);
}

proof fn lemma_only_service(
    protected: Seq<(Seq<char>, Seq<Seq<char>>)>,
    s: StorageView,
    project_id: Seq<char>,
    service_id: Seq<char>,
    image: Seq<char>,
    why: Seq<char>,
)
    requires
        web::is_kept(web::kept_for_service(protected, s, project_id, service_id), image, why),
    ensures
        web::is_kept(protected, image, why) || is_wanted_by(
            s,
            project_id,
            service_id,
            image,
            why,
        ),
{
    if let Some(current) = s.state(project_id, service_id) {
        let kept = web::with_reason(protected, current.image_id, "current"@);
        match storage::earlier_revision(
            s.revisions,
            project_id,
            service_id,
            current.last_deployment_id,
        ) {
            Some(previous) => {
                lemma_only_reason(kept, previous.image_id, "rollback"@, image, why);
                if web::is_kept(kept, image, why) {
                    lemma_only_reason(protected, current.image_id, "current"@, image, why);
                }
            },
            None => lemma_only_reason(protected, current.image_id, "current"@, image, why),
        }
    }
}

proof fn lemma_only_services(
    protected: Seq<(Seq<char>, Seq<Seq<char>>)>,
    s: StorageView,
    project: ProjectConfigView,
    n: int,
    image: Seq<char>,
    why: Seq<char>,
)
    requires
        0 <= n <= project.services.len(),
        web::is_kept(web::kept_for_services(protected, s, project, n), image, why),
    ensures
        web::is_kept(protected, image, why) || exists|k: int|
            0 <= k < n && #[trigger] is_wanted_by(
                s,
                project.id,
                project.services[k].id,
                image,
                why,
            ),
    decreases n,
{
    if n > 0 {
        let before = web::kept_for_services(protected, s, project, n - 1);
        lemma_only_service(before, s, project.id, project.services[n - 1].id, image, why);
        if web::is_kept(before, image, why) {
            lemma_only_services(protected, s, project, n - 1, image, why);
        }
    }
}

/// An image is kept for a reason exactly where some service of some project runs it or can go back
/// to it, as the reason says.
pub proof fn law_kept_images_are_exact(
    s: StorageView,
    projects: Seq<ProjectConfigView>,
    image: Seq<char>,
    reason: Seq<char>,
)
    ensures
        web::is_kept(web::kept_images(s, projects), image, reason) <==> is_wanted(
            s,
            projects,
            image,
            reason,
        ),
{
    if is_wanted(s, projects, image, reason) {
        let (p, k) = choose|p: int, k: int|
            0 <= p < projects.len() && 0 <= k < projects[p].services.len()
                && #[trigger] is_wanted_by(
                s,
                projects[p].id,
                projects[p].services[k].id,
                image,
                reason,
            );
        web::law_deployed_images_are_kept(s, projects, p, k);
    }
    if web::is_kept(web::kept_images(s, projects), image, reason) {
        lemma_only_projects(s, projects, image, reason);
    }
}

proof fn lemma_only_projects(
    s: StorageView,
    projects: Seq<ProjectConfigView>,
    image: Seq<char>,
    why: Seq<char>,
)
    requires
        web::is_kept(web::kept_images(s, projects), image, why),
    ensures
        is_wanted(s, projects, image, why),
    decreases projects.len(),
{
    if projects.len() > 0 {
        let front = projects.drop_last();
        let last = projects.last();
        let before = web::kept_images(s, front);
        lemma_only_services(before, s, last, last.services.len() as int, image, why);
        if web::is_kept(before, image, why) {
            lemma_only_projects(s, front, image, why);
            let (p, k) = choose|p: int, k: int|
                0 <= p < front.len() && 0 <= k < front[p].services.len()
                    && #[trigger] is_wanted_by(s, front[p].id, front[p].services[k].id, image, why);
            assert(projects[p] == front[p]);
            assert(is_wanted_by(s, projects[p].id, projects[p].services[k].id, image, why));
        } else {
            let k = choose|k: int|
                0 <= k < last.services.len() && #[trigger] is_wanted_by(
                    s,
                    last.id,
                    last.services[k].id,
                    image,
                    why,
                );
            let p = projects.len() - 1;
            assert(is_wanted_by(s, projects[p].id, projects[p].services[k].id, image, why));
        }
    }
}

/// The services whose images are managed are those of all projects, each under its project and with
/// its repository.
pub proof fn law_managed_services_are_all_services(
    projects: Seq<ProjectConfigView>,
    service: ServiceImageView,
)
    ensures
        web::all_services(projects).contains(service) <==> exists|p: int, k: int|
            0 <= p < projects.len() && 0 <= k < projects[p].services.len()
                && #[trigger] projects[p].services[k].id == service.service_id
                && projects[p].services[k].image == service.repository && projects[p].id
                == service.project_id,
    decreases projects.len(),
{
    let all = web::all_services(projects);
    if projects.len() > 0 {
        let front = projects.drop_last();
        let last = projects.last();
        let before = web::all_services(front);
        let own = web::project_services(last);
        let end = projects.len() - 1;
        law_managed_services_are_all_services(front, service);
        assert(all.contains(service) <==> before.contains(service) || own.contains(service)) by {
            if before.contains(service) {
                let i = choose|i: int| 0 <= i < before.len() && before[i] == service;
                assert(all[i] == service);
            }
            if own.contains(service) {
                let i = choose|i: int| 0 <= i < own.len() && own[i] == service;
                assert(all[before.len() + i] == service);
            }
            if all.contains(service) {
                let i = choose|i: int| 0 <= i < all.len() && all[i] == service;
                if i < before.len() {
                    assert(before[i] == service);
                } else {
                    assert(own[i - before.len()] == service);
                }
            }
        }
        if own.contains(service) {
            let k = choose|k: int| 0 <= k < own.len() && own[k] == service;
            assert(projects[end].services[k].id == service.service_id);
        }
        if before.contains(service) {
            let (p, k) = choose|p: int, k: int|
                0 <= p < front.len() && 0 <= k < front[p].services.len()
                    && #[trigger] front[p].services[k].id == service.service_id
                    && front[p].services[k].image == service.repository && front[p].id
                    == service.project_id;
            assert(projects[p].services[k].id == service.service_id);
        }
        if exists|p: int, k: int|
            0 <= p < projects.len() && 0 <= k < projects[p].services.len()
                && #[trigger] projects[p].services[k].id == service.service_id
                && projects[p].services[k].image == service.repository && projects[p].id
                == service.project_id {
            let (p, k) = choose|p: int, k: int|
                0 <= p < projects.len() && 0 <= k < projects[p].services.len()
                    && #[trigger] projects[p].services[k].id == service.service_id
                    && projects[p].services[k].image == service.repository && projects[p].id
                    == service.project_id;
            if p < front.len() {
                assert(front[p].services[k].id == service.service_id);
            } else {
                assert(own[k] == service);
            }
        }
    }
}

/// The totals count the removable images and their sizes, and nothing else.
pub proof fn law_totals_count_removable_images(images: Seq<ManagedImageView>, more: ManagedImageView)
    ensures
        web::removable_total(seq![]) == (0nat, 0nat),
        ({
            let before = web::removable_total(images);
            let after = web::removable_total(images.push(more));
            if more.removable {
                after.0 == before.0 + 1 && after.1 == before.1 + more.size_bytes
            } else {
                after == before
            }
        }),
{
    assert(images.push(more).drop_last() =~= images);
}

/// An image ID is `sha256:` and 64 hexadecimal digits.
pub proof fn law_image_ids_are_digests(id: Seq<char>, digits: Seq<char>)
    ensures
        id == "sha256:"@ + digits ==> (web::is_image_id(id) <==> digits.len() == 64 && forall|i: int|
            0 <= i < digits.len() ==> text::is_hex_digit(#[trigger] digits[i])),
        web::is_image_id(id) ==> id == "sha256:"@ + id.skip(7) && id.skip(7).len() == 64,
{
    reveal_strlit("sha256:");
    if id == "sha256:"@ + digits {
        assert(id.skip(7) =~= digits);
        assert(id.take(7) =~= "sha256:"@);
    }
    if web::is_image_id(id) {
        assert(id =~= id.take(7) + id.skip(7));
    }
}

/// Images are chosen by their IDs: what is taken is what was asked for, each once and in order. It
/// is refused where that is none or more than a hundred, or where one of them is no image ID.
pub proof fn law_chosen_images_are_exact(ids: Seq<Seq<char>>, id: Seq<char>)
    ensures
        match web::requested_images(ids) {
            Ok(chosen) => {
                &&& 1 <= chosen.len() <= 100
                &&& chosen.contains(id) <==> ids.contains(id)
                &&& forall|i: int, j: int|
                    0 <= i < j < chosen.len() ==> ordered::precedes(
                        #[trigger] chosen[i],
                        #[trigger] chosen[j],
                    )
                &&& ids.contains(id) ==> web::is_image_id(id)
            },
            Err(error) => {
                ||| error == AppErrorView::Invalid("请选择 1 到 100 个镜像"@) && (ids.len() == 0
                    || ids.len() > 100)
                ||| error == AppErrorView::Invalid("镜像 ID 格式无效"@) && exists|i: int|
                    0 <= i < ids.len() && !web::is_image_id(#[trigger] ids[i])
            },
        },
        ids.len() == 0 ==> web::requested_images(ids) is Err,
        ids.contains(id) && !web::is_image_id(id) ==> web::requested_images(ids) is Err,
        0 < ids.len() <= 100 && (forall|i: int|
            0 <= i < ids.len() ==> web::is_image_id(#[trigger] ids[i])) ==> web::requested_images(
            ids,
        ) is Ok,
{
    let chosen = ordered::item_set(ids);
    ordered::law_item_set_holds_the_list(ids, id);
    lemma_item_set(ids);
    if ids.contains(id) {
        let k = choose|k: int| 0 <= k < chosen.len() && chosen[k] == id;
        if web::all_image_ids(chosen) {
            assert(web::is_image_id(chosen[k]));
        }
    }
    if ids.len() > 0 {
        ordered::law_item_set_holds_the_list(ids, ids[0]);
        assert(ids.contains(ids[0]));
    }
    if !web::all_image_ids(chosen) {
        let k = choose|k: int| 0 <= k < chosen.len() && !web::is_image_id(#[trigger] chosen[k]);
        ordered::law_item_set_holds_the_list(ids, chosen[k]);
        let i = choose|i: int| 0 <= i < ids.len() && ids[i] == chosen[k];
        assert(!web::is_image_id(ids[i]));
    }
}

proof fn lemma_item_set(list: Seq<Seq<char>>)
    ensures
        ordered::item_set(list).len() <= list.len(),
        forall|i: int, j: int|
            0 <= i < j < ordered::item_set(list).len() ==> ordered::precedes(
                #[trigger] ordered::item_set(list)[i],
                #[trigger] ordered::item_set(list)[j],
            ),
    decreases list.len(),
{
    if list.len() > 0 {
        let set = ordered::item_set(list.drop_last());
        lemma_item_set(list.drop_last());
        lemma_with_item(set, list.last());
    }
}

proof fn lemma_with_item(items: Seq<Seq<char>>, item: Seq<char>)
    requires
        forall|i: int, j: int|
            0 <= i < j < items.len() ==> ordered::precedes(
                #[trigger] items[i],
                #[trigger] items[j],
            ),
    ensures
        ordered::with_item(items, item).len() <= items.len() + 1,
        forall|i: int, j: int|
            0 <= i < j < ordered::with_item(items, item).len() ==> ordered::precedes(
                #[trigger] ordered::with_item(items, item)[i],
                #[trigger] ordered::with_item(items, item)[j],
            ),
    decreases items.len(),
{
    let all = ordered::with_item(items, item);
    if items.len() > 0 && items[0] != item {
        if ordered::precedes(item, items[0]) {
            assert forall|i: int, j: int| 0 <= i < j < all.len() implies ordered::precedes(
                #[trigger] all[i],
                #[trigger] all[j],
            ) by {
                if i == 0 && j > 1 {
                    ordered::lemma_precedes_transitive(item, items[0], items[j - 1]);
                } else if i > 0 {
                    assert(all[i] == items[i - 1] && all[j] == items[j - 1]);
                }
            }
        } else {
            let rest = items.drop_first();
            let tail = ordered::with_item(rest, item);
            assert forall|i: int, j: int| 0 <= i < j < rest.len() implies ordered::precedes(
                #[trigger] rest[i],
                #[trigger] rest[j],
            ) by {
                assert(ordered::precedes(items[i + 1], items[j + 1]));
            }
            lemma_with_item(rest, item);
            ordered::lemma_precedes_total(items[0], item);
            assert forall|i: int, j: int| 0 <= i < j < all.len() implies ordered::precedes(
                #[trigger] all[i],
                #[trigger] all[j],
            ) by {
                assert(all[j] == tail[j - 1]);
                if i == 0 {
                    assert(tail.contains(tail[j - 1]));
                    ordered::law_item_is_in_set(rest, item, tail[j - 1]);
                    if tail[j - 1] != item {
                        let k = choose|k: int| 0 <= k < rest.len() && rest[k] == tail[j - 1];
                        assert(ordered::precedes(items[0], items[k + 1]));
                    }
                } else {
                    assert(all[i] == tail[i - 1]);
                }
            }
        }
    }
}

/// Cleaning up stops at the first image that may not be removed: one that is not listed as
/// removable.
pub proof fn law_cleanup_stops_at_the_first_kept_image(
    requested: Seq<Seq<char>>,
    images: Seq<ManagedImageView>,
    id: Seq<char>,
)
    requires
        web::not_removable(requested, images) == Some(id),
    ensures
        requested.contains(id),
        forall|i: int| 0 <= i < images.len() && (#[trigger] images[i]).id == id ==> !images[i].removable,
    decreases requested.len(),
{
    if web::is_removable(images, requested[0]) {
        let rest = requested.drop_first();
        law_cleanup_stops_at_the_first_kept_image(rest, images, id);
        let k = choose|k: int| 0 <= k < rest.len() && rest[k] == id;
        assert(requested[k + 1] == id);
    } else {
        assert(requested[0] == id);
    }
}

/// An image may be removed exactly where it is listed as removable.
pub proof fn law_listed_images_may_be_removed(images: Seq<ManagedImageView>, i: int)
    requires
        0 <= i < images.len(),
        images[i].removable,
    ensures
        web::is_removable(images, images[i].id),
        web::not_removable(seq![images[i].id], images) is None,
{
    assert(web::is_removable(images, images[i].id));
    assert(seq![images[i].id].drop_first() =~= Seq::<Seq<char>>::empty());
    assert(web::not_removable(Seq::empty(), images) is None);
}

/// Maintenance may begin exactly where no update runs and every project is idle.
pub proof fn law_maintenance_waits_for_everything(updating: bool, idle: Seq<bool>)
    ensures
        web::maintenance_error(updating, idle) is None <==> !updating && forall|i: int|
            0 <= i < idle.len() ==> #[trigger] idle[i],
        updating ==> web::maintenance_error(updating, idle) == Some(AppErrorView::Updating),
        web::maintenance_error(false, idle) matches Some(error) ==> error == AppErrorView::Busy,
{
    if !idle.contains(false) {
        assert forall|i: int| 0 <= i < idle.len() implies #[trigger] idle[i] by {
            assert(idle[i] != false);
        }
    } else {
        let i = choose|i: int| 0 <= i < idle.len() && idle[i] == false;
        assert(!idle[i]);
    }
}

/// What each kind of failure is answered with.
pub proof fn law_failures_have_their_answers(detail: Seq<char>)
    ensures
        AppErrorView::NotFound.response() == (ErrorResponseView {
            status: 404,
            code: "service_not_found"@,
            message: "未找到 Compose 项目或服务"@,
        }),
        AppErrorView::Invalid(detail).response() == (ErrorResponseView {
            status: 400,
            code: "invalid_request"@,
            message: "请求格式无效: "@ + detail,
        }),
        AppErrorView::VersionNotFound(detail).response() == (ErrorResponseView {
            status: 422,
            code: "version_not_found"@,
            message: "版本不存在: "@ + detail,
        }),
        AppErrorView::Busy.response() == (ErrorResponseView {
            status: 409,
            code: "deployment_in_progress"@,
            message: "项目已有操作正在运行"@,
        }),
        AppErrorView::Updating.response() == (ErrorResponseView {
            status: 409,
            code: "system_update_in_progress"@,
            message: "系统更新期间暂停新操作"@,
        }),
        AppErrorView::Package(detail).response() == (ErrorResponseView {
            status: 502,
            code: "package_query_failed"@,
            message: "无法读取镜像版本: "@ + detail,
        }),
        AppErrorView::Internal(detail).response() == (ErrorResponseView {
            status: 500,
            code: "internal_error"@,
            message: "内部服务错误"@,
        }),
        AppErrorView::Update(detail).response() == (ErrorResponseView {
            status: 502,
            code: "system_update_failed"@,
            message: "无法更新程序: "@ + detail,
        }),
        AppErrorView::System(detail).response() == (ErrorResponseView {
            status: 502,
            code: "system_resource_failed"@,
            message: "无法读取或清理系统资源: "@ + detail,
        }),
        AppErrorView::Internal(detail).message() == "内部错误: "@ + detail,
{
}

/// Somebody is sent to look exactly where nobody is looking and the last look is too long ago, or
/// there was none. A look that ends well is all that is known; one that fails adds only its error.
pub proof fn law_looks_are_kept(
    c: RuntimeStateCacheView,
    now: u128,
    max_age_seconds: u64,
    states: Seq<(Seq<char>, RuntimeStateView)>,
    error: Seq<char>,
)
    ensures
        c.is_due(now, max_age_seconds) <==> !c.refreshing && (c.last_attempt is None || now
            - c.last_attempt->0 >= max_age_seconds * 1_000_000_000 || max_age_seconds == 0),
        c.after_snapshot(now, max_age_seconds) == (if c.is_due(now, max_age_seconds) {
            RuntimeStateCacheView { refreshing: true, last_attempt: Some(now), ..c }
        } else {
            c
        }),
        c.completed(Ok(states)) == (RuntimeStateCacheView {
            refreshing: false,
            states: Some(states),
            error: None,
            ..c
        }),
        c.completed(Err(error)) == (RuntimeStateCacheView {
            refreshing: false,
            error: Some(error),
            ..c
        }),
        c.invalidated() == (RuntimeStateCacheView { last_attempt: None, ..c }),
        c.cleared() == (RuntimeStateCacheView {
            states: None,
            last_attempt: None,
            error: None,
            ..c
        }),
{
}

} // verus!
