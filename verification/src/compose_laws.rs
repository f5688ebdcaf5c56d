//! Which commands are run for a project, and what their answers say of its containers and images.
use crate::compose::{
    self, CommandOutputView, ComposeView, ImageArtifactView, ImageInspectView, InspectView,
    Operation, RuntimeStateView, WaitView,
};
use crate::config::{self, ProjectConfigView, ServiceConfigView};
use crate::ordered;
use crate::text;
use crate::text_laws;
use vstd::prelude::*;

verus! {

/// What each operation is called with, and what is said where it fails.
pub proof fn law_operations_have_their_commands(service: Seq<char>, tail: u32)
    ensures
        Operation::Pull.arguments(service) == seq!["pull"@, service],
        Operation::Up.arguments(service) == seq!["up"@, "-d"@, "--no-deps"@, service],
        Operation::Recreate.arguments(service) == seq![
            "up"@,
            "-d"@,
            "--force-recreate"@,
            "--no-deps"@,
            service,
        ],
        Operation::Stop.arguments(service) == seq!["stop"@, service],
        Operation::Remove.arguments(service) == seq!["rm"@, "--stop"@, "--force"@, service],
        Operation::Ps.arguments(service) == seq!["ps"@, "-q"@, service],
        ({
            let args = (Operation::Logs { tail }).arguments(service);
            &&& args.len() == 5
            &&& args[0] == "logs"@ && args[1] == "--no-color"@ && args[2] == "--tail"@
            &&& text::number(args[3]) == Some(tail as u64)
            &&& args[4] == service
        }),
        Operation::Pull.failure_text() == "docker compose pull 执行失败"@,
        Operation::Up.failure_text() == "docker compose up 执行失败"@,
        Operation::Recreate.failure_text() == "docker compose 重建服务失败"@,
        Operation::Stop.failure_text() == "docker compose 停止服务失败"@,
        Operation::Remove.failure_text() == "docker compose 下线服务失败"@,
        (Operation::Logs { tail }).failure_text() == "docker compose logs 执行失败"@,
        Operation::Ps.failure_text() == "docker compose ps 执行失败"@,
{
    text_laws::law_spelled_numbers_are_read_back(tail as u64);
}

/// Every command is one of Compose on the project, under its name and in its directory.
pub proof fn law_commands_name_their_project(c: ComposeView, command: Seq<Seq<char>>)
    ensures
        ({
            let run = c.invocation(command);
            let n = c.cfg.compose_files.len() as int;
            &&& run.cwd == c.cfg.dir()
            &&& run.args.len() == 7 + 2 * n + command.len()
            &&& run.args[0] == "compose"@
            &&& run.args[1] == "--project-name"@
            &&& run.args[2] == c.cfg.id
            &&& run.args[3] == "--project-directory"@
            &&& run.args[4] == c.cfg.dir()
            &&& run.args.skip(7 + 2 * n) == command
        }),
{
    let n = c.cfg.compose_files.len() as int;
    lemma_file_args_len(c.cfg.compose_files);
    let run = c.invocation(command);
    assert(c.base_args().len() == 7 + 2 * n);
    assert(run.args.skip(7 + 2 * n) =~= command);
}

proof fn lemma_file_args_len(files: Seq<Seq<char>>)
    ensures
        compose::file_args(files).len() == 2 * files.len(),
    decreases files.len(),
{
    if files.len() > 0 {
        lemma_file_args_len(files.drop_last());
    }
}

/// A project is resolved from its files, in their order, in its directory, and without the file
/// that pins the images.
pub proof fn law_resolving_names_the_files(p: ProjectConfigView, i: int)
    requires
        0 <= i < p.compose_files.len(),
    ensures
        ({
            let run = compose::resolve_invocation_of(p);
            let n = p.compose_files.len() as int;
            &&& run.cwd == p.dir()
            &&& run.args.len() == 6 + 2 * n
            &&& run.args[0] == "compose"@
            &&& run.args[1] == "--project-directory"@
            &&& run.args[2] == p.dir()
            &&& run.args[3 + 2 * i] == "-f"@
            &&& run.args[4 + 2 * i] == p.compose_files[i]
            &&& run.args[3 + 2 * n] == "config"@
            &&& run.args[4 + 2 * n] == "--format"@
            &&& run.args[5 + 2 * n] == "json"@
        }),
{
    let run = compose::resolve_invocation_of(p);
    let files = compose::file_args(p.compose_files);
    lemma_file_args_len(p.compose_files);
    compose::lemma_file_args(p.compose_files, i);
    assert(run.args[3 + 2 * i] == files[2 * i]);
    assert(run.args[4 + 2 * i] == files[2 * i + 1]);
}

/// A command that ends well gives what it printed; one that does not gives what failed, with what
/// it printed where that is wanted; and one that could not be run gives why.
pub proof fn law_command_outcomes(
    log: Seq<char>,
    failure: Seq<char>,
    error: Seq<char>,
    with_log: bool,
)
    ensures
        compose::command_log(Ok(CommandOutputView { success: true, log }), failure, with_log)
            == Ok::<_, Seq<char>>(log),
        compose::command_log(Ok(CommandOutputView { success: false, log }), failure, true) == Err::<
            Seq<char>,
            _,
        >(failure + "\n"@ + log),
        compose::command_log(Ok(CommandOutputView { success: false, log }), failure, false) == Err::<
            Seq<char>,
            _,
        >(failure),
        compose::command_log(Err(error), failure, with_log) == Err::<Seq<char>, _>(error),
{
}

/// A container is up exactly where its health check says so, or, where it has none, where it runs.
pub proof fn law_containers_are_up(v: InspectView)
    ensures
        v.has_healthcheck ==> (compose::is_ready(v) <==> v.health == Some("healthy"@)),
        !v.has_healthcheck ==> (compose::is_ready(v) <==> v.status == "running"@),
{
}

/// What is said of the containers of a service: how many there are, and which image they run,
/// where they all run the same. Containers whose image has no ID do not count for the ID.
pub proof fn law_summary_is_exact(values: Seq<InspectView>, image: Seq<char>)
    requires
        values.len() <= usize::MAX,
    ensures
        ({
            let s = compose::summary(values);
            &&& s.replicas == values.len()
            &&& s.actual_image == Some(image) <==> values.len() > 0 && forall|i: int|
                0 <= i < values.len() ==> (#[trigger] values[i]).config_image == image
            &&& s.actual_image_id == Some(image) <==> image.len() > 0 && (exists|i: int|
                0 <= i < values.len() && (#[trigger] values[i]).image == image) && forall|i: int|
                0 <= i < values.len() ==> (#[trigger] values[i]).image == image
                    || values[i].image.len() == 0
            &&& s.mixed_images <==> exists|i: int, j: int|
                0 <= i < values.len() && 0 <= j < values.len() && ((#[trigger] values[i]).config_image
                    != (#[trigger] values[j]).config_image || values[i].image != values[j].image
                    && values[i].image.len() > 0 && values[j].image.len() > 0)
        }),
{
    let images = compose::config_images(values);
    let ids = compose::image_ids(values);
    assert forall|i: int| 0 <= i < values.len() implies #[trigger] images[i]
        == values[i].config_image by {}
    assert forall|x: Seq<char>| ids.contains(x) <==> x.len() > 0 && exists|i: int|
        0 <= i < values.len() && (#[trigger] values[i]).image == x by {
        lemma_image_ids(values, x);
    }
    let s = compose::summary(values);
    if s.actual_image == Some(image) {
        assert forall|i: int| 0 <= i < values.len() implies (
        #[trigger] values[i]).config_image == image by {
            assert(images[i] == images[0]);
        }
    }
    if values.len() > 0 && forall|i: int|
        0 <= i < values.len() ==> (#[trigger] values[i]).config_image == image {
        assert(values[0].config_image == image);
        assert forall|i: int| 0 <= i < images.len() implies #[trigger] images[i] == images[0] by {
            assert(values[i].config_image == image);
        }
    }
    if s.actual_image_id == Some(image) {
        assert(ids.contains(ids[0]));
        assert forall|i: int| 0 <= i < values.len() implies (#[trigger] values[i]).image == image
            || values[i].image.len() == 0 by {
            if values[i].image.len() > 0 {
                assert(ids.contains(values[i].image));
                let k = choose|k: int| 0 <= k < ids.len() && ids[k] == values[i].image;
                assert(ids[k] == ids[0]);
            }
        }
    }
    if image.len() > 0 && (exists|i: int|
        0 <= i < values.len() && (#[trigger] values[i]).image == image) && forall|i: int|
        0 <= i < values.len() ==> (#[trigger] values[i]).image == image || values[i].image.len()
            == 0 {
        assert(ids.contains(image));
        assert forall|k: int| 0 <= k < ids.len() implies #[trigger] ids[k] == image by {
            assert(ids.contains(ids[k]));
        }
    }
    if !compose::all_same(images) {
        let i = choose|i: int| 0 <= i < images.len() && #[trigger] images[i] != images[0];
        assert(values[i].config_image != values[0].config_image);
    }
    if !compose::all_same(ids) {
        let k = choose|k: int| 0 <= k < ids.len() && #[trigger] ids[k] != ids[0];
        assert(ids.contains(ids[k]) && ids.contains(ids[0]));
        let i = choose|i: int| 0 <= i < values.len() && (#[trigger] values[i]).image == ids[k];
        let j = choose|j: int| 0 <= j < values.len() && (#[trigger] values[j]).image == ids[0];
        assert(values[i].image != values[j].image);
    }
    if exists|i: int, j: int|
        0 <= i < values.len() && 0 <= j < values.len() && ((#[trigger] values[i]).config_image != (
        #[trigger] values[j]).config_image || values[i].image != values[j].image
            && values[i].image.len() > 0 && values[j].image.len() > 0) {
        let (i, j) = choose|i: int, j: int|
            0 <= i < values.len() && 0 <= j < values.len() && ((#[trigger] values[i]).config_image
                != (#[trigger] values[j]).config_image || values[i].image != values[j].image
                && values[i].image.len() > 0 && values[j].image.len() > 0);
        if values[i].config_image != values[j].config_image {
            assert(images[i] != images[0] || images[j] != images[0]);
        } else {
            assert(ids.contains(values[i].image) && ids.contains(values[j].image));
            let a = choose|a: int| 0 <= a < ids.len() && ids[a] == values[i].image;
            let b = choose|b: int| 0 <= b < ids.len() && ids[b] == values[j].image;
            assert(ids[a] != ids[0] || ids[b] != ids[0]);
        }
    }
}

proof fn lemma_image_ids(values: Seq<InspectView>, x: Seq<char>)
    ensures
        compose::image_ids(values).contains(x) <==> x.len() > 0 && exists|i: int|
            0 <= i < values.len() && (#[trigger] values[i]).image == x,
    decreases values.len(),
{
    let ids = compose::image_ids(values);
    if values.len() > 0 {
        let front = values.drop_last();
        let last = values.last();
        let before = compose::image_ids(front);
        lemma_image_ids(front, x);
        if before.contains(x) {
            let k = choose|k: int| 0 <= k < before.len() && before[k] == x;
            assert(ids[k] == x);
            let i = choose|i: int| 0 <= i < front.len() && (#[trigger] front[i]).image == x;
            assert(values[i].image == x);
        }
        if last.image == x && x.len() > 0 {
            assert(ids.last() == x);
            assert(values[values.len() - 1].image == x);
        }
        if ids.contains(x) && !before.contains(x) {
            let k = choose|k: int| 0 <= k < ids.len() && ids[k] == x;
            if k < before.len() {
                assert(before[k] == x);
            }
            assert(values[values.len() - 1].image == x);
        }
        if x.len() > 0 && exists|i: int| 0 <= i < values.len() && (#[trigger] values[i]).image == x {
            let i = choose|i: int| 0 <= i < values.len() && (#[trigger] values[i]).image == x;
            if i < front.len() {
                assert(front[i].image == x);
            }
        }
    }
}

/// Where every container is up, the service is healthy, or running where one of them has no health
/// check. Otherwise the last one that is not up says what is wrong: by its health check, or by its
/// own status.
pub proof fn law_status_is_exact(values: Seq<InspectView>, i: int)
    ensures
        compose::all_ready(values) ==> compose::summary(values).container_status == (if forall|k: int|
            0 <= k < values.len() ==> (#[trigger] values[k]).has_healthcheck {
            "healthy"@
        } else {
            "running"@
        }),
        0 <= i < values.len() && !compose::is_ready(values[i]) && (forall|k: int|
            i < k < values.len() ==> compose::is_ready(#[trigger] values[k]))
            && values[i].has_healthcheck ==> compose::summary(values).container_status == (match values[i].health {
            Some(health) => health,
            None => "starting"@,
        }),
        0 <= i < values.len() && !compose::is_ready(values[i]) && (forall|k: int|
            i < k < values.len() ==> compose::is_ready(#[trigger] values[k]))
            && !values[i].has_healthcheck && values[i].status != "healthy"@ ==> compose::summary(
            values,
        ).container_status == values[i].status,
{
    if compose::all_ready(values) {
        lemma_all_up(values);
    }
    if 0 <= i < values.len() && !compose::is_ready(values[i]) && (forall|k: int|
        i < k < values.len() ==> compose::is_ready(#[trigger] values[k])) {
        reveal_strlit("starting");
        reveal_strlit("healthy");
        assert("starting"@.len() == 8 && "healthy"@.len() == 7);
        if compose::trouble(values[i]) != "healthy"@ {
            lemma_last_trouble(values, i);
        }
    }
}

proof fn lemma_all_up(values: Seq<InspectView>)
    requires
        compose::all_ready(values),
    ensures
        compose::overall_status(values) == (if forall|k: int|
            0 <= k < values.len() ==> (#[trigger] values[k]).has_healthcheck {
            "healthy"@
        } else {
            "running"@
        }),
    decreases values.len(),
{
    if values.len() > 0 {
        let front = values.drop_last();
        assert forall|k: int| 0 <= k < front.len() implies compose::is_ready(
            #[trigger] front[k],
        ) by {
            assert(compose::is_ready(values[k]));
        }
        lemma_all_up(front);
        assert(compose::is_ready(values[values.len() - 1]));
        if forall|k: int| 0 <= k < values.len() ==> (#[trigger] values[k]).has_healthcheck {
            assert(values[values.len() - 1].has_healthcheck);
            assert forall|k: int| 0 <= k < front.len() implies (
            #[trigger] front[k]).has_healthcheck by {
                assert(values[k].has_healthcheck);
            }
        } else {
            let k = choose|k: int| 0 <= k < values.len() && !(#[trigger] values[k]).has_healthcheck;
            if k < front.len() {
                assert(!front[k].has_healthcheck);
            }
            reveal_strlit("healthy");
            reveal_strlit("running");
            assert("healthy"@[0] == 'h' && "running"@[0] == 'r');
        }
    }
}

proof fn lemma_last_trouble(values: Seq<InspectView>, i: int)
    requires
        0 <= i < values.len(),
        !compose::is_ready(values[i]),
        forall|k: int| i < k < values.len() ==> compose::is_ready(#[trigger] values[k]),
        compose::trouble(values[i]) != "healthy"@,
    ensures
        compose::overall_status(values) == compose::trouble(values[i]),
    decreases values.len(),
{
    if i < values.len() - 1 {
        let front = values.drop_last();
        assert(compose::is_ready(values[values.len() - 1]));
        assert forall|k: int| i < k < front.len() implies compose::is_ready(
            #[trigger] front[k],
        ) by {
            assert(compose::is_ready(values[k]));
        }
        lemma_last_trouble(front, i);
    }
}

/// Looking at the containers of a service fails where it has none, where they cannot be inspected,
/// or where some of them are missing from the answer. Otherwise it says what they are, and whether
/// all of them are up.
pub proof fn law_inspection_is_exact(
    ids: Seq<Seq<char>>,
    values: Seq<InspectView>,
    error: Seq<char>,
)
    ensures
        ids.len() == 0 ==> compose::inspection_of(ids, Ok(values)) == Err::<
            (RuntimeStateView, bool),
            _,
        >("Compose 未返回容器"@),
        ids.len() > 0 ==> compose::inspection_of(ids, Err(error)) == Err::<
            (RuntimeStateView, bool),
            _,
        >(error),
        ids.len() > 0 && values.len() != ids.len() ==> compose::inspection_of(ids, Ok(values))
            == Err::<(RuntimeStateView, bool), _>("部分容器无法检查"@),
        ids.len() > 0 && values.len() == ids.len() ==> compose::inspection_of(ids, Ok(values)) is Ok
            && compose::inspection_of(ids, Ok(values))->Ok_0.0 == compose::summary(values) && (
        compose::inspection_of(ids, Ok(values))->Ok_0.1 <==> forall|i: int|
            0 <= i < values.len() ==> compose::is_ready(#[trigger] values[i])),
{
}

/// A service without containers is down, and one that cannot be looked at is unknown.
pub proof fn law_runtime_state_is_exact(
    ids: Seq<Seq<char>>,
    state: RuntimeStateView,
    up: bool,
    error: Seq<char>,
)
    ensures
        ({
            let nothing = |status: Seq<char>|
                RuntimeStateView {
                    actual_image: None,
                    actual_image_id: None,
                    replicas: 0,
                    mixed_images: false,
                    container_status: status,
                };
            &&& compose::runtime_of(Err(error), Ok((state, up))) == nothing("unknown"@)
            &&& compose::runtime_of(Ok(seq![]), Ok((state, up))) == nothing("down"@)
            &&& ids.len() > 0 ==> compose::runtime_of(Ok(ids), Ok((state, up))) == state
            &&& ids.len() > 0 ==> compose::runtime_of(Ok(ids), Err(error)) == nothing("unknown"@)
        }),
{
}

/// The containers of a project are told apart by their services: what is said of a service is said
/// of its own containers, in their order, and of no others. A service without containers is not
/// named.
pub proof fn law_services_are_told_apart(values: Seq<InspectView>, service: Seq<char>)
    ensures
        ({
            let own = values.filter(|v: InspectView| v.service == Some(service));
            ordered::value_of(compose::runtime_map(values), service) == (if own.len() == 0 {
                None
            } else {
                Some(compose::summary(own))
            })
        }),
{
    lemma_grouped(values, service);
    lemma_mapped(compose::grouped(values), service);
}

proof fn lemma_mapped(groups: Seq<(Seq<char>, Seq<InspectView>)>, service: Seq<char>)
    ensures
        ordered::value_of(
            groups.map_values(|e: (Seq<char>, Seq<InspectView>)| (e.0, compose::summary(e.1))),
            service,
        ) == (match ordered::value_of(groups, service) {
            Some(group) => Some(compose::summary(group)),
            None => None,
        }),
    decreases groups.len(),
{
    let f = |e: (Seq<char>, Seq<InspectView>)| (e.0, compose::summary(e.1));
    if groups.len() > 0 {
        lemma_mapped(groups.drop_first(), service);
        assert(groups.map_values(f).drop_first() =~= groups.drop_first().map_values(f));
    }
}

proof fn lemma_grouped(values: Seq<InspectView>, service: Seq<char>)
    ensures
        ({
            let own = values.filter(|v: InspectView| v.service == Some(service));
            ordered::value_of(compose::grouped(values), service) == (if own.len() == 0 {
                None
            } else {
                Some(own)
            })
        }),
    decreases values.len(),
{
    reveal(Seq::filter);
    let is_own = |v: InspectView| v.service == Some(service);
    if values.len() > 0 {
        let front = values.drop_last();
        let last = values.last();
        lemma_grouped(front, service);
        let rest = compose::grouped(front);
        if let Some(name) = last.service {
            let group = (match ordered::value_of(rest, name) {
                Some(group) => group,
                None => Seq::empty(),
            }).push(last);
            ordered::law_entry_is_found(rest, name, group, service);
            if name == service {
                let before = front.filter(is_own);
                assert(values.filter(is_own) == before.push(last));
                assert(group =~= before.push(last));
            }
        }
    }
}

/// When waiting for a service ends, and how: well, exactly where all its containers are up, run the
/// same image, and it is the expected one; badly, where they are up with another image, where one
/// has broken down, or where the time is up; and otherwise it goes on.
pub proof fn law_waiting_is_exact(
    state: RuntimeStateView,
    up: bool,
    expected: Option<Seq<char>>,
    time_is_up: bool,
    error: Seq<char>,
)
    ensures
        ({
            let wait = compose::wait_step(Ok((state, up)), expected, time_is_up);
            let status = state.container_status;
            let right = expected is None || expected->0.len() == 0 || state.actual_image_id
                == expected;
            if up && state.mixed_images {
                wait == WaitView::Failed("服务的多个副本运行了不同镜像"@)
            } else if up && !right {
                wait == WaitView::Failed("容器运行的镜像 ID 与已验证候选镜像不一致"@)
            } else if up {
                wait == WaitView::Ready("容器状态："@ + status + "\n"@)
            } else if status == "unhealthy"@ || status == "exited"@ || status == "dead"@ {
                wait == WaitView::Failed("容器状态异常: "@ + status)
            } else if time_is_up {
                wait == WaitView::Failed("等待容器健康状态超时"@)
            } else {
                wait == WaitView::Again
            }
        }),
        compose::wait_step(Err(error), expected, true) == WaitView::Failed(error),
        compose::wait_step(Err(error), expected, false) == WaitView::Again,
        compose::wait_look(Err(error), Ok((state, up)), expected, time_is_up) == WaitView::Failed(
            error,
        ),
        compose::wait_look(Ok(seq![error]), Ok((state, up)), expected, time_is_up)
            == compose::wait_step(Ok((state, up)), expected, time_is_up),
{
}

/// Whether a name begins with none of Docker Hub's addresses.
pub open spec fn is_short(name: Seq<char>) -> bool {
    &&& !text::starts_with(name, "docker.io/"@)
    &&& !text::starts_with(name, "index.docker.io/"@)
    &&& !text::starts_with(name, "registry-1.docker.io/"@)
}

/// A repository on Docker Hub can be named with or without Docker Hub's address, and one in the
/// namespace `library` with or without that; and only names that differ in nothing else stand for
/// one repository.
pub proof fn law_repositories_are_named_in_many_ways(a: Seq<char>, b: Seq<char>)
    requires
        is_short(a),
        is_short(b),
    ensures
        compose::same_repository("docker.io/"@ + a, a),
        compose::same_repository("index.docker.io/"@ + a, a),
        compose::same_repository("registry-1.docker.io/"@ + a, a),
        text_laws::lacks(a, '/') ==> compose::same_repository("docker.io/library/"@ + a, a),
        compose::same_repository(a, b) <==> a == b || text_laws::lacks(a, '/') && b == "library/"@
            + a || text_laws::lacks(b, '/') && a == "library/"@ + b,
{
    reveal_strlit("docker.io/");
    reveal_strlit("index.docker.io/");
    reveal_strlit("registry-1.docker.io/");
    reveal_strlit("docker.io/library/");
    reveal_strlit("library/");
    let lib = "library/"@;
    lemma_short(a);
    lemma_short(b);
    lemma_library(a);
    lemma_library(b);
    lemma_addressed(a);
    if text_laws::lacks(a, '/') {
        assert(is_short(lib + a)) by {
            assert((lib + a)[0] == 'l');
            assert((lib + a).take(10)[0] == (lib + a)[0] || (lib + a).len() < 10);
            assert((lib + a).take(16)[0] == (lib + a)[0] || (lib + a).len() < 16);
            assert((lib + a).take(21)[0] == (lib + a)[0] || (lib + a).len() < 21);
        }
        lemma_short(lib + a);
        lemma_addressed(lib + a);
        assert("docker.io/library/"@ + a =~= "docker.io/"@ + (lib + a));
        assert((lib + a)[7] == '/');
        assert((lib + a).contains('/'));
        assert(!a.contains('/'));
    }
}

proof fn lemma_short(a: Seq<char>)
    requires
        is_short(a),
    ensures
        compose::normalized(a) == (if a.contains('/') {
            a
        } else {
            "library/"@ + a
        }),
        a.contains('/') == !text_laws::lacks(a, '/'),
{
    if !text_laws::lacks(a, '/') {
        let i = choose|i: int| 0 <= i < a.len() && #[trigger] a[i] == '/';
        assert(a.contains('/'));
    }
}

/// A name in the namespace `library` tells what it is a name in.
proof fn lemma_library(a: Seq<char>)
    ensures
        ("library/"@ + a).contains('/'),
        ("library/"@ + a).skip(8) == a,
{
    reveal_strlit("library/");
    assert(("library/"@ + a)[7] == '/');
    assert(("library/"@ + a).skip(8) =~= a);
}

proof fn lemma_addressed(a: Seq<char>)
    requires
        is_short(a),
    ensures
        compose::same_repository("docker.io/"@ + a, a),
        compose::same_repository("index.docker.io/"@ + a, a),
        compose::same_repository("registry-1.docker.io/"@ + a, a),
{
    reveal_strlit("docker.io/");
    reveal_strlit("index.docker.io/");
    reveal_strlit("registry-1.docker.io/");
    let d = "docker.io/"@;
    let i = "index.docker.io/"@;
    let r = "registry-1.docker.io/"@;
    text_laws::law_prefix_is_taken_off(d, a, a);
    text_laws::law_prefix_is_taken_off(i, a, a);
    text_laws::law_prefix_is_taken_off(r, a, a);
    assert(!text::starts_with(i + a, d)) by {
        assert((i + a).take(10)[0] == 'i');
    }
    assert(!text::starts_with(r + a, d)) by {
        assert((r + a).take(10)[0] == 'r');
    }
    assert(!text::starts_with(r + a, i)) by {
        assert((r + a).take(16)[0] == 'r');
    }
    text_laws::law_prefix_is_taken_off(d, a, i + a);
    text_laws::law_prefix_is_taken_off(d, a, r + a);
    text_laws::law_prefix_is_taken_off(i, a, r + a);
}

/// Whether an entry is a digest of the image in this repository.
pub open spec fn is_digest_in(entry: Seq<char>, repository: Seq<char>) -> bool {
    text::rsplit_once(entry, '@') matches Some((repo, digest)) && compose::same_repository(
        repo,
        repository,
    )
}

/// An image that was pulled is pinned by the first digest that it has in its repository, where that
/// is a SHA-256 digest. Without one it cannot be pinned.
pub proof fn law_pulled_images_are_pinned(
    image: Seq<char>,
    repository: Seq<char>,
    values: Seq<ImageInspectView>,
    i: int,
    name: Seq<char>,
    digest: Seq<char>,
)
    ensures
        values.len() == 0 ==> compose::artifact_of(image, repository, values) == Err::<
            ImageArtifactView,
            _,
        >("docker image inspect 未返回镜像"@),
        ({
            let digests = values.last().repo_digests;
            let refused = compose::artifact_of(image, repository, values) == Err::<
                ImageArtifactView,
                _,
            >("已拉取镜像缺少目标仓库的 RepoDigest"@);
            let first = 0 <= i < digests.len() && digests[i] == name + seq!['@'] + digest
                && text_laws::lacks(digest, '@') && compose::same_repository(name, repository)
                && forall|j: int|
                0 <= j < i ==> !is_digest_in(#[trigger] digests[j], repository);
            &&& values.len() > 0 && first && text::starts_with(digest, "sha256:"@)
                ==> compose::artifact_of(image, repository, values) == Ok::<_, Seq<char>>(
                ImageArtifactView {
                    image,
                    pinned_image: repository + "@"@ + digest,
                    digest,
                    image_id: values.last().id,
                },
            )
            &&& values.len() > 0 && first && !text::starts_with(digest, "sha256:"@) ==> refused
            &&& values.len() > 0 && (forall|j: int|
                0 <= j < digests.len() ==> !is_digest_in(#[trigger] digests[j], repository))
                ==> refused
        }),
{
    if values.len() > 0 {
        let digests = values.last().repo_digests;
        if text_laws::lacks(digest, '@') {
            text_laws::law_text_is_parted_at_the_last(name, digest, '@');
            if 0 <= i < digests.len() && digests[i] == name + seq!['@'] + digest
                && compose::same_repository(name, repository) && forall|j: int|
                0 <= j < i ==> !is_digest_in(#[trigger] digests[j], repository) {
                lemma_first_digest(digests, repository, i);
            }
        }
        if forall|j: int|
            0 <= j < digests.len() ==> !is_digest_in(#[trigger] digests[j], repository) {
            lemma_first_digest(digests, repository, digests.len() as int);
        }
    }
}

proof fn lemma_first_digest(digests: Seq<Seq<char>>, repository: Seq<char>, i: int)
    requires
        0 <= i <= digests.len(),
        i < digests.len() ==> is_digest_in(digests[i], repository),
        forall|j: int| 0 <= j < i ==> !is_digest_in(#[trigger] digests[j], repository),
    ensures
        compose::repository_digest(digests, repository) == (if i < digests.len() {
            let parts = text::rsplit_once(digests[i], '@')->0;
            Some(parts.1)
        } else {
            None
        }),
    decreases i,
{
    if i > 0 {
        let rest = digests.drop_first();
        assert(!is_digest_in(digests[0], repository));
        if i < digests.len() {
            assert(rest[i - 1] == digests[i]);
        }
        assert forall|j: int| 0 <= j < i - 1 implies !is_digest_in(
            #[trigger] rest[j],
            repository,
        ) by {
            assert(!is_digest_in(digests[j + 1], repository));
        }
        lemma_first_digest(rest, repository, i - 1);
    }
}

/// A project is resolved with the name that Compose gives it, and keeps its files and its times. A
/// name of white space is none. A service without an image is passed over, and one whose image
/// cannot be understood stops the rest.
pub proof fn law_projects_are_resolved(
    p: ProjectConfigView,
    name: Seq<char>,
    services: Seq<(Seq<char>, Option<Seq<char>>)>,
    id: Seq<char>,
    image: Option<Seq<char>>,
)
    ensures
        text_laws::is_blank(name) ==> compose::resolved_project(p, name, services) == Err::<
            ProjectConfigView,
            _,
        >("docker compose config 未返回项目名"@),
        compose::resolved_project(p, name, services) matches Ok(r) ==> {
            &&& r.id == name
            &&& r.compose_files == p.compose_files
            &&& r.health_timeout_seconds == p.health_timeout_seconds
            &&& r.command_timeout_seconds == p.command_timeout_seconds
            &&& compose::resolved_services(ordered::in_key_order(services)) == Ok::<_, Seq<char>>(
                r.services,
            )
        },
        !text_laws::is_blank(name) && compose::resolved_services(
            ordered::in_key_order(services),
        ) is Ok ==> compose::resolved_project(p, name, services) is Ok,
        compose::resolved_services(seq![]) == Ok::<_, Seq<char>>(Seq::<ServiceConfigView>::empty()),
        ({
            let before = compose::resolved_services(services);
            let after = compose::resolved_services(services.push((id, image)));
            if before is Err || image is None || text_laws::is_blank(image->0) {
                after == before
            } else {
                match config::image_service(id, image->0) {
                    Ok(service) => after == Ok::<_, Seq<char>>(before->Ok_0.push(service)),
                    Err(error) => after == Err::<Seq<ServiceConfigView>, _>(error),
                }
            }
        }),
{
    crate::operation_laws::lemma_blank(name);
    if let Some(image) = image {
        crate::operation_laws::lemma_blank(image);
    }
    assert(services.push((id, image)).drop_last() =~= services);
}

/// Services in the order of their names: each name once, and of two entries of a name the last one
/// counts.
pub proof fn law_key_order_keeps_the_last_entry<V>(
    entries: Seq<(Seq<char>, V)>,
    key: Seq<char>,
    value: V,
    other: Seq<char>,
)
    ensures
        ordered::value_of(ordered::in_key_order(entries.push((key, value))), key) == Some(value),
        other != key ==> ordered::value_of(
            ordered::in_key_order(entries.push((key, value))),
            other,
        ) == ordered::value_of(ordered::in_key_order(entries), other),
        ordered::value_of(ordered::in_key_order(Seq::<(Seq<char>, V)>::empty()), key) is None,
{
    assert(entries.push((key, value)).drop_last() =~= entries);
    ordered::law_entry_is_found(ordered::in_key_order(entries), key, value, other);
}

/// An image for a service that the project does not have is refused, and nothing is written.
pub proof fn law_unknown_services_are_not_pinned(
    managed: Seq<Seq<char>>,
    images: Seq<(Seq<char>, Seq<char>)>,
    i: int,
)
    requires
        0 <= i < images.len(),
        !managed.contains(images[i].0),
        forall|j: int| 0 <= j < i ==> managed.contains(#[trigger] images[j].0),
    ensures
        compose::override_document(managed, images) == Err::<Seq<char>, _>(
            "未知服务状态 "@ + images[i].0,
        ),
{
    lemma_unknown(managed, images, i);
}

proof fn lemma_unknown(managed: Seq<Seq<char>>, images: Seq<(Seq<char>, Seq<char>)>, i: int)
    requires
        0 <= i < images.len(),
        !managed.contains(images[i].0),
        forall|j: int| 0 <= j < i ==> managed.contains(#[trigger] images[j].0),
    ensures
        compose::unknown_service(images, managed) == Some(images[i].0),
    decreases images.len(),
{
    if i > 0 {
        let rest = images.drop_first();
        assert(managed.contains(images[0].0));
        assert forall|j: int| 0 <= j < i - 1 implies managed.contains(#[trigger] rest[j].0) by {
            assert(managed.contains(images[j + 1].0));
        }
        lemma_unknown(managed, rest, i - 1);
    }
}

} // verus!
