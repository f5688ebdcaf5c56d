//! Docker Compose: the commands that are run for a project, and what their output says.
use crate::config::{
    self, lists, service_from_image, ProjectConfig, ProjectConfigView, ServiceConfig,
    ServiceConfigView,
};
use crate::duplicate::{self, Duplicate};
use crate::ordered;
use crate::outside;
use crate::text;
use vstd::prelude::*;

verus! {

/// What a finished command left: whether it succeeded, and all that it printed.
#[derive(Debug)]
pub struct CommandOutput {
    pub success: bool,
    pub log: String,
}

pub struct CommandOutputView {
    pub success: bool,
    pub log: Seq<char>,
}

impl DeepView for CommandOutput {
    type V = CommandOutputView;

    open spec fn deep_view(&self) -> CommandOutputView {
        CommandOutputView {
            success: self.success,
            log: self.log.deep_view(),
        }
    }
}

impl Duplicate for CommandOutput {
    fn duplicate(&self) -> (r: Self) {
        CommandOutput {
            success: self.success,
            log: self.log.duplicate(),
        }
    }
}

/// A `docker` command: its arguments and the directory it runs in.
#[derive(Debug)]
pub struct Invocation {
    pub args: Vec<String>,
    pub cwd: String,
}

pub struct InvocationView {
    pub args: Seq<Seq<char>>,
    pub cwd: Seq<char>,
}

impl DeepView for Invocation {
    type V = InvocationView;

    open spec fn deep_view(&self) -> InvocationView {
        InvocationView {
            args: self.args.deep_view(),
            cwd: self.cwd.deep_view(),
        }
    }
}

impl Duplicate for Invocation {
    fn duplicate(&self) -> (r: Self) {
        Invocation {
            args: self.args.duplicate(),
            cwd: self.cwd.duplicate(),
        }
    }
}

/// What runs of a service.
#[derive(Debug)]
pub struct RuntimeState {
    pub actual_image: Option<String>,
    pub actual_image_id: Option<String>,
    pub replicas: usize,
    pub mixed_images: bool,
    pub container_status: String,
}

pub struct RuntimeStateView {
    pub actual_image: Option<Seq<char>>,
    pub actual_image_id: Option<Seq<char>>,
    pub replicas: usize,
    pub mixed_images: bool,
    pub container_status: Seq<char>,
}

impl DeepView for RuntimeState {
    type V = RuntimeStateView;

    open spec fn deep_view(&self) -> RuntimeStateView {
        RuntimeStateView {
            actual_image: self.actual_image.deep_view(),
            actual_image_id: self.actual_image_id.deep_view(),
            replicas: self.replicas,
            mixed_images: self.mixed_images,
            container_status: self.container_status.deep_view(),
        }
    }
}

impl Duplicate for RuntimeState {
    fn duplicate(&self) -> (r: Self) {
        RuntimeState {
            actual_image: self.actual_image.duplicate(),
            actual_image_id: self.actual_image_id.duplicate(),
            replicas: self.replicas,
            mixed_images: self.mixed_images,
            container_status: self.container_status.duplicate(),
        }
    }
}

/// An image that was pulled: its tag, the reference with its digest, the digest, and its ID.
#[derive(Debug)]
pub struct ImageArtifact {
    pub image: String,
    pub pinned_image: String,
    pub digest: String,
    pub image_id: String,
}

pub struct ImageArtifactView {
    pub image: Seq<char>,
    pub pinned_image: Seq<char>,
    pub digest: Seq<char>,
    pub image_id: Seq<char>,
}

impl DeepView for ImageArtifact {
    type V = ImageArtifactView;

    open spec fn deep_view(&self) -> ImageArtifactView {
        ImageArtifactView {
            image: self.image.deep_view(),
            pinned_image: self.pinned_image.deep_view(),
            digest: self.digest.deep_view(),
            image_id: self.image_id.deep_view(),
        }
    }
}

impl Duplicate for ImageArtifact {
    fn duplicate(&self) -> (r: Self) {
        ImageArtifact {
            image: self.image.duplicate(),
            pinned_image: self.pinned_image.duplicate(),
            digest: self.digest.duplicate(),
            image_id: self.image_id.duplicate(),
        }
    }
}

/// What `docker inspect` says of a container.
#[derive(Debug)]
pub struct Inspect {
    /// The ID of the image; empty where none is given.
    pub image: String,
    /// The image that the container was created from, as it was named.
    pub config_image: String,
    pub has_healthcheck: bool,
    pub health: Option<String>,
    pub status: String,
    /// The Compose service that the container belongs to.
    pub service: Option<String>,
}

pub struct InspectView {
    pub image: Seq<char>,
    pub config_image: Seq<char>,
    pub has_healthcheck: bool,
    pub health: Option<Seq<char>>,
    pub status: Seq<char>,
    pub service: Option<Seq<char>>,
}

impl DeepView for Inspect {
    type V = InspectView;

    open spec fn deep_view(&self) -> InspectView {
        InspectView {
            image: self.image.deep_view(),
            config_image: self.config_image.deep_view(),
            has_healthcheck: self.has_healthcheck,
            health: self.health.deep_view(),
            status: self.status.deep_view(),
            service: self.service.deep_view(),
        }
    }
}

impl Duplicate for Inspect {
    fn duplicate(&self) -> (r: Self) {
        Inspect {
            image: self.image.duplicate(),
            config_image: self.config_image.duplicate(),
            has_healthcheck: self.has_healthcheck,
            health: self.health.duplicate(),
            status: self.status.duplicate(),
            service: self.service.duplicate(),
        }
    }
}

/// What `docker image inspect` says of an image.
#[derive(Debug)]
pub struct ImageInspect {
    pub id: String,
    pub repo_digests: Vec<String>,
}

pub struct ImageInspectView {
    pub id: Seq<char>,
    pub repo_digests: Seq<Seq<char>>,
}

impl DeepView for ImageInspect {
    type V = ImageInspectView;

    open spec fn deep_view(&self) -> ImageInspectView {
        ImageInspectView {
            id: self.id.deep_view(),
            repo_digests: self.repo_digests.deep_view(),
        }
    }
}

impl Duplicate for ImageInspect {
    fn duplicate(&self) -> (r: Self) {
        ImageInspect {
            id: self.id.duplicate(),
            repo_digests: self.repo_digests.duplicate(),
        }
    }
}

impl Default for RuntimeState {
    fn default() -> (r: Self)
        ensures
            r.deep_view() == (RuntimeStateView {
                actual_image: None,
                actual_image_id: None,
                replicas: 0,
                mixed_images: false,
                container_status: Seq::empty(),
            }),
    {
        RuntimeState {
            actual_image: None,
            actual_image_id: None,
            replicas: 0,
            mixed_images: false,
            container_status: String::new(),
        }
    }
}

/// The state of a service of which no container is known.
pub open spec fn absent(status: Seq<char>) -> RuntimeStateView {
    RuntimeStateView {
        actual_image: None,
        actual_image_id: None,
        replicas: 0,
        mixed_images: false,
        container_status: status,
    }
}

pub fn absent_state(status: &str) -> (r: RuntimeState)
    ensures
        r.deep_view() == absent(status@),
{
    RuntimeState {
        actual_image: None,
        actual_image_id: None,
        replicas: 0,
        mixed_images: false,
        container_status: status.to_owned(),
    }
}

/// What a command printed, or why it counts as failed.
pub open spec fn command_log(
    result: Result<CommandOutputView, Seq<char>>,
    failure: Seq<char>,
    with_log: bool,
) -> Result<Seq<char>, Seq<char>> {
    match result {
        Err(error) => Err(error),
        Ok(output) => if output.success {
            Ok(output.log)
        } else if with_log {
            Err(failure + "\n"@ + output.log)
        } else {
            Err(failure)
        },
    }
}

fn require_success(
    result: Result<CommandOutput, String>,
    failure: &str,
    with_log: bool,
) -> (r: Result<String, String>)
    ensures
        duplicate::outcome(r) == command_log(duplicate::outcome(result), failure@, with_log),
{
    match result {
        Err(error) => Err(error),
        Ok(output) => {
            if output.success {
                Ok(output.log)
            } else if with_log {
                Err(text::joined3(failure, "\n", output.log.as_str()))
            } else {
                Err(failure.to_owned())
            }
        },
    }
}

/// What is done to one service of a project.
#[derive(Debug)]
pub enum Operation {
    Pull,
    Up,
    Recreate,
    Stop,
    Remove,
    Logs { tail: u32 },
    Ps,
}

impl Operation {
    pub open spec fn arguments(self, service: Seq<char>) -> Seq<Seq<char>> {
        match self {
            Operation::Pull => seq!["pull"@, service],
            Operation::Up => seq!["up"@, "-d"@, "--no-deps"@, service],
            Operation::Recreate => seq!["up"@, "-d"@, "--force-recreate"@, "--no-deps"@, service],
            Operation::Stop => seq!["stop"@, service],
            Operation::Remove => seq!["rm"@, "--stop"@, "--force"@, service],
            Operation::Logs { tail } => seq![
                "logs"@,
                "--no-color"@,
                "--tail"@,
                text::decimal(tail as nat),
                service,
            ],
            Operation::Ps => seq!["ps"@, "-q"@, service],
        }
    }

    pub open spec fn failure_text(self) -> Seq<char> {
        match self {
            Operation::Pull => "docker compose pull 执行失败"@,
            Operation::Up => "docker compose up 执行失败"@,
            Operation::Recreate => "docker compose 重建服务失败"@,
            Operation::Stop => "docker compose 停止服务失败"@,
            Operation::Remove => "docker compose 下线服务失败"@,
            Operation::Logs { .. } => "docker compose logs 执行失败"@,
            Operation::Ps => "docker compose ps 执行失败"@,
        }
    }

    fn failure(&self) -> (r: &'static str)
        ensures
            r@ == self.failure_text(),
    {
        match self {
            Operation::Pull => "docker compose pull 执行失败",
            Operation::Up => "docker compose up 执行失败",
            Operation::Recreate => "docker compose 重建服务失败",
            Operation::Stop => "docker compose 停止服务失败",
            Operation::Remove => "docker compose 下线服务失败",
            Operation::Logs { .. } => "docker compose logs 执行失败",
            Operation::Ps => "docker compose ps 执行失败",
        }
    }

    /// What the operation's command printed, or why the operation failed.
    pub fn result(&self, result: Result<CommandOutput, String>) -> (r: Result<String, String>)
        ensures
            duplicate::outcome(r) == command_log(duplicate::outcome(result), self.failure_text(), true),
    {
        require_success(result, self.failure(), true)
    }
}

/// The options that name the Compose files.
pub open spec fn file_args(files: Seq<Seq<char>>) -> Seq<Seq<char>>
    decreases files.len(),
{
    if files.len() == 0 {
        Seq::empty()
    } else {
        file_args(files.drop_last()) + seq!["-f"@, files.last()]
    }
}

fn push_file_args(args: &mut Vec<String>, files: &Vec<String>)
    ensures
        final(args).deep_view() == old(args).deep_view() + file_args(files.deep_view()),
{
    let ghost was = args.deep_view();
    let ghost all = files.deep_view();
    let mut i: usize = 0;
    proof {
        assert(was + file_args(all.take(0)) =~= was);
    }
    while i < files.len()
        invariant
            i <= files@.len(),
            all == files.deep_view(),
            args.deep_view() == was + file_args(all.take(i as int)),
        decreases files@.len() - i,
    {
        let ghost before = args.deep_view();
        args.push("-f".to_owned());
        args.push(files[i].clone());
        proof {
            assert(args.deep_view() =~= before + seq!["-f"@, files@[i as int]@]);
            assert(all.take(i + 1).drop_last() =~= all.take(i as int));
            assert(all.take(i + 1).last() == files@[i as int]@);
            assert(was + file_args(all.take(i + 1)) =~= (was + file_args(all.take(i as int)))
                + seq!["-f"@, files@[i as int]@]);
        }
        i = i + 1;
    }
    proof {
        assert(all.take(i as int) =~= all);
    }
}

/// A Compose project with the file that pins the images of its services.
#[derive(Debug)]
pub struct Compose {
    cfg: ProjectConfig,
    override_file: String,
}

pub struct ComposeView {
    pub cfg: ProjectConfigView,
    pub override_file: Seq<char>,
}

impl DeepView for Compose {
    type V = ComposeView;

    closed spec fn deep_view(&self) -> ComposeView {
        ComposeView { cfg: self.cfg.deep_view(), override_file: self.override_file@ }
    }
}

impl Duplicate for Compose {
    fn duplicate(&self) -> (r: Self) {
        Compose { cfg: self.cfg.duplicate(), override_file: self.override_file.clone() }
    }
}

impl ComposeView {
    /// The arguments before the command: the project's name, its directory, its files, and last
    /// of them the file that pins the images.
    pub open spec fn base_args(self) -> Seq<Seq<char>> {
        seq![
            "compose"@,
            "--project-name"@,
            self.cfg.id,
            "--project-directory"@,
            self.cfg.dir(),
        ] + file_args(self.cfg.compose_files) + seq!["-f"@, self.override_file]
    }

    pub open spec fn invocation(self, command: Seq<Seq<char>>) -> InvocationView {
        InvocationView { args: self.base_args() + command, cwd: self.cfg.dir() }
    }
}

pub(crate) proof fn lemma_file_args(files: Seq<Seq<char>>, i: int)
    requires
        0 <= i < files.len(),
    ensures
        file_args(files).len() == 2 * files.len(),
        file_args(files)[2 * i] == "-f"@,
        file_args(files)[2 * i + 1] == files[i],
    decreases files.len(),
{
    if files.len() > 1 {
        let front = files.drop_last();
        if i < front.len() {
            lemma_file_args(front, i);
            assert(front[i] == files[i]);
        } else {
            lemma_file_args(front, 0);
        }
    } else {
        assert(files.drop_last() =~= Seq::empty());
        assert(file_args(files.drop_last()) =~= Seq::empty());
    }
}

/// Every command names all Compose files of its project in the order of the configuration, and
/// after them the file that pins the images, so that the pinned images prevail. It concerns the
/// service that it is for and runs in the project's directory.
pub proof fn law_commands_name_the_files_in_order(
    c: ComposeView,
    operation: Operation,
    service: Seq<char>,
    i: int,
)
    requires
        0 <= i < c.cfg.compose_files.len(),
    ensures
        ({
            let args = c.invocation(operation.arguments(service)).args;
            let n = c.cfg.compose_files.len() as int;
            &&& args[5 + 2 * i] == "-f"@
            &&& args[6 + 2 * i] == c.cfg.compose_files[i]
            &&& args[5 + 2 * n] == "-f"@
            &&& args[6 + 2 * n] == c.override_file
            &&& args.skip(7 + 2 * n) == operation.arguments(service)
            &&& args.last() == service
        }),
        c.invocation(operation.arguments(service)).cwd == c.cfg.dir(),
{
    let files = c.cfg.compose_files;
    let n = files.len() as int;
    lemma_file_args(files, i);
    let tail = operation.arguments(service);
    let args = c.base_args() + tail;
    assert(c.base_args().len() == 7 + 2 * n);
    assert(args[5 + 2 * i] == file_args(files)[2 * i]);
    assert(args[6 + 2 * i] == file_args(files)[2 * i + 1]);
    assert(args.skip(7 + 2 * n) =~= tail);
    assert(tail.len() > 0 && tail.last() == service);
    assert(args.last() == tail.last());
}

impl Compose {
    pub fn new(cfg: ProjectConfig, override_file: String) -> (r: Self)
        ensures
            r.deep_view() == (ComposeView {
                cfg: cfg.deep_view(),
                override_file: override_file@,
            }),
    {
        Compose { cfg, override_file }
    }

    pub fn project(&self) -> (r: ProjectConfig)
        ensures
            r.deep_view() == self.deep_view().cfg,
    {
        self.cfg.duplicate()
    }

    pub fn replace_project(&mut self, project: ProjectConfig)
        ensures
            final(self).deep_view() == (ComposeView {
                cfg: project.deep_view(),
                override_file: old(self).deep_view().override_file,
            }),
    {
        self.cfg = project;
    }

    fn base_args(&self) -> (r: (Vec<String>, String))
        requires
            self.deep_view().cfg.has_dir(),
        ensures
            r.0.deep_view() == self.deep_view().base_args(),
            r.1@ == self.deep_view().cfg.dir(),
    {
        let cwd = self.cfg.project_dir();
        let mut args = text::list_of(
            &["compose", "--project-name", self.cfg.id.as_str(), "--project-directory", cwd.as_str()],
        );
        proof {
            assert(args.deep_view() =~= seq![
                "compose"@,
                "--project-name"@,
                self.cfg.id@,
                "--project-directory"@,
                cwd@,
            ]);
        }
        push_file_args(&mut args, &self.cfg.compose_files);
        let tail = text::list_of(&["-f", self.override_file.as_str()]);
        proof {
            assert(tail.deep_view() =~= seq!["-f"@, self.override_file@]);
        }
        text::extend(&mut args, &tail);
        (args, cwd)
    }

    fn command(&self, tail: Vec<String>) -> (r: Invocation)
        requires
            self.deep_view().cfg.has_dir(),
        ensures
            r.deep_view() == self.deep_view().invocation(tail.deep_view()),
    {
        let (mut args, cwd) = self.base_args();
        text::extend(&mut args, &tail);
        Invocation { args, cwd }
    }

    pub fn pull(&self, service: &str) -> (r: Invocation)
        requires
            self.deep_view().cfg.has_dir(),
        ensures
            r.deep_view() == self.deep_view().invocation(Operation::Pull.arguments(service@)),
    {
        let tail = text::list_of(&["pull", service]);
        proof {
            assert(tail.deep_view() =~= Operation::Pull.arguments(service@));
        }
        self.command(tail)
    }

    pub fn up(&self, service: &str) -> (r: Invocation)
        requires
            self.deep_view().cfg.has_dir(),
        ensures
            r.deep_view() == self.deep_view().invocation(Operation::Up.arguments(service@)),
    {
        let tail = text::list_of(&["up", "-d", "--no-deps", service]);
        proof {
            assert(tail.deep_view() =~= Operation::Up.arguments(service@));
        }
        self.command(tail)
    }

    pub fn recreate(&self, service: &str) -> (r: Invocation)
        requires
            self.deep_view().cfg.has_dir(),
        ensures
            r.deep_view() == self.deep_view().invocation(Operation::Recreate.arguments(service@)),
    {
        let tail = text::list_of(&["up", "-d", "--force-recreate", "--no-deps", service]);
        proof {
            assert(tail.deep_view() =~= Operation::Recreate.arguments(service@));
        }
        self.command(tail)
    }

    pub fn stop(&self, service: &str) -> (r: Invocation)
        requires
            self.deep_view().cfg.has_dir(),
        ensures
            r.deep_view() == self.deep_view().invocation(Operation::Stop.arguments(service@)),
    {
        let tail = text::list_of(&["stop", service]);
        proof {
            assert(tail.deep_view() =~= Operation::Stop.arguments(service@));
        }
        self.command(tail)
    }

    pub fn remove(&self, service: &str) -> (r: Invocation)
        requires
            self.deep_view().cfg.has_dir(),
        ensures
            r.deep_view() == self.deep_view().invocation(Operation::Remove.arguments(service@)),
    {
        let tail = text::list_of(&["rm", "--stop", "--force", service]);
        proof {
            assert(tail.deep_view() =~= Operation::Remove.arguments(service@));
        }
        self.command(tail)
    }

    pub fn logs(&self, service: &str, tail: u32) -> (r: Invocation)
        requires
            self.deep_view().cfg.has_dir(),
        ensures
            r.deep_view() == self.deep_view().invocation(
                (Operation::Logs { tail }).arguments(service@),
            ),
    {
        let count = text::decimal_text(tail as u64);
        let last = text::list_of(&["logs", "--no-color", "--tail", count.as_str(), service]);
        proof {
            assert(last.deep_view() =~= (Operation::Logs { tail }).arguments(service@));
        }
        self.command(last)
    }

    /// Lists the containers of one service.
    pub fn ps(&self, service: &str) -> (r: Invocation)
        requires
            self.deep_view().cfg.has_dir(),
        ensures
            r.deep_view() == self.deep_view().invocation(Operation::Ps.arguments(service@)),
    {
        let tail = text::list_of(&["ps", "-q", service]);
        proof {
            assert(tail.deep_view() =~= Operation::Ps.arguments(service@));
        }
        self.command(tail)
    }

    /// Lists the containers of the project.
    pub fn ps_all(&self) -> (r: Invocation)
        requires
            self.deep_view().cfg.has_dir(),
        ensures
            r.deep_view() == self.deep_view().invocation(seq!["ps"@, "-q"@]),
    {
        let tail = text::list_of(&["ps", "-q"]);
        proof {
            assert(tail.deep_view() =~= seq!["ps"@, "-q"@]);
        }
        self.command(tail)
    }

    /// The command that carries out an operation on a service.
    pub fn invocation(&self, operation: &Operation, service: &str) -> (r: Invocation)
        requires
            self.deep_view().cfg.has_dir(),
        ensures
            r.deep_view() == self.deep_view().invocation(operation.arguments(service@)),
    {
        match operation {
            Operation::Pull => self.pull(service),
            Operation::Up => self.up(service),
            Operation::Recreate => self.recreate(service),
            Operation::Stop => self.stop(service),
            Operation::Remove => self.remove(service),
            Operation::Logs { tail } => self.logs(service, *tail),
            Operation::Ps => self.ps(service),
        }
    }

    /// The command that inspects containers, where there are any.
    pub fn inspect(&self, ids: &Vec<String>) -> (r: Option<Invocation>)
        requires
            self.deep_view().cfg.has_dir(),
        ensures
            r.deep_view() == (if ids@.len() == 0 {
                None
            } else {
                Some(
                    InvocationView {
                        args: seq!["inspect"@] + ids.deep_view(),
                        cwd: self.deep_view().cfg.dir(),
                    },
                )
            }),
    {
        if ids.len() == 0 {
            return None;
        }
        let mut args = text::list_of(&["inspect"]);
        proof {
            assert(args.deep_view() =~= seq!["inspect"@]);
        }
        text::extend(&mut args, ids);
        Some(Invocation { args, cwd: self.cfg.project_dir() })
    }

    /// The command that inspects an image.
    pub fn inspect_image(&self, image: &str) -> (r: Invocation)
        requires
            self.deep_view().cfg.has_dir(),
        ensures
            r.deep_view() == (InvocationView {
                args: seq!["image"@, "inspect"@, image@],
                cwd: self.deep_view().cfg.dir(),
            }),
    {
        let args = text::list_of(&["image", "inspect", image]);
        proof {
            assert(args.deep_view() =~= seq!["image"@, "inspect"@, image@]);
        }
        Invocation { args, cwd: self.cfg.project_dir() }
    }
}

/// A handle on a Compose project. Copies of a handle are handles on the same project.
#[derive(Clone, Copy, Debug, PartialEq, Eq, Structural)]
pub struct ComposeHandle {
    pub slot: usize,
}

/// The Compose projects that handles share.
#[derive(Debug)]
pub struct ComposeSet {
    list: Vec<Compose>,
}

pub struct ComposeSetView {
    pub list: Seq<ComposeView>,
}

impl DeepView for ComposeSet {
    type V = ComposeSetView;

    closed spec fn deep_view(&self) -> ComposeSetView {
        ComposeSetView { list: self.list.deep_view() }
    }
}

impl ComposeSetView {
    /// The project that a handle is on.
    pub open spec fn compose(self, handle: ComposeHandle) -> Option<ComposeView> {
        if handle.slot < self.list.len() {
            Some(self.list[handle.slot as int])
        } else {
            None
        }
    }

    /// The set after the configuration of a project was replaced.
    pub open spec fn with_project(
        self,
        handle: ComposeHandle,
        project: ProjectConfigView,
    ) -> ComposeSetView {
        match self.compose(handle) {
            Some(compose) => ComposeSetView {
                list: self.list.update(
                    handle.slot as int,
                    ComposeView { cfg: project, override_file: compose.override_file },
                ),
            },
            None => self,
        }
    }
}

impl ComposeSet {
    pub fn new() -> (r: Self)
        ensures
            r.deep_view() == (ComposeSetView { list: Seq::empty() }),
    {
        let list: Vec<Compose> = Vec::new();
        proof {
            assert(list.deep_view() =~= Seq::empty());
        }
        ComposeSet { list }
    }

    /// Takes up a project, and gives a handle on it.
    pub fn add_project(&mut self, compose: Compose) -> (r: ComposeHandle)
        ensures
            r.slot == old(self).deep_view().list.len(),
            final(self).deep_view().list == old(self).deep_view().list.push(compose.deep_view()),
    {
        let ghost before = self.list.deep_view();
        let ghost added = compose.deep_view();
        let slot: usize = self.list.len();
        self.list.push(compose);
        proof {
            assert(self.list.deep_view() =~= before.push(added));
        }
        ComposeHandle { slot }
    }

    /// The project that a handle is on.
    pub fn compose(&self, handle: ComposeHandle) -> (r: Option<&Compose>)
        ensures
            match r {
                Some(compose) => self.deep_view().compose(handle) == Some(compose.deep_view()),
                None => self.deep_view().compose(handle) is None,
            },
    {
        if handle.slot < self.list.len() {
            Some(&self.list[handle.slot])
        } else {
            None
        }
    }

    /// The configuration of the project that a handle is on.
    pub fn project(&self, handle: ComposeHandle) -> (r: Option<ProjectConfig>)
        ensures
            r.deep_view() == (match self.deep_view().compose(handle) {
                Some(compose) => Some(compose.cfg),
                None => None,
            }),
    {
        match self.compose(handle) {
            Some(compose) => Some(compose.project()),
            None => None,
        }
    }

    /// Replaces the configuration of the project that a handle is on.
    pub fn replace_project(&mut self, handle: ComposeHandle, project: ProjectConfig)
        ensures
            final(self).deep_view() == old(self).deep_view().with_project(
                handle,
                project.deep_view(),
            ),
    {
        if handle.slot < self.list.len() {
            let ghost before = self.list.deep_view();
            let mut compose = self.list[handle.slot].duplicate();
            compose.replace_project(project);
            let ghost replaced = compose.deep_view();
            self.list.set(handle.slot, compose);
            proof {
                assert(self.list.deep_view() =~= before.update(handle.slot as int, replaced));
            }
        }
    }
}

/// The set after the configurations of projects were replaced through handles, one after another.
pub open spec fn replace_all(
    s: ComposeSetView,
    writes: Seq<(ComposeHandle, ProjectConfigView)>,
) -> ComposeSetView
    decreases writes.len(),
{
    if writes.len() == 0 {
        s
    } else {
        replace_all(s, writes.drop_last()).with_project(writes.last().0, writes.last().1)
    }
}

/// The configuration that was written last through a handle or a copy of it.
pub open spec fn last_written(
    writes: Seq<(ComposeHandle, ProjectConfigView)>,
    handle: ComposeHandle,
) -> Option<ProjectConfigView>
    decreases writes.len(),
{
    if writes.len() == 0 {
        None
    } else if writes.last().0 == handle {
        Some(writes.last().1)
    } else {
        last_written(writes.drop_last(), handle)
    }
}

/// Copies of a handle share one configuration: whichever of them replaces it, each of them reads
/// what was written last. The file that pins the images stays the same, and nothing changes for
/// handles on other projects.
pub proof fn law_handles_share_one_configuration(
    s: ComposeSetView,
    writes: Seq<(ComposeHandle, ProjectConfigView)>,
    handle: ComposeHandle,
)
    ensures
        replace_all(s, writes).compose(handle) == (match s.compose(handle) {
            Some(compose) => Some(
                ComposeView {
                    cfg: match last_written(writes, handle) {
                        Some(project) => project,
                        None => compose.cfg,
                    },
                    override_file: compose.override_file,
                },
            ),
            None => None,
        }),
    decreases writes.len(),
{
    if writes.len() > 0 {
        law_handles_share_one_configuration(s, writes.drop_last(), handle);
        law_handles_share_one_configuration(s, writes.drop_last(), writes.last().0);
    }
}

/// A project that was taken up is read through its handle and every copy of it, and so is what
/// replaces its configuration.
pub proof fn law_replacements_are_read_through_every_copy(
    s: ComposeSetView,
    compose: ComposeView,
    handle: ComposeHandle,
    copy: ComposeHandle,
    project: ProjectConfigView,
)
    requires
        handle.slot == s.list.len(),
        copy == handle,
    ensures
        ({
            let added = ComposeSetView { list: s.list.push(compose) };
            let replaced = added.with_project(handle, project);
            &&& added.compose(handle) == Some(compose)
            &&& added.compose(copy) == Some(compose)
            &&& replaced.compose(handle) == Some(
                ComposeView { cfg: project, override_file: compose.override_file },
            )
            &&& replaced.compose(copy) == replaced.compose(handle)
        }),
{
}

/// The IDs that a listing of containers printed, one to a line.
pub fn ids(log: &str) -> (r: Vec<String>)
    ensures
        r.deep_view() == text::content(text::lines(log@)),
{
    text::content_lines(log)
}

/// What an inspection of containers printed.
pub fn inspect_log(result: Result<CommandOutput, String>) -> (r: Result<String, String>)
    ensures
        duplicate::outcome(r) == command_log(duplicate::outcome(result), "docker inspect 执行失败"@, false),
{
    require_success(result, "docker inspect 执行失败", false)
}

/// What a listing of all containers of the project printed.
pub fn ps_log(result: Result<CommandOutput, String>) -> (r: Result<String, String>)
    ensures
        duplicate::outcome(r) == command_log(duplicate::outcome(result), "docker compose ps 执行失败"@, false),
{
    require_success(result, "docker compose ps 执行失败", false)
}

/// What an inspection of an image printed.
pub fn inspect_image_log(result: Result<CommandOutput, String>) -> (r: Result<String, String>)
    ensures
        duplicate::outcome(r) == command_log(duplicate::outcome(result), "无法检查已拉取镜像"@, true),
{
    require_success(result, "无法检查已拉取镜像", true)
}

/// Whether a container is up: healthy where its health is checked, else running.
pub open spec fn is_ready(v: InspectView) -> bool {
    if v.has_healthcheck {
        v.health == Some("healthy"@)
    } else {
        v.status == "running"@
    }
}

/// What a container that is not up is reported as.
pub open spec fn trouble(v: InspectView) -> Seq<char> {
    if v.has_healthcheck {
        match v.health {
            Some(health) => health,
            None => "starting"@,
        }
    } else {
        v.status
    }
}

/// The status that stands for all containers: that of the last one that is not up; else
/// "running" where the health of some is not checked, and "healthy" where that of all is.
pub open spec fn overall_status(values: Seq<InspectView>) -> Seq<char>
    decreases values.len(),
{
    if values.len() == 0 {
        "healthy"@
    } else {
        let v = values.last();
        let rest = overall_status(values.drop_last());
        if !is_ready(v) {
            trouble(v)
        } else if !v.has_healthcheck && rest == "healthy"@ {
            "running"@
        } else {
            rest
        }
    }
}

pub open spec fn all_same(s: Seq<Seq<char>>) -> bool {
    forall|i: int| 0 <= i < s.len() ==> #[trigger] s[i] == s[0]
}

/// The one text that a list holds, where it holds just one.
pub open spec fn single(s: Seq<Seq<char>>) -> Option<Seq<char>> {
    if s.len() > 0 && all_same(s) {
        Some(s[0])
    } else {
        None
    }
}

pub open spec fn config_images(values: Seq<InspectView>) -> Seq<Seq<char>> {
    values.map_values(|v: InspectView| v.config_image)
}

/// The image IDs that are known.
pub open spec fn image_ids(values: Seq<InspectView>) -> Seq<Seq<char>>
    decreases values.len(),
{
    if values.len() == 0 {
        Seq::empty()
    } else if values.last().image.len() == 0 {
        image_ids(values.drop_last())
    } else {
        image_ids(values.drop_last()).push(values.last().image)
    }
}

pub open spec fn all_ready(values: Seq<InspectView>) -> bool {
    forall|i: int| 0 <= i < values.len() ==> is_ready(#[trigger] values[i])
}

/// What the containers of a service say of it.
pub open spec fn summary(values: Seq<InspectView>) -> RuntimeStateView {
    RuntimeStateView {
        actual_image: single(config_images(values)),
        actual_image_id: single(image_ids(values)),
        replicas: values.len() as usize,
        mixed_images: !all_same(config_images(values)) || !all_same(image_ids(values)),
        container_status: overall_status(values),
    }
}

fn same_texts(list: &Vec<String>) -> (r: bool)
    ensures
        r == all_same(list.deep_view()),
{
    let mut i: usize = 0;
    while i < list.len()
        invariant
            i <= list@.len(),
            forall|j: int| 0 <= j < i ==> #[trigger] list@[j]@ == list@[0]@,
        decreases list@.len() - i,
    {
        if !text::same(list[i].as_str(), list[0].as_str()) {
            proof {
                assert(list.deep_view()[i as int] != list.deep_view()[0]);
            }
            return false;
        }
        i = i + 1;
    }
    true
}

fn single_text(list: &Vec<String>) -> (r: Option<String>)
    ensures
        r.deep_view() == single(list.deep_view()),
{
    if list.len() > 0 && same_texts(list) {
        Some(list[0].clone())
    } else {
        None
    }
}

/// Summarises the containers of a service, and says whether all of them are up.
pub fn summarize(values: &Vec<Inspect>) -> (r: (RuntimeState, bool))
    ensures
        r.0.deep_view() == summary(values.deep_view()),
        r.1 == all_ready(values.deep_view()),
{
    let ghost all = values.deep_view();
    let mut ready = true;
    let mut worst = "healthy".to_owned();
    let mut images: Vec<String> = Vec::new();
    let mut known: Vec<String> = Vec::new();
    let mut i: usize = 0;
    proof {
        assert(images.deep_view() =~= config_images(all.take(0)));
        assert(known.deep_view() =~= image_ids(all.take(0)));
    }
    while i < values.len()
        invariant
            i <= values@.len(),
            all == values.deep_view(),
            ready == all_ready(all.take(i as int)),
            worst@ == overall_status(all.take(i as int)),
            images.deep_view() == config_images(all.take(i as int)),
            known.deep_view() == image_ids(all.take(i as int)),
        decreases values@.len() - i,
    {
        let v = &values[i];
        let ghost front = all.take(i as int);
        let ghost next = all.take(i + 1);
        let ghost images_were = images.deep_view();
        let ghost known_were = known.deep_view();
        proof {
            assert(next.drop_last() =~= front);
            assert(next.last() == v.deep_view());
            assert(config_images(next) =~= config_images(front).push(v.config_image@));
            assert(all_ready(next) == (all_ready(front) && is_ready(v.deep_view()))) by {
                if all_ready(front) && is_ready(v.deep_view()) {
                    assert forall|j: int| 0 <= j < next.len() implies is_ready(
                        #[trigger] next[j],
                    ) by {
                        if j < i {
                            assert(next[j] == front[j]);
                        }
                    }
                }
                if all_ready(next) {
                    assert(is_ready(next[i as int]));
                    assert forall|j: int| 0 <= j < front.len() implies is_ready(
                        #[trigger] front[j],
                    ) by {
                        assert(next[j] == front[j]);
                    }
                }
            }
        }
        images.push(v.config_image.clone());
        proof {
            assert(images.deep_view() =~= images_were.push(v.config_image@));
        }
        if v.image.as_str().unicode_len() > 0 {
            known.push(v.image.clone());
            proof {
                assert(known.deep_view() =~= known_were.push(v.image@));
            }
        }
        if v.has_healthcheck {
            let health = match &v.health {
                Some(health) => health.clone(),
                None => {
                    proof {
                        reveal_strlit("starting");
                        reveal_strlit("healthy");
                        assert("starting"@[0] != "healthy"@[0]);
                    }
                    "starting".to_owned()
                },
            };
            if !text::same(health.as_str(), "healthy") {
                ready = false;
                worst = health;
            }
        } else if !text::same(v.status.as_str(), "running") {
            ready = false;
            worst = v.status.clone();
        } else if text::same(worst.as_str(), "healthy") {
            worst = "running".to_owned();
        }
        i = i + 1;
    }
    proof {
        assert(all.take(i as int) =~= all);
    }
    let mixed_images = !same_texts(&images) || !same_texts(&known);
    (
        RuntimeState {
            actual_image: single_text(&images),
            actual_image_id: single_text(&known),
            replicas: values.len(),
            mixed_images,
            container_status: worst,
        },
        ready,
    )
}

/// What an inspection of these containers says of their service.
pub open spec fn inspection_of(
    ids: Seq<Seq<char>>,
    values: Result<Seq<InspectView>, Seq<char>>,
) -> Result<(RuntimeStateView, bool), Seq<char>> {
    if ids.len() == 0 {
        Err("Compose 未返回容器"@)
    } else {
        match values {
            Err(error) => Err(error),
            Ok(values) => if values.len() != ids.len() {
                Err("部分容器无法检查"@)
            } else {
                Ok((summary(values), all_ready(values)))
            },
        }
    }
}

/// Reads an inspection of containers. `values` is what was printed, or why there is nothing.
pub fn inspection(ids: &Vec<String>, values: Result<Vec<Inspect>, String>) -> (r: Result<
    (RuntimeState, bool),
    String,
>)
    ensures
        duplicate::outcome(r) == inspection_of(ids.deep_view(), duplicate::outcome(values)),
{
    if ids.len() == 0 {
        return Err("Compose 未返回容器".to_owned());
    }
    match values {
        Err(error) => Err(error),
        Ok(values) => {
            if values.len() != ids.len() {
                Err("部分容器无法检查".to_owned())
            } else {
                Ok(summarize(&values))
            }
        },
    }
}

/// What runs of a service, given its containers and their inspection.
pub open spec fn runtime_of(
    ids: Result<Seq<Seq<char>>, Seq<char>>,
    inspected: Result<(RuntimeStateView, bool), Seq<char>>,
) -> RuntimeStateView {
    match ids {
        Err(_) => absent("unknown"@),
        Ok(ids) => if ids.len() == 0 {
            absent("down"@)
        } else {
            match inspected {
                Ok((state, _)) => state,
                Err(_) => absent("unknown"@),
            }
        },
    }
}

pub fn runtime(
    ids: &Result<Vec<String>, String>,
    inspected: Result<(RuntimeState, bool), String>,
) -> (r: RuntimeState)
    ensures
        r.deep_view() == runtime_of(duplicate::outcome(*ids), duplicate::outcome(inspected)),
{
    match ids {
        Err(_) => absent_state("unknown"),
        Ok(ids) => {
            if ids.len() == 0 {
                absent_state("down")
            } else {
                match inspected {
                    Ok((state, _)) => state,
                    Err(_) => absent_state("unknown"),
                }
            }
        },
    }
}

/// The containers of each service, services in order.
pub open spec fn grouped(values: Seq<InspectView>) -> Seq<(Seq<char>, Seq<InspectView>)>
    decreases values.len(),
{
    if values.len() == 0 {
        Seq::empty()
    } else {
        let rest = grouped(values.drop_last());
        match values.last().service {
            None => rest,
            Some(service) => ordered::with_entry(
                rest,
                service,
                (match ordered::value_of(rest, service) {
                    Some(group) => group,
                    None => Seq::empty(),
                }).push(values.last()),
            ),
        }
    }
}

/// What runs of each service, services in order.
pub open spec fn runtime_map(values: Seq<InspectView>) -> Seq<(Seq<char>, RuntimeStateView)> {
    grouped(values).map_values(
        |e: (Seq<char>, Seq<InspectView>)| (e.0, summary(e.1)),
    )
}

pub fn runtimes(values: &Vec<Inspect>) -> (r: Vec<(String, RuntimeState)>)
    ensures
        r.deep_view() == runtime_map(values.deep_view()),
{
    let ghost all = values.deep_view();
    let mut groups: Vec<(String, Vec<Inspect>)> = Vec::new();
    let mut i: usize = 0;
    proof {
        assert(groups.deep_view() =~= grouped(all.take(0)));
    }
    while i < values.len()
        invariant
            i <= values@.len(),
            all == values.deep_view(),
            groups.deep_view() == grouped(all.take(i as int)),
        decreases values@.len() - i,
    {
        let v = &values[i];
        proof {
            assert(all.take(i + 1).drop_last() =~= all.take(i as int));
            assert(all.take(i + 1).last() == v.deep_view());
        }
        if let Some(service) = &v.service {
            let mut group: Vec<Inspect> = match ordered::find_value(&groups, service.as_str()) {
                Some(group) => group.duplicate(),
                None => {
                    let none: Vec<Inspect> = Vec::new();
                    proof {
                        assert(none.deep_view() =~= Seq::empty());
                    }
                    none
                },
            };
            let ghost before = group.deep_view();
            group.push(v.duplicate());
            proof {
                assert(group.deep_view() =~= before.push(v.deep_view()));
            }
            ordered::put_entry(&mut groups, service.clone(), group);
        }
        i = i + 1;
    }
    proof {
        assert(all.take(i as int) =~= all);
    }
    let mut out: Vec<(String, RuntimeState)> = Vec::new();
    let mut k: usize = 0;
    while k < groups.len()
        invariant
            k <= groups@.len(),
            out@.len() == k,
            groups.deep_view() == grouped(all),
            forall|j: int|
                0 <= j < k ==> #[trigger] out@[j].deep_view() == (
                    groups@[j].0@,
                    summary(groups@[j].1.deep_view()),
                ),
        decreases groups@.len() - k,
    {
        let (state, _) = summarize(&groups[k].1);
        out.push((groups[k].0.clone(), state));
        k = k + 1;
    }
    proof {
        assert forall|j: int| 0 <= j < out@.len() implies out.deep_view()[j] == runtime_map(
            all,
        )[j] by {
            assert(out@[j].deep_view() == (groups@[j].0@, summary(groups@[j].1.deep_view())));
            assert(groups.deep_view()[j] == (groups@[j].0@, groups@[j].1.deep_view()));
        }
        assert(out.deep_view() =~= runtime_map(all));
    }
    out
}

/// What waiting for a service comes to after a look at it.
#[derive(Debug)]
pub enum Wait {
    Ready(String),
    Failed(String),
    Again,
}

pub enum WaitView {
    Ready(Seq<char>),
    Failed(Seq<char>),
    Again,
}

impl DeepView for Wait {
    type V = WaitView;

    open spec fn deep_view(&self) -> WaitView {
        match self {
            Wait::Ready(s) => WaitView::Ready(s@),
            Wait::Failed(s) => WaitView::Failed(s@),
            Wait::Again => WaitView::Again,
        }
    }
}

pub open spec fn is_broken(status: Seq<char>) -> bool {
    status == "unhealthy"@ || status == "exited"@ || status == "dead"@
}

/// Whether the service runs the image that it should; an empty ID asks for none.
pub open spec fn runs_expected(state: RuntimeStateView, expected: Option<Seq<char>>) -> bool {
    match expected {
        Some(id) => id.len() == 0 || state.actual_image_id == Some(id),
        None => true,
    }
}

/// Whether to go on waiting for a service, given what was seen of it and whether its time is up.
pub open spec fn wait_step(
    inspected: Result<(RuntimeStateView, bool), Seq<char>>,
    expected: Option<Seq<char>>,
    time_is_up: bool,
) -> WaitView {
    match inspected {
        Ok((state, true)) => if state.mixed_images {
            WaitView::Failed("服务的多个副本运行了不同镜像"@)
        } else if !runs_expected(state, expected) {
            WaitView::Failed("容器运行的镜像 ID 与已验证候选镜像不一致"@)
        } else {
            WaitView::Ready("容器状态："@ + state.container_status + "\n"@)
        },
        Ok((state, false)) => if is_broken(state.container_status) {
            WaitView::Failed("容器状态异常: "@ + state.container_status)
        } else if time_is_up {
            WaitView::Failed("等待容器健康状态超时"@)
        } else {
            WaitView::Again
        },
        Err(error) => if time_is_up {
            WaitView::Failed(error)
        } else {
            WaitView::Again
        },
    }
}

pub fn wait_healthy_image(
    inspected: Result<(RuntimeState, bool), String>,
    expected_image_id: &Option<String>,
    time_is_up: bool,
) -> (r: Wait)
    ensures
        r.deep_view() == wait_step(
            duplicate::outcome(inspected),
            expected_image_id.deep_view(),
            time_is_up,
        ),
{
    match inspected {
        Ok((state, ready)) => {
            let status = state.container_status.as_str();
            if ready {
                let expected = match expected_image_id {
                    Some(id) => id.as_str().unicode_len() == 0 || (match &state.actual_image_id {
                        Some(actual) => text::same(actual.as_str(), id.as_str()),
                        None => false,
                    }),
                    None => true,
                };
                if state.mixed_images {
                    Wait::Failed("服务的多个副本运行了不同镜像".to_owned())
                } else if !expected {
                    Wait::Failed("容器运行的镜像 ID 与已验证候选镜像不一致".to_owned())
                } else {
                    Wait::Ready(text::joined3("容器状态：", status, "\n"))
                }
            } else if text::same(status, "unhealthy") || text::same(status, "exited") || text::same(
                status,
                "dead",
            ) {
                Wait::Failed(text::joined2("容器状态异常: ", status))
            } else if time_is_up {
                Wait::Failed("等待容器健康状态超时".to_owned())
            } else {
                Wait::Again
            }
        },
        Err(error) => {
            if time_is_up {
                Wait::Failed(error)
            } else {
                Wait::Again
            }
        },
    }
}

/// Whether to go on waiting for a service, given the list of its containers and what was seen of
/// them. Where its containers cannot be listed, the wait is over at once.
pub open spec fn wait_look(
    ids: Result<Seq<Seq<char>>, Seq<char>>,
    inspected: Result<(RuntimeStateView, bool), Seq<char>>,
    expected: Option<Seq<char>>,
    time_is_up: bool,
) -> WaitView {
    match ids {
        Err(error) => WaitView::Failed(error),
        Ok(_) => wait_step(inspected, expected, time_is_up),
    }
}

/// Waits for a service, given the list of its containers and their inspection.
pub fn wait_healthy_listed(
    ids: &Result<Vec<String>, String>,
    inspected: Result<(RuntimeState, bool), String>,
    expected_image_id: &Option<String>,
    time_is_up: bool,
) -> (r: Wait)
    ensures
        r.deep_view() == wait_look(
            duplicate::outcome(*ids),
            duplicate::outcome(inspected),
            expected_image_id.deep_view(),
            time_is_up,
        ),
{
    match ids {
        Err(error) => Wait::Failed(error.clone()),
        Ok(_) => wait_healthy_image(inspected, expected_image_id, time_is_up),
    }
}

/// Waits for a service whatever image it runs.
pub fn wait_healthy(inspected: Result<(RuntimeState, bool), String>, time_is_up: bool) -> (r: Wait)
    ensures
        r.deep_view() == wait_step(duplicate::outcome(inspected), None, time_is_up),
{
    wait_healthy_image(inspected, &None, time_is_up)
}

/// Waiting ends well only where every container is up and all of them run the expected image.
pub proof fn law_ready_means_verified(
    inspected: Result<(RuntimeStateView, bool), Seq<char>>,
    expected: Option<Seq<char>>,
    time_is_up: bool,
)
    requires
        wait_step(inspected, expected, time_is_up) is Ready,
    ensures
        inspected is Ok,
        inspected->Ok_0.1,
        !inspected->Ok_0.0.mixed_images,
        runs_expected(inspected->Ok_0.0, expected),
{
}

/// Once the time is up, waiting ends.
pub proof fn law_waiting_ends(
    inspected: Result<(RuntimeStateView, bool), Seq<char>>,
    expected: Option<Seq<char>>,
)
    ensures
        !(wait_step(inspected, expected, true) is Again),
{
}

/// A repository name with what Docker supplies: Docker Hub as the registry, and `library` as the
/// namespace.
pub open spec fn normalized(value: Seq<char>) -> Seq<char> {
    let bare = text::strip_all(
        text::strip_all(text::strip_all(value, "docker.io/"@), "index.docker.io/"@),
        "registry-1.docker.io/"@,
    );
    if bare.contains('/') {
        bare
    } else {
        "library/"@ + bare
    }
}

pub open spec fn same_repository(left: Seq<char>, right: Seq<char>) -> bool {
    normalized(left) == normalized(right)
}

fn normalized_name(value: &str) -> (r: String)
    ensures
        r@ == normalized(value@),
{
    let hub = text::without_prefixes(value, "docker.io/");
    let index = text::without_prefixes(hub.as_str(), "index.docker.io/");
    let bare = text::without_prefixes(index.as_str(), "registry-1.docker.io/");
    if text::contains_char(bare.as_str(), '/') {
        bare
    } else {
        text::joined2("library/", bare.as_str())
    }
}

/// Whether two names stand for one repository.
pub fn repositories_match(left: &str, right: &str) -> (r: bool)
    ensures
        r == same_repository(left@, right@),
{
    normalized_name(left) == normalized_name(right)
}

/// Names that stand for one repository do so in either order, and through a third name.
pub proof fn law_repository_names_are_equivalent(a: Seq<char>, b: Seq<char>, c: Seq<char>)
    ensures
        same_repository(a, a),
        same_repository(a, b) == same_repository(b, a),
        same_repository(a, b) && same_repository(b, c) ==> same_repository(a, c),
{
}

/// The digest under which an image is known in a repository: that of the first entry for it.
pub open spec fn repository_digest(digests: Seq<Seq<char>>, repository: Seq<char>) -> Option<Seq<char>>
    decreases digests.len(),
{
    if digests.len() == 0 {
        None
    } else {
        match text::rsplit_once(digests[0], '@') {
            Some((repo, digest)) if same_repository(repo, repository) => Some(digest),
            _ => repository_digest(digests.drop_first(), repository),
        }
    }
}

fn digest_in(digests: &Vec<String>, repository: &str) -> (r: Option<String>)
    ensures
        r.deep_view() == repository_digest(digests.deep_view(), repository@),
{
    let ghost all = digests.deep_view();
    let mut i: usize = 0;
    proof {
        assert(all.skip(0) =~= all);
    }
    while i < digests.len()
        invariant
            i <= digests@.len(),
            all == digests.deep_view(),
            repository_digest(all.skip(i as int), repository@) == repository_digest(
                all,
                repository@,
            ),
        decreases digests@.len() - i,
    {
        proof {
            assert(all.skip(i as int)[0] == digests@[i as int]@);
            assert(all.skip(i as int).drop_first() =~= all.skip(i + 1));
        }
        if let Some((repo, digest)) = text::rcut_once(digests[i].as_str(), '@') {
            if repositories_match(repo.as_str(), repository) {
                return Some(digest);
            }
        }
        i = i + 1;
    }
    None
}

/// The artifact that a pulled image makes, given what its inspection printed.
pub open spec fn artifact_of(
    image: Seq<char>,
    repository: Seq<char>,
    values: Seq<ImageInspectView>,
) -> Result<ImageArtifactView, Seq<char>> {
    if values.len() == 0 {
        Err("docker image inspect 未返回镜像"@)
    } else {
        match repository_digest(values.last().repo_digests, repository) {
            Some(digest) if text::starts_with(digest, "sha256:"@) => Ok(
                ImageArtifactView {
                    image,
                    pinned_image: repository + "@"@ + digest,
                    digest,
                    image_id: values.last().id,
                },
            ),
            _ => Err("已拉取镜像缺少目标仓库的 RepoDigest"@),
        }
    }
}

pub fn image_artifact(image: &str, repository: &str, values: &Vec<ImageInspect>) -> (r: Result<
    ImageArtifact,
    String,
>)
    ensures
        duplicate::outcome(r) == artifact_of(image@, repository@, values.deep_view()),
{
    if values.len() == 0 {
        return Err("docker image inspect 未返回镜像".to_owned());
    }
    let value = &values[values.len() - 1];
    proof {
        assert(values.deep_view().last() == value.deep_view());
    }
    match digest_in(&value.repo_digests, repository) {
        Some(digest) => {
            if text::begins_with(digest.as_str(), "sha256:") {
                Ok(
                    ImageArtifact {
                        image: image.to_owned(),
                        pinned_image: text::joined3(repository, "@", digest.as_str()),
                        digest,
                        image_id: value.id.clone(),
                    },
                )
            } else {
                Err("已拉取镜像缺少目标仓库的 RepoDigest".to_owned())
            }
        },
        None => Err("已拉取镜像缺少目标仓库的 RepoDigest".to_owned()),
    }
}

/// Whether an entry says that an image has this digest in this repository.
pub open spec fn known_as(entry: Seq<char>, repository: Seq<char>, digest: Seq<char>) -> bool {
    match text::rsplit_once(entry, '@') {
        Some((repo, known)) => same_repository(repo, repository) && known == digest,
        None => false,
    }
}

/// An artifact pins the repository it was asked for, by a digest that the image has there.
pub proof fn law_artifact_pins_its_repository(
    image: Seq<char>,
    repository: Seq<char>,
    values: Seq<ImageInspectView>,
)
    requires
        artifact_of(image, repository, values) is Ok,
    ensures
        artifact_of(image, repository, values)->Ok_0.image == image,
        artifact_of(image, repository, values)->Ok_0.pinned_image == repository + "@"@
            + artifact_of(image, repository, values)->Ok_0.digest,
        text::starts_with(artifact_of(image, repository, values)->Ok_0.digest, "sha256:"@),
        exists|i: int|
            0 <= i < values.last().repo_digests.len() && #[trigger] known_as(
                values.last().repo_digests[i],
                repository,
                artifact_of(image, repository, values)->Ok_0.digest,
            ),
{
    lemma_repository_digest(values.last().repo_digests, repository);
}

proof fn lemma_repository_digest(digests: Seq<Seq<char>>, repository: Seq<char>)
    requires
        repository_digest(digests, repository) is Some,
    ensures
        exists|i: int|
            0 <= i < digests.len() && #[trigger] known_as(
                digests[i],
                repository,
                repository_digest(digests, repository)->0,
            ),
    decreases digests.len(),
{
    let found = repository_digest(digests, repository)->0;
    if known_as(digests[0], repository, found) {
        assert(known_as(digests[0], repository, found));
    } else {
        let rest = digests.drop_first();
        assert(repository_digest(digests, repository) == repository_digest(rest, repository));
        lemma_repository_digest(rest, repository);
        let i = choose|i: int|
            0 <= i < rest.len() && #[trigger] known_as(
                rest[i],
                repository,
                repository_digest(rest, repository)->0,
            );
        assert(known_as(digests[i + 1], repository, found));
    }
}

/// The arguments that make Compose print a project in its resolved form.
pub open spec fn resolve_invocation_of(p: ProjectConfigView) -> InvocationView {
    InvocationView {
        args: seq!["compose"@, "--project-directory"@, p.dir()] + file_args(p.compose_files)
            + seq!["config"@, "--format"@, "json"@],
        cwd: p.dir(),
    }
}

pub fn resolve_invocation(project: &ProjectConfig) -> (r: Invocation)
    requires
        project.deep_view().has_dir(),
    ensures
        r.deep_view() == resolve_invocation_of(project.deep_view()),
{
    let cwd = project.project_dir();
    let mut args = text::list_of(&["compose", "--project-directory", cwd.as_str()]);
    proof {
        assert(args.deep_view() =~= seq!["compose"@, "--project-directory"@, cwd@]);
    }
    push_file_args(&mut args, &project.compose_files);
    let tail = text::list_of(&["config", "--format", "json"]);
    proof {
        assert(tail.deep_view() =~= seq!["config"@, "--format"@, "json"@]);
    }
    text::extend(&mut args, &tail);
    Invocation { args, cwd }
}

/// What resolving a project printed.
pub fn resolve_log(project: &ProjectConfig, result: Result<CommandOutput, String>) -> (r: Result<
    String,
    String,
>)
    requires
        project.compose_files@.len() > 0,
    ensures
        duplicate::outcome(r) == command_log(
            duplicate::outcome(result),
            "无法解析 Compose 项目 "@ + project.compose_files@[0]@,
            true,
        ),
{
    let failure = text::joined2("无法解析 Compose 项目 ", project.compose_files[0].as_str());
    require_success(result, failure.as_str(), true)
}

/// The services of a resolved project that have an image.
pub open spec fn resolved_services(services: Seq<(Seq<char>, Option<Seq<char>>)>) -> Result<
    Seq<ServiceConfigView>,
    Seq<char>,
>
    decreases services.len(),
{
    if services.len() == 0 {
        Ok(Seq::empty())
    } else {
        match (resolved_services(services.drop_last()), services.last().1) {
            (Err(error), _) => Err(error),
            (Ok(list), Some(image)) if text::trim(image).len() > 0 => match config::image_service(
                services.last().0,
                image,
            ) {
                Err(error) => Err(error),
                Ok(service) => Ok(list.push(service)),
            },
            (Ok(list), _) => Ok(list),
        }
    }
}

/// The project with the name and the services that Compose gives it.
pub open spec fn resolved_project(
    p: ProjectConfigView,
    name: Seq<char>,
    services: Seq<(Seq<char>, Option<Seq<char>>)>,
) -> Result<ProjectConfigView, Seq<char>> {
    if text::trim(name).len() == 0 {
        Err("docker compose config 未返回项目名"@)
    } else {
        match resolved_services(ordered::in_key_order(services)) {
            Err(error) => Err(error),
            Ok(list) => Ok(ProjectConfigView { id: name, services: list, ..p }),
        }
    }
}

/// Gives a project the name and the services that Compose printed for it. Each service comes
/// with its image, where it has one.
pub fn resolve_project(
    project: &ProjectConfig,
    name: String,
    services: &Vec<(String, Option<String>)>,
) -> (r: Result<ProjectConfig, String>)
    ensures
        duplicate::outcome(r) == resolved_project(project.deep_view(), name@, services.deep_view()),
{
    if text::blank(name.as_str()) {
        return Err("docker compose config 未返回项目名".to_owned());
    }
    let sorted = ordered::key_ordered(services);
    let ghost all = sorted.deep_view();
    let mut list: Vec<ServiceConfig> = Vec::new();
    let mut k: usize = 0;
    proof {
        assert(list.deep_view() =~= Seq::<ServiceConfigView>::empty());
        assert(all.take(0) =~= Seq::empty());
    }
    while k < sorted.len()
        invariant
            k <= sorted@.len(),
            all == sorted.deep_view(),
            all == ordered::in_key_order(services.deep_view()),
            text::trim(name@).len() > 0,
            resolved_services(all.take(k as int)) == Ok::<_, Seq<char>>(list.deep_view()),
        decreases sorted@.len() - k,
    {
        let ghost before = list.deep_view();
        proof {
            assert(all.take(k + 1).drop_last() =~= all.take(k as int));
            assert(all.take(k + 1).last() == sorted@[k as int].deep_view());
        }
        if let Some(image) = &sorted[k].1 {
            if !text::blank(image.as_str()) {
                match service_from_image(sorted[k].0.clone(), image.clone()) {
                    Err(error) => {
                        proof {
                            lemma_resolved_error(all, k + 1);
                        }
                        return Err(error);
                    },
                    Ok(service) => {
                        let ghost added = service.deep_view();
                        list.push(service);
                        proof {
                            assert(list.deep_view() =~= before.push(added));
                        }
                    },
                }
            }
        }
        k = k + 1;
    }
    proof {
        assert(all.take(k as int) =~= all);
    }
    Ok(
        ProjectConfig {
            compose_files: project.compose_files.duplicate(),
            health_timeout_seconds: project.health_timeout_seconds,
            command_timeout_seconds: project.command_timeout_seconds,
            id: name,
            services: list,
        },
    )
}

/// An error among the first services is the error of all of them.
proof fn lemma_resolved_error(services: Seq<(Seq<char>, Option<Seq<char>>)>, n: int)
    requires
        0 <= n <= services.len(),
        resolved_services(services.take(n)) is Err,
    ensures
        resolved_services(services) == resolved_services(services.take(n)),
    decreases services.len() - n,
{
    if n < services.len() {
        assert(services.take(n + 1).drop_last() =~= services.take(n));
        lemma_resolved_error(services, n + 1);
    } else {
        assert(services.take(n) =~= services);
    }
}

/// The first service with a pinned image that the project does not have.
pub open spec fn unknown_service(
    images: Seq<(Seq<char>, Seq<char>)>,
    managed: Seq<Seq<char>>,
) -> Option<Seq<char>>
    decreases images.len(),
{
    if images.len() == 0 {
        None
    } else if !managed.contains(images[0].0) {
        Some(images[0].0)
    } else {
        unknown_service(images.drop_first(), managed)
    }
}

/// What a Compose file says that gives each of these services its image and nothing else.
pub open spec fn pinned(images: Seq<(Seq<char>, Seq<char>)>) -> Seq<
    (Seq<char>, Seq<(Seq<char>, Seq<(Seq<char>, Seq<char>)>)>),
> {
    seq![
        (
            "services"@,
            images.map_values(|p: (Seq<char>, Seq<char>)| (p.0, seq![("image"@, p.1)])),
        ),
    ]
}

/// The contents of the file that pins these images, in a project with these services. The
/// services are listed by their names.
pub open spec fn override_document(
    managed: Seq<Seq<char>>,
    images: Seq<(Seq<char>, Seq<char>)>,
) -> Result<Seq<char>, Seq<char>> {
    match unknown_service(images, managed) {
        Some(id) => Err("未知服务状态 "@ + id),
        None => outside::yaml_text(pinned(ordered::in_key_order(images))),
    }
}

fn pin(images: &Vec<(String, String)>) -> (r: Vec<(String, Vec<(String, Vec<(String, String)>)>)>)
    ensures
        r.deep_view() == pinned(images.deep_view()),
{
    let ghost all = images.deep_view();
    let mut services: Vec<(String, Vec<(String, String)>)> = Vec::new();
    while services.len() < images.len()
        invariant
            services@.len() <= images@.len(),
            all == images.deep_view(),
            services.deep_view() =~= pinned(all)[0].1.take(services@.len() as int),
        decreases images@.len() - services@.len(),
    {
        let i: usize = services.len();
        let ghost before = services.deep_view();
        let fields = vec![("image".to_owned(), images[i].1.clone())];
        proof {
            assert(fields.deep_view() =~= seq![("image"@, all[i as int].1)]);
            assert(pinned(all)[0].1[i as int] == (all[i as int].0, seq![("image"@, all[i as int].1)]));
        }
        services.push((images[i].0.clone(), fields));
        proof {
            assert(services.deep_view() =~= before.push(pinned(all)[0].1[i as int]));
        }
    }
    let ghost listed = services.deep_view();
    let r = vec![("services".to_owned(), services)];
    proof {
        assert(listed =~= pinned(all)[0].1);
        assert(r.deep_view() =~= pinned(all));
    }
    r
}

proof fn lemma_pinned_keys(images: Seq<(Seq<char>, Seq<char>)>)
    requires
        ordered::sorted_keys(images),
    ensures
        outside::distinct_keys(pinned(images)),
        outside::distinct_keys(pinned(images)[0].1),
        forall|j: int|
            0 <= j < images.len() ==> outside::distinct_keys(#[trigger] pinned(images)[0].1[j].1),
{
    let services = pinned(images)[0].1;
    assert forall|i: int, j: int| 0 <= i < j < services.len() implies #[trigger] services[i].0
        != #[trigger] services[j].0 by {
        assert(ordered::precedes(images[i].0, images[j].0));
        ordered::lemma_precedes_irreflexive(images[i].0);
    }
}

/// Writes out the file that pins images, one for each service.
pub fn write_image_override(project: &ProjectConfig, images: &Vec<(String, String)>) -> (r: Result<
    String,
    String,
>)
    ensures
        duplicate::outcome(r) == override_document(project.deep_view().service_ids(), images.deep_view()),
{
    let managed = project.service_ids();
    let ghost all = images.deep_view();
    let mut i: usize = 0;
    proof {
        assert(all.skip(0) =~= all);
    }
    while i < images.len()
        invariant
            i <= images@.len(),
            all == images.deep_view(),
            managed.deep_view() == project.deep_view().service_ids(),
            unknown_service(all.skip(i as int), managed.deep_view()) == unknown_service(
                all,
                managed.deep_view(),
            ),
        decreases images@.len() - i,
    {
        proof {
            assert(all.skip(i as int)[0] == images@[i as int].deep_view());
            assert(all.skip(i as int).drop_first() =~= all.skip(i + 1));
        }
        if !lists(&managed, images[i].0.as_str()) {
            return Err(text::joined2("未知服务状态 ", images[i].0.as_str()));
        }
        i = i + 1;
    }
    let sorted = ordered::key_ordered(images);
    let document = pin(&sorted);
    proof {
        ordered::law_key_order_is_sorted(all);
        lemma_pinned_keys(sorted.deep_view());
        assert(document.deep_view().len() == document@.len());
    }
    outside::write_yaml(&document)
}

/// Where each service stands there once and by its name, the file pins the given images, each of
/// them as the image of its service.
pub proof fn law_file_pins_the_given_images(
    managed: Seq<Seq<char>>,
    images: Seq<(Seq<char>, Seq<char>)>,
)
    requires
        unknown_service(images, managed) is None,
        ordered::sorted_keys(images),
    ensures
        override_document(managed, images) == outside::yaml_text(pinned(images)),
        pinned(images).len() == 1,
        pinned(images)[0].0 == "services"@,
        pinned(images)[0].1.len() == images.len(),
        forall|i: int|
            0 <= i < images.len() ==> #[trigger] pinned(images)[0].1[i] == (
                images[i].0,
                seq![("image"@, images[i].1)],
            ),
{
    ordered::law_key_order_is_sorted(images);
}

/// Only services of the project are ever pinned.
pub proof fn law_only_managed_services_are_pinned(
    managed: Seq<Seq<char>>,
    images: Seq<(Seq<char>, Seq<char>)>,
)
    requires
        override_document(managed, images) is Ok,
    ensures
        forall|i: int| 0 <= i < images.len() ==> managed.contains(#[trigger] images[i].0),
{
    lemma_no_unknown_service(images, managed);
}

proof fn lemma_no_unknown_service(images: Seq<(Seq<char>, Seq<char>)>, managed: Seq<Seq<char>>)
    requires
        unknown_service(images, managed) is None,
    ensures
        forall|i: int| 0 <= i < images.len() ==> managed.contains(#[trigger] images[i].0),
    decreases images.len(),
{
    if images.len() > 0 {
        lemma_no_unknown_service(images.drop_first(), managed);
        assert forall|i: int| 0 <= i < images.len() implies managed.contains(
            #[trigger] images[i].0,
        ) by {
            if i > 0 {
                assert(images.drop_first()[i - 1] == images[i]);
            }
        }
    }
}

} // verus!
