//! How an operation on a service proceeds, what is undone when it fails, and what a restart of
//! the panel makes of it.
//!
//! A task says what has to be done next, and is told what came of it. It never acts by itself.
use crate::compose::{
    self, ImageArtifact, ImageArtifactView, Operation, RuntimeState, RuntimeStateView,
};
use crate::config::{
    self, ProjectConfig, ProjectConfigView, ServiceConfig, ServiceConfigView, VersionSourceConfig,
    VersionSourceConfigView,
};
use crate::duplicate::{self, Duplicate};
use crate::error::{AppError, AppErrorView};
use crate::ordered;
use crate::outside;
use crate::registry::{self, PackageVersion, PackageVersionView};
use crate::storage::{
    self, Change, Deployment, DeploymentArtifact, DeploymentArtifactView, DeploymentView,
    ServiceRevision, ServiceRevisionView, ServiceStateView, Storage,
};
use crate::text;
use vstd::prelude::*;

verus! {

/// What can be done to the containers of a service without deploying anything.
#[derive(Clone, Copy, Debug, PartialEq, Eq, Structural)]
pub enum LifecycleAction {
    Recreate,
    Stop,
    Down,
}

impl LifecycleAction {
    pub open spec fn name(self) -> Seq<char> {
        match self {
            LifecycleAction::Recreate => "recreate"@,
            LifecycleAction::Stop => "stop"@,
            LifecycleAction::Down => "down"@,
        }
    }

    pub fn as_str(self) -> (r: &'static str)
        ensures
            r@ == self.name(),
    {
        match self {
            LifecycleAction::Recreate => "recreate",
            LifecycleAction::Stop => "stop",
            LifecycleAction::Down => "down",
        }
    }
}

/// What a task is for.
#[derive(Clone, Copy, Debug, PartialEq, Eq, Structural)]
pub enum Job {
    /// Deploys a version.
    Deploy,
    /// Goes back to a version that was deployed before.
    Rollback,
    /// Acts on the containers alone.
    Lifecycle(LifecycleAction),
    /// Records a deployment that a restart cut off after its containers were up.
    Confirm,
    /// Undoes a deployment that a restart cut off.
    Recover,
}

/// Where a task stands: what it is waiting for.
#[derive(Clone, Copy, Debug, PartialEq, Eq, Structural)]
pub enum Step {
    Mark,
    Candidate,
    Pulling,
    Pull,
    Inspect,
    Target,
    Pin,
    Starting,
    Start,
    Checking,
    Verify,
    Committing,
    Commit,
    Publish,
    Logs,
    Restore,
    RestoreUp,
    RestoreVerify,
    Report,
    Done,
}

/// An operation under way.
#[derive(Debug)]
pub struct Task {
    job: Job,
    step: Step,
    /// Whether the project is still configured.
    present: bool,
    id: String,
    project_id: String,
    service_id: String,
    /// The image of the service, without tag and digest.
    repository: String,
    version: String,
    /// The image that is to run.
    artifact: ImageArtifact,
    log: String,
    /// Why the operation failed, where it did.
    error: String,
    /// What became of undoing it.
    rollback: String,
    /// Why a recovery could not be finished.
    fatal: Option<String>,
}

pub struct TaskView {
    pub job: Job,
    pub step: Step,
    pub present: bool,
    pub id: Seq<char>,
    pub project_id: Seq<char>,
    pub service_id: Seq<char>,
    pub repository: Seq<char>,
    pub version: Seq<char>,
    pub artifact: ImageArtifactView,
    pub log: Seq<char>,
    pub error: Seq<char>,
    pub rollback: Seq<char>,
    pub fatal: Option<Seq<char>>,
}

impl DeepView for Task {
    type V = TaskView;

    closed spec fn deep_view(&self) -> TaskView {
        TaskView {
            job: self.job,
            step: self.step,
            present: self.present,
            id: self.id.deep_view(),
            project_id: self.project_id.deep_view(),
            service_id: self.service_id.deep_view(),
            repository: self.repository.deep_view(),
            version: self.version.deep_view(),
            artifact: self.artifact.deep_view(),
            log: self.log.deep_view(),
            error: self.error.deep_view(),
            rollback: self.rollback.deep_view(),
            fatal: self.fatal.deep_view(),
        }
    }
}

/// What has to be done for a task.
#[derive(Debug)]
pub enum Action {
    /// Record that the operation has begun.
    MarkRunning,
    /// Record how far the operation has come.
    SetPhase(String),
    /// Pin the images that the project's services should run, and in place of this service's the
    /// given one.
    WriteOverride(Option<String>),
    /// Run a Compose command on the service.
    Run(Operation),
    /// Inspect the image that was pulled.
    InspectImage { image: String, repository: String },
    /// Record the image that is to run.
    SetTarget(ImageArtifact),
    /// Wait until the service is healthy, and runs the image with this ID where one is given.
    Wait(Option<String>),
    /// Record that the version was deployed.
    RecordSuccess { revision: ServiceRevision, log: String },
    /// Record that the operation succeeded.
    RecordOperation { log: String },
    /// Record that the operation failed.
    RecordFailure { error: String, rollback: String, log: String },
    /// Record that a restart cut the operation off.
    RecordInterrupted { error: String, rollback: String, log: String },
    /// Nothing is left to do.
    Finished,
}

pub enum ActionView {
    MarkRunning,
    SetPhase(Seq<char>),
    WriteOverride(Option<Seq<char>>),
    Run(Operation),
    InspectImage { image: Seq<char>, repository: Seq<char> },
    SetTarget(ImageArtifactView),
    Wait(Option<Seq<char>>),
    RecordSuccess { revision: ServiceRevisionView, log: Seq<char> },
    RecordOperation { log: Seq<char> },
    RecordFailure { error: Seq<char>, rollback: Seq<char>, log: Seq<char> },
    RecordInterrupted { error: Seq<char>, rollback: Seq<char>, log: Seq<char> },
    Finished,
}

impl DeepView for Action {
    type V = ActionView;

    open spec fn deep_view(&self) -> ActionView {
        match self {
            Action::MarkRunning => ActionView::MarkRunning,
            Action::SetPhase(phase) => ActionView::SetPhase(phase@),
            Action::WriteOverride(image) => ActionView::WriteOverride(image.deep_view()),
            Action::Run(operation) => ActionView::Run(*operation),
            Action::InspectImage { image, repository } => ActionView::InspectImage {
                image: image@,
                repository: repository@,
            },
            Action::SetTarget(artifact) => ActionView::SetTarget(artifact.deep_view()),
            Action::Wait(id) => ActionView::Wait(id.deep_view()),
            Action::RecordSuccess { revision, log } => ActionView::RecordSuccess {
                revision: revision.deep_view(),
                log: log@,
            },
            Action::RecordOperation { log } => ActionView::RecordOperation { log: log@ },
            Action::RecordFailure { error, rollback, log } => ActionView::RecordFailure {
                error: error@,
                rollback: rollback@,
                log: log@,
            },
            Action::RecordInterrupted { error, rollback, log } => ActionView::RecordInterrupted {
                error: error@,
                rollback: rollback@,
                log: log@,
            },
            Action::Finished => ActionView::Finished,
        }
    }
}

/// What came of an action.
#[derive(Debug)]
pub enum Event {
    Done,
    Output(String),
    Artifact(ImageArtifact),
    Failed(String),
}

pub enum EventView {
    Done,
    Output(Seq<char>),
    Artifact(ImageArtifactView),
    Failed(Seq<char>),
}

impl DeepView for Event {
    type V = EventView;

    open spec fn deep_view(&self) -> EventView {
        match self {
            Event::Done => EventView::Done,
            Event::Output(s) => EventView::Output(s@),
            Event::Artifact(a) => EventView::Artifact(a.deep_view()),
            Event::Failed(s) => EventView::Failed(s@),
        }
    }
}

/// A log with the line feed that its last line may lack.
pub open spec fn closed_line(log: Seq<char>) -> Seq<char> {
    if log.len() > 0 && log.last() != '\n' {
        log.push('\n')
    } else {
        log
    }
}

/// A log with the title of the step that comes next, and an empty line before it.
pub open spec fn log_step(log: Seq<char>, title: Seq<char>) -> Seq<char> {
    let closed = closed_line(log);
    let parted = if closed.len() > 0 {
        closed.push('\n')
    } else {
        closed
    };
    parted + "== "@ + title + " ==\n"@
}

/// The title under which the output of a step is logged.
pub open spec fn title(job: Job, step: Step) -> Option<Seq<char>> {
    match (step, job) {
        (Step::Pull, _) => Some("拉取镜像"@),
        (Step::Start, Job::Rollback) => Some("恢复上一个成功版本"@),
        (Step::Start, Job::Lifecycle(LifecycleAction::Recreate)) => Some("重建容器"@),
        (Step::Start, Job::Lifecycle(LifecycleAction::Stop)) => Some("停止容器"@),
        (Step::Start, Job::Lifecycle(LifecycleAction::Down)) => Some("下线容器"@),
        (Step::Start, _) => Some("启动容器"@),
        (Step::Verify, Job::Rollback) => Some("检查回滚后的容器状态"@),
        (Step::Verify, _) => Some("检查容器状态"@),
        (Step::Logs, _) => Some("容器最近 50 行日志"@),
        (Step::RestoreUp, _) => Some("恢复上一版本容器"@),
        (Step::RestoreVerify, _) => Some("检查回退后的容器状态"@),
        _ => None,
    }
}

/// What is logged of the last lines of the containers' own logs.
pub open spec fn with_container_logs(log: Seq<char>, event: EventView) -> Seq<char> {
    match event {
        EventView::Output(output) => if text::trim(output).len() == 0 {
            log + "（容器暂无日志）\n"@
        } else {
            closed_line(log + output)
        },
        EventView::Failed(error) => log + "无法读取容器日志："@ + error + "\n"@,
        _ => log,
    }
}

pub open spec fn missing_project() -> Seq<char> {
    "Compose 项目运行时不存在"@
}

/// Whether an event is one that the step can end with.
pub open spec fn answers(step: Step, event: EventView) -> bool {
    match step {
        Step::Done => false,
        Step::Pull | Step::Start | Step::Verify | Step::Logs | Step::RestoreUp
        | Step::RestoreVerify => event is Output || event is Failed,
        Step::Inspect => event is Artifact || event is Failed,
        _ => event is Done || event is Failed,
    }
}

/// The step that follows when a step has ended well.
pub open spec fn following(job: Job, step: Step) -> Step {
    match (step, job) {
        (Step::Mark, Job::Deploy) => Step::Candidate,
        (Step::Mark, Job::Rollback) => Step::Starting,
        (Step::Mark, Job::Lifecycle(LifecycleAction::Recreate)) => Step::Pin,
        (Step::Mark, _) => Step::Start,
        (Step::Candidate, _) => Step::Pulling,
        (Step::Pulling, _) => Step::Pull,
        (Step::Pull, _) => Step::Inspect,
        (Step::Inspect, _) => Step::Target,
        (Step::Target, _) => Step::Pin,
        (Step::Pin, Job::Deploy) => Step::Starting,
        (Step::Pin, _) => Step::Start,
        (Step::Starting, Job::Rollback) => Step::Target,
        (Step::Starting, _) => Step::Start,
        (Step::Start, Job::Deploy | Job::Rollback) => Step::Checking,
        (Step::Start, Job::Lifecycle(LifecycleAction::Recreate)) => Step::Verify,
        (Step::Start, _) => Step::Commit,
        (Step::Checking, _) => Step::Verify,
        (Step::Verify, Job::Deploy | Job::Rollback) => Step::Committing,
        (Step::Verify, _) => Step::Commit,
        (Step::Committing, _) => Step::Commit,
        (Step::Commit, Job::Deploy | Job::Confirm) => Step::Publish,
        (Step::Commit, _) => Step::Done,
        (Step::Publish, _) => Step::Done,
        (Step::Logs, Job::Lifecycle(_)) => Step::Report,
        (Step::Logs, _) => Step::Restore,
        (Step::Restore, _) => Step::RestoreUp,
        (Step::RestoreUp, _) => Step::RestoreVerify,
        (Step::RestoreVerify, _) => Step::Report,
        (Step::Report, _) => Step::Done,
        (Step::Done, _) => Step::Done,
    }
}

impl TaskView {
    /// The image with the tag that is to be deployed.
    pub open spec fn tagged_image(self) -> Seq<char> {
        self.repository + ":"@ + self.version
    }

    /// The task at a step, whose title is logged.
    pub open spec fn enter(self, step: Step) -> TaskView {
        match title(self.job, step) {
            Some(title) => TaskView { step, log: log_step(self.log, title), ..self },
            None => TaskView { step, ..self },
        }
    }

    pub open spec fn logged(self, more: Seq<char>) -> TaskView {
        TaskView { log: self.log + more, ..self }
    }

    pub open spec fn failed_with(self, error: Seq<char>) -> TaskView {
        TaskView { error, ..self }
    }

    /// What was changed is undone: the images that should run are pinned again.
    #[verifier::opaque]
    pub open spec fn restoring(self) -> TaskView {
        if self.present {
            self.enter(Step::Restore)
        } else {
            self.restore_failed(missing_project())
        }
    }

    #[verifier::opaque]
    pub open spec fn restore_failed(self, error: Seq<char>) -> TaskView {
        if self.job == Job::Recover {
            TaskView {
                rollback: "failed"@,
                error: "中断部署恢复失败，需要人工检查"@,
                ..self.logged("启动恢复失败: "@ + error + "\n"@).enter(Step::Report)
            }
        } else {
            TaskView {
                rollback: "failed"@,
                ..self.logged("回退失败: "@ + error + "\n"@).enter(Step::Report)
            }
        }
    }

    #[verifier::opaque]
    pub open spec fn restored(self) -> TaskView {
        let error = if self.job == Job::Recover {
            "中断部署已恢复到上一个已提交版本"@
        } else {
            self.error
        };
        TaskView { rollback: "succeeded"@, error, ..self.enter(Step::Report) }
    }

    /// The containers' own logs have been read, as far as they could be.
    #[verifier::opaque]
    pub open spec fn logs_read(self) -> TaskView {
        match self.job {
            Job::Lifecycle(_) => TaskView {
                rollback: "unavailable"@,
                ..self.enter(Step::Report)
            },
            _ => TaskView { log: log_step(self.log, "开始回退"@), ..self }.restoring(),
        }
    }

    #[verifier::opaque]
    pub open spec fn reading_logs(self) -> TaskView {
        let entered = self.enter(Step::Logs);
        if self.present {
            entered
        } else {
            entered.logged("无法读取容器日志："@ + missing_project() + "\n"@).logs_read()
        }
    }

    /// Something failed before the operation could be recorded as done.
    #[verifier::opaque]
    pub open spec fn failing(self, error: Seq<char>) -> TaskView {
        let failed = self.failed_with(error);
        match self.job {
            Job::Deploy => failed.logged("\n部署失败: "@ + error + "\n"@).reading_logs(),
            Job::Lifecycle(_) => failed.logged("\n操作失败: "@ + error + "\n"@).reading_logs(),
            _ => failed.restoring(),
        }
    }

    /// The outcome could not be recorded.
    #[verifier::opaque]
    pub open spec fn commit_failed(self, error: Seq<char>) -> TaskView {
        match self.job {
            Job::Deploy => self.failed_with(
                "容器已启动但无法提交部署状态: "@ + error,
            ).restoring(),
            Job::Rollback => self.failed_with(
                "容器已回滚但无法提交部署状态: "@ + error,
            ).restoring(),
            Job::Confirm => TaskView { fatal: Some(error), ..self.enter(Step::Done) },
            _ => self.enter(Step::Done),
        }
    }

    #[verifier::opaque]
    pub open spec fn after_failure(self, error: Seq<char>) -> TaskView {
        match self.step {
            Step::Mark => self.enter(Step::Done),
            Step::Committing => if self.job == Job::Deploy {
                self.failed_with(error).logged("\n无法记录提交阶段: "@ + error + "\n"@).restoring()
            } else {
                self.enter(Step::Commit)
            },
            Step::Commit => self.commit_failed(error),
            Step::Publish => if self.job == Job::Confirm {
                TaskView { fatal: Some(error), ..self.enter(Step::Done) }
            } else {
                self.enter(Step::Done)
            },
            Step::Logs => TaskView {
                log: with_container_logs(self.log, EventView::Failed(error)),
                ..self
            }.logs_read(),
            Step::Restore | Step::RestoreUp | Step::RestoreVerify => self.restore_failed(error),
            Step::Report => if self.job == Job::Recover {
                TaskView { fatal: Some(error), ..self.enter(Step::Done) }
            } else {
                self.enter(Step::Done)
            },
            _ => self.failing(error),
        }
    }

    #[verifier::opaque]
    pub open spec fn after_success(self, event: EventView) -> TaskView {
        let heard = match event {
            EventView::Output(output) => self.logged(output),
            EventView::Artifact(artifact) => TaskView { artifact, ..self },
            _ => self,
        };
        match self.step {
            Step::Mark => if self.present {
                self.enter(following(self.job, Step::Mark))
            } else {
                self.failing(missing_project())
            },
            Step::Logs => TaskView { log: with_container_logs(self.log, event), ..self }.logs_read(),
            Step::RestoreVerify => heard.restored(),
            _ => heard.enter(following(self.job, self.step)),
        }
    }

    /// The task after it was told what came of its action. What does not answer the action is
    /// passed over.
    pub open spec fn next(self, event: EventView) -> TaskView {
        if !answers(self.step, event) {
            self
        } else {
            match event {
                EventView::Failed(error) => self.after_failure(error),
                _ => self.after_success(event),
            }
        }
    }

    /// The version that the task deploys, with its image.
    pub open spec fn revision(self) -> ServiceRevisionView {
        ServiceRevisionView {
            version: self.version,
            image: self.artifact.image,
            pinned_image: self.artifact.pinned_image,
            image_digest: self.artifact.digest,
            image_id: self.artifact.image_id,
        }
    }

    /// What has to be done next.
    pub open spec fn action(self) -> ActionView {
        let lifecycle = self.job is Lifecycle;
        match self.step {
            Step::Mark => ActionView::MarkRunning,
            Step::Candidate => ActionView::WriteOverride(Some(self.tagged_image())),
            Step::Pulling => ActionView::SetPhase("pulling"@),
            Step::Pull => ActionView::Run(Operation::Pull),
            Step::Inspect => ActionView::InspectImage {
                image: self.tagged_image(),
                repository: self.repository,
            },
            Step::Target => ActionView::SetTarget(self.artifact),
            Step::Pin => ActionView::WriteOverride(
                if lifecycle {
                    None
                } else {
                    Some(self.artifact.pinned_image)
                },
            ),
            Step::Starting => ActionView::SetPhase("starting"@),
            Step::Start => ActionView::Run(
                match self.job {
                    Job::Lifecycle(LifecycleAction::Recreate) => Operation::Recreate,
                    Job::Lifecycle(LifecycleAction::Stop) => Operation::Stop,
                    Job::Lifecycle(LifecycleAction::Down) => Operation::Remove,
                    _ => Operation::Up,
                },
            ),
            Step::Checking => ActionView::SetPhase("checking"@),
            Step::Verify => ActionView::Wait(
                if lifecycle {
                    None
                } else {
                    Some(self.artifact.image_id)
                },
            ),
            Step::Committing => ActionView::SetPhase("committing"@),
            Step::Commit => if lifecycle {
                ActionView::RecordOperation { log: self.log }
            } else {
                ActionView::RecordSuccess { revision: self.revision(), log: self.log }
            },
            Step::Publish => ActionView::WriteOverride(None),
            Step::Logs => ActionView::Run(Operation::Logs { tail: 50 }),
            Step::Restore => ActionView::WriteOverride(None),
            Step::RestoreUp => ActionView::Run(Operation::Up),
            Step::RestoreVerify => ActionView::Wait(None),
            Step::Report => if self.job == Job::Recover {
                ActionView::RecordInterrupted {
                    error: self.error,
                    rollback: self.rollback,
                    log: self.log,
                }
            } else {
                ActionView::RecordFailure {
                    error: self.error,
                    rollback: self.rollback,
                    log: self.log,
                }
            },
            Step::Done => ActionView::Finished,
        }
    }
}

fn close_line(log: &mut String)
    ensures
        final(log)@ == closed_line(old(log)@),
{
    let cs = text::chars_of(log.as_str());
    if cs.len() > 0 && cs[cs.len() - 1] != '\n' {
        log.push('\n');
    }
}

fn begin_log_step(log: &mut String, title: &str)
    ensures
        final(log)@ == log_step(old(log)@, title@),
{
    close_line(log);
    if log.as_str().unicode_len() > 0 {
        log.push('\n');
    }
    log.append("== ");
    log.append(title);
    log.append(" ==\n");
}

fn step_title(job: Job, step: Step) -> (r: Option<&'static str>)
    ensures
        match r {
            Some(text) => title(job, step) == Some(text@),
            None => title(job, step) is None,
        },
{
    match (step, job) {
        (Step::Pull, _) => Some("拉取镜像"),
        (Step::Start, Job::Rollback) => Some("恢复上一个成功版本"),
        (Step::Start, Job::Lifecycle(LifecycleAction::Recreate)) => Some("重建容器"),
        (Step::Start, Job::Lifecycle(LifecycleAction::Stop)) => Some("停止容器"),
        (Step::Start, Job::Lifecycle(LifecycleAction::Down)) => Some("下线容器"),
        (Step::Start, _) => Some("启动容器"),
        (Step::Verify, Job::Rollback) => Some("检查回滚后的容器状态"),
        (Step::Verify, _) => Some("检查容器状态"),
        (Step::Logs, _) => Some("容器最近 50 行日志"),
        (Step::RestoreUp, _) => Some("恢复上一版本容器"),
        (Step::RestoreVerify, _) => Some("检查回退后的容器状态"),
        _ => None,
    }
}

fn is_answer(step: Step, event: &Event) -> (r: bool)
    ensures
        r == answers(step, event.deep_view()),
{
    match event {
        Event::Failed(_) => step != Step::Done,
        Event::Artifact(_) => step == Step::Inspect,
        Event::Output(_) => match step {
            Step::Pull | Step::Start | Step::Verify | Step::Logs | Step::RestoreUp
            | Step::RestoreVerify => true,
            _ => false,
        },
        Event::Done => match step {
            Step::Done | Step::Inspect | Step::Pull | Step::Start | Step::Verify | Step::Logs
            | Step::RestoreUp | Step::RestoreVerify => false,
            _ => true,
        },
    }
}

fn next_step(job: Job, step: Step) -> (r: Step)
    ensures
        r == following(job, step),
{
    match (step, job) {
        (Step::Mark, Job::Deploy) => Step::Candidate,
        (Step::Mark, Job::Rollback) => Step::Starting,
        (Step::Mark, Job::Lifecycle(LifecycleAction::Recreate)) => Step::Pin,
        (Step::Mark, _) => Step::Start,
        (Step::Candidate, _) => Step::Pulling,
        (Step::Pulling, _) => Step::Pull,
        (Step::Pull, _) => Step::Inspect,
        (Step::Inspect, _) => Step::Target,
        (Step::Target, _) => Step::Pin,
        (Step::Pin, Job::Deploy) => Step::Starting,
        (Step::Pin, _) => Step::Start,
        (Step::Starting, Job::Rollback) => Step::Target,
        (Step::Starting, _) => Step::Start,
        (Step::Start, Job::Deploy | Job::Rollback) => Step::Checking,
        (Step::Start, Job::Lifecycle(LifecycleAction::Recreate)) => Step::Verify,
        (Step::Start, _) => Step::Commit,
        (Step::Checking, _) => Step::Verify,
        (Step::Verify, Job::Deploy | Job::Rollback) => Step::Committing,
        (Step::Verify, _) => Step::Commit,
        (Step::Committing, _) => Step::Commit,
        (Step::Commit, Job::Deploy | Job::Confirm) => Step::Publish,
        (Step::Commit, _) => Step::Done,
        (Step::Publish, _) => Step::Done,
        (Step::Logs, Job::Lifecycle(_)) => Step::Report,
        (Step::Logs, _) => Step::Restore,
        (Step::Restore, _) => Step::RestoreUp,
        (Step::RestoreUp, _) => Step::RestoreVerify,
        (Step::RestoreVerify, _) => Step::Report,
        (Step::Report, _) => Step::Done,
        (Step::Done, _) => Step::Done,
    }
}

impl Task {
    fn enter(&mut self, step: Step)
        ensures
            final(self).deep_view() == old(self).deep_view().enter(step),
    {
        self.step = step;
        if let Some(title) = step_title(self.job, step) {
            begin_log_step(&mut self.log, title);
        }
    }

    /// Logs three texts, one behind the other.
    fn note(&mut self, before: &str, message: &str, after: &str)
        ensures
            final(self).deep_view() == old(self).deep_view().logged(before@ + message@ + after@),
    {
        self.log.append(before);
        self.log.append(message);
        self.log.append(after);
        proof {
            assert(old(self).log@ + before@ + message@ + after@ =~= old(self).log@ + (before@
                + message@ + after@));
        }
    }

    fn restore(&mut self)
        ensures
            final(self).deep_view() == old(self).deep_view().restoring(),
    {
        proof {
            reveal(TaskView::restoring);
        }
        if self.present {
            self.enter(Step::Restore);
        } else {
            self.fail_restore("Compose 项目运行时不存在");
        }
    }

    fn fail_restore(&mut self, error: &str)
        ensures
            final(self).deep_view() == old(self).deep_view().restore_failed(error@),
    {
        proof {
            reveal(TaskView::restore_failed);
        }
        if self.job == Job::Recover {
            self.note("启动恢复失败: ", error, "\n");
            self.enter(Step::Report);
            self.rollback = "failed".to_owned();
            self.error = "中断部署恢复失败，需要人工检查".to_owned();
        } else {
            self.note("回退失败: ", error, "\n");
            self.enter(Step::Report);
            self.rollback = "failed".to_owned();
        }
    }

    fn finish_restore(&mut self)
        ensures
            final(self).deep_view() == old(self).deep_view().restored(),
    {
        proof {
            reveal(TaskView::restored);
        }
        self.enter(Step::Report);
        self.rollback = "succeeded".to_owned();
        if self.job == Job::Recover {
            self.error = "中断部署已恢复到上一个已提交版本".to_owned();
        }
    }

    fn finish_logs(&mut self)
        ensures
            final(self).deep_view() == old(self).deep_view().logs_read(),
    {
        proof {
            reveal(TaskView::logs_read);
        }
        match self.job {
            Job::Lifecycle(_) => {
                self.enter(Step::Report);
                self.rollback = "unavailable".to_owned();
            },
            _ => {
                begin_log_step(&mut self.log, "开始回退");
                self.restore();
            },
        }
    }

    fn read_logs(&mut self)
        ensures
            final(self).deep_view() == old(self).deep_view().reading_logs(),
    {
        proof {
            reveal(TaskView::reading_logs);
        }
        self.enter(Step::Logs);
        if !self.present {
            self.note("无法读取容器日志：", "Compose 项目运行时不存在", "\n");
            self.finish_logs();
        }
    }

    fn append_container_logs(&mut self, event: &Event)
        ensures
            final(self).deep_view() == (TaskView {
                log: with_container_logs(old(self).deep_view().log, event.deep_view()),
                ..old(self).deep_view()
            }),
    {
        match event {
            Event::Output(output) => {
                if text::blank(output.as_str()) {
                    self.log.append("（容器暂无日志）\n");
                } else {
                    self.log.append(output.as_str());
                    close_line(&mut self.log);
                }
            },
            Event::Failed(error) => {
                self.log.append("无法读取容器日志：");
                self.log.append(error.as_str());
                self.log.append("\n");
            },
            _ => {},
        }
    }

    fn fail(&mut self, error: &str)
        ensures
            final(self).deep_view() == old(self).deep_view().failing(error@),
    {
        proof {
            reveal(TaskView::failing);
        }
        self.error = error.to_owned();
        match self.job {
            Job::Deploy => {
                self.note("\n部署失败: ", error, "\n");
                self.read_logs();
            },
            Job::Lifecycle(_) => {
                self.note("\n操作失败: ", error, "\n");
                self.read_logs();
            },
            _ => self.restore(),
        }
    }

    fn fail_commit(&mut self, error: &str)
        ensures
            final(self).deep_view() == old(self).deep_view().commit_failed(error@),
    {
        proof {
            reveal(TaskView::commit_failed);
        }
        match self.job {
            Job::Deploy => {
                self.error = text::joined2("容器已启动但无法提交部署状态: ", error);
                self.restore();
            },
            Job::Rollback => {
                self.error = text::joined2("容器已回滚但无法提交部署状态: ", error);
                self.restore();
            },
            Job::Confirm => {
                self.enter(Step::Done);
                self.fatal = Some(error.to_owned());
            },
            _ => self.enter(Step::Done),
        }
    }

    fn handle_failure(&mut self, error: &str)
        ensures
            final(self).deep_view() == old(self).deep_view().after_failure(error@),
    {
        proof {
            reveal(TaskView::after_failure);
        }
        match self.step {
            Step::Mark => self.enter(Step::Done),
            Step::Committing => {
                if self.job == Job::Deploy {
                    self.error = error.to_owned();
                    self.note("\n无法记录提交阶段: ", error, "\n");
                    self.restore();
                } else {
                    self.enter(Step::Commit);
                }
            },
            Step::Commit => self.fail_commit(error),
            Step::Publish => {
                self.enter(Step::Done);
                if self.job == Job::Confirm {
                    self.fatal = Some(error.to_owned());
                }
            },
            Step::Logs => {
                self.append_container_logs(&Event::Failed(error.to_owned()));
                self.finish_logs();
            },
            Step::Restore | Step::RestoreUp | Step::RestoreVerify => self.fail_restore(error),
            Step::Report => {
                self.enter(Step::Done);
                if self.job == Job::Recover {
                    self.fatal = Some(error.to_owned());
                }
            },
            _ => self.fail(error),
        }
    }

    fn handle_success(&mut self, event: &Event)
        ensures
            final(self).deep_view() == old(self).deep_view().after_success(event.deep_view()),
    {
        proof {
            reveal(TaskView::after_success);
        }
        match self.step {
            Step::Mark => {
                if self.present {
                    self.enter(next_step(self.job, Step::Mark));
                } else {
                    self.fail("Compose 项目运行时不存在");
                }
            },
            Step::Logs => {
                self.append_container_logs(event);
                self.finish_logs();
            },
            _ => {
                match event {
                    Event::Output(output) => self.log.append(output.as_str()),
                    Event::Artifact(artifact) => {
                        self.artifact = artifact.duplicate();
                    },
                    _ => {},
                }
                if self.step == Step::RestoreVerify {
                    self.finish_restore();
                } else {
                    self.enter(next_step(self.job, self.step));
                }
            },
        }
    }

    /// Tells the task what came of its action.
    pub fn handle(&mut self, event: &Event)
        ensures
            final(self).deep_view() == old(self).deep_view().next(event.deep_view()),
    {
        if is_answer(self.step, event) {
            match event {
                Event::Failed(error) => self.handle_failure(error.as_str()),
                _ => self.handle_success(event),
            }
        }
    }

    fn tagged_image(&self) -> (r: String)
        ensures
            r@ == self.deep_view().tagged_image(),
    {
        text::joined3(self.repository.as_str(), ":", self.version.as_str())
    }

    fn revision(&self) -> (r: ServiceRevision)
        ensures
            r.deep_view() == self.deep_view().revision(),
    {
        ServiceRevision {
            version: self.version.clone(),
            image: self.artifact.image.clone(),
            pinned_image: self.artifact.pinned_image.clone(),
            image_digest: self.artifact.digest.clone(),
            image_id: self.artifact.image_id.clone(),
        }
    }

    /// What has to be done next.
    pub fn action(&self) -> (r: Action)
        ensures
            r.deep_view() == self.deep_view().action(),
    {
        let lifecycle = match self.job {
            Job::Lifecycle(_) => true,
            _ => false,
        };
        match self.step {
            Step::Mark => Action::MarkRunning,
            Step::Candidate => Action::WriteOverride(Some(self.tagged_image())),
            Step::Pulling => Action::SetPhase("pulling".to_owned()),
            Step::Pull => Action::Run(Operation::Pull),
            Step::Inspect => Action::InspectImage {
                image: self.tagged_image(),
                repository: self.repository.clone(),
            },
            Step::Target => Action::SetTarget(self.artifact.duplicate()),
            Step::Pin => Action::WriteOverride(
                if lifecycle {
                    None
                } else {
                    Some(self.artifact.pinned_image.clone())
                },
            ),
            Step::Starting => Action::SetPhase("starting".to_owned()),
            Step::Start => Action::Run(
                match self.job {
                    Job::Lifecycle(LifecycleAction::Recreate) => Operation::Recreate,
                    Job::Lifecycle(LifecycleAction::Stop) => Operation::Stop,
                    Job::Lifecycle(LifecycleAction::Down) => Operation::Remove,
                    _ => Operation::Up,
                },
            ),
            Step::Checking => Action::SetPhase("checking".to_owned()),
            Step::Verify => Action::Wait(
                if lifecycle {
                    None
                } else {
                    Some(self.artifact.image_id.clone())
                },
            ),
            Step::Committing => Action::SetPhase("committing".to_owned()),
            Step::Commit => {
                if lifecycle {
                    Action::RecordOperation { log: self.log.clone() }
                } else {
                    Action::RecordSuccess { revision: self.revision(), log: self.log.clone() }
                }
            },
            Step::Publish => Action::WriteOverride(None),
            Step::Logs => Action::Run(Operation::Logs { tail: 50 }),
            Step::Restore => Action::WriteOverride(None),
            Step::RestoreUp => Action::Run(Operation::Up),
            Step::RestoreVerify => Action::Wait(None),
            Step::Report => {
                if self.job == Job::Recover {
                    Action::RecordInterrupted {
                        error: self.error.clone(),
                        rollback: self.rollback.clone(),
                        log: self.log.clone(),
                    }
                } else {
                    Action::RecordFailure {
                        error: self.error.clone(),
                        rollback: self.rollback.clone(),
                        log: self.log.clone(),
                    }
                }
            },
            Step::Done => Action::Finished,
        }
    }
}

pub open spec fn no_artifact() -> ImageArtifactView {
    ImageArtifactView {
        image: Seq::empty(),
        pinned_image: Seq::empty(),
        digest: Seq::empty(),
        image_id: Seq::empty(),
    }
}

/// The image of a revision.
pub open spec fn revision_artifact(r: ServiceRevisionView) -> ImageArtifactView {
    ImageArtifactView {
        image: r.image,
        pinned_image: r.pinned_image,
        digest: r.image_digest,
        image_id: r.image_id,
    }
}

/// A task that has not begun.
pub open spec fn new_task(
    job: Job,
    item: DeploymentView,
    project_id: Seq<char>,
    service: ServiceConfigView,
    present: bool,
) -> TaskView {
    TaskView {
        job,
        step: Step::Mark,
        present,
        id: item.id,
        project_id,
        service_id: service.id,
        repository: service.image,
        version: item.target_version,
        artifact: no_artifact(),
        log: Seq::empty(),
        error: Seq::empty(),
        rollback: Seq::empty(),
        fatal: None,
    }
}

/// The task that records an interrupted deployment whose containers are up.
pub open spec fn confirming_task(
    item: DeploymentView,
    project_id: Seq<char>,
    service: ServiceConfigView,
    artifact: ImageArtifactView,
) -> TaskView {
    TaskView {
        step: Step::Commit,
        artifact,
        log: "管理程序重启后确认候选镜像仍在健康运行，已补记部署成功\n"@,
        ..new_task(Job::Confirm, item, project_id, service, true)
    }
}

/// The task that undoes an interrupted deployment.
pub open spec fn recovering_task(
    item: DeploymentView,
    project_id: Seq<char>,
    service: ServiceConfigView,
) -> TaskView {
    TaskView {
        log: log_step("管理程序重启后无法确认候选部署已安全完成\n"@, "恢复已提交版本"@),
        ..new_task(Job::Recover, item, project_id, service, true)
    }.restoring()
}

impl Task {
    fn start(
        job: Job,
        item: &Deployment,
        project_id: &str,
        service: &ServiceConfig,
        present: bool,
    ) -> (r: Self)
        ensures
            r.deep_view() == new_task(
                job,
                item.deep_view(),
                project_id@,
                service.deep_view(),
                present,
            ),
    {
        Task {
            job,
            step: Step::Mark,
            present,
            id: item.id.clone(),
            project_id: project_id.to_owned(),
            service_id: service.id.clone(),
            repository: service.image.clone(),
            version: item.target_version.clone(),
            artifact: ImageArtifact {
                image: String::new(),
                pinned_image: String::new(),
                digest: String::new(),
                image_id: String::new(),
            },
            log: String::new(),
            error: String::new(),
            rollback: String::new(),
            fatal: None,
        }
    }

    /// A task that deploys the version of `item`. `present` says whether the project is still
    /// configured.
    pub fn run(item: &Deployment, project_id: &str, service: &ServiceConfig, present: bool) -> (r:
        Self)
        ensures
            r.deep_view() == new_task(
                Job::Deploy,
                item.deep_view(),
                project_id@,
                service.deep_view(),
                present,
            ),
    {
        Task::start(Job::Deploy, item, project_id, service, present)
    }

    /// A task that goes back to a revision.
    pub fn run_revision(
        item: &Deployment,
        project_id: &str,
        service: &ServiceConfig,
        revision: &ServiceRevision,
        present: bool,
    ) -> (r: Self)
        ensures
            r.deep_view() == (TaskView {
                version: revision.version@,
                artifact: revision_artifact(revision.deep_view()),
                ..new_task(
                    Job::Rollback,
                    item.deep_view(),
                    project_id@,
                    service.deep_view(),
                    present,
                )
            }),
    {
        let mut task = Task::start(Job::Rollback, item, project_id, service, present);
        task.version = revision.version.clone();
        task.artifact = ImageArtifact {
            image: revision.image.clone(),
            pinned_image: revision.pinned_image.clone(),
            digest: revision.image_digest.clone(),
            image_id: revision.image_id.clone(),
        };
        task
    }

    /// A task that acts on the containers of a service.
    pub fn run_lifecycle(
        item: &Deployment,
        project_id: &str,
        service: &ServiceConfig,
        action: LifecycleAction,
        present: bool,
    ) -> (r: Self)
        ensures
            r.deep_view() == new_task(
                Job::Lifecycle(action),
                item.deep_view(),
                project_id@,
                service.deep_view(),
                present,
            ),
    {
        Task::start(Job::Lifecycle(action), item, project_id, service, present)
    }

    /// The operation that the task carries out.
    pub fn id(&self) -> (r: &str)
        ensures
            r@ == self.deep_view().id,
    {
        self.id.as_str()
    }

    pub fn project_id(&self) -> (r: &str)
        ensures
            r@ == self.deep_view().project_id,
    {
        self.project_id.as_str()
    }

    pub fn service_id(&self) -> (r: &str)
        ensures
            r@ == self.deep_view().service_id,
    {
        self.service_id.as_str()
    }

    /// Why a recovery could not be finished.
    pub fn fatal(&self) -> (r: Option<String>)
        ensures
            r.deep_view() == self.deep_view().fatal,
    {
        self.fatal.duplicate()
    }
}

/// How long reading the containers' logs may take, in seconds.
pub fn log_timeout(project: &ProjectConfig) -> (r: u64)
    ensures
        r == (if project.command_timeout_seconds < 30 {
            project.command_timeout_seconds
        } else {
            30
        }),
{
    if project.command_timeout_seconds < 30 {
        project.command_timeout_seconds
    } else {
        30
    }
}

/// How long the command of an operation may run, in seconds.
pub fn operation_timeout(project: &ProjectConfig, operation: &Operation) -> (r: u64)
    ensures
        r == (if *operation is Logs && project.command_timeout_seconds > 30 {
            30
        } else {
            project.command_timeout_seconds
        }),
{
    match operation {
        Operation::Logs { .. } => log_timeout(project),
        _ => project.command_timeout(),
    }
}

/// What a restart makes of an unfinished operation.
#[derive(Debug)]
pub enum Recovery {
    /// It is recorded as interrupted.
    Interrupt { error: String, rollback: String, log: String },
    /// It depends on what runs of its service.
    Look(ServiceConfig),
}

pub enum RecoveryView {
    Interrupt { error: Seq<char>, rollback: Seq<char>, log: Seq<char> },
    Look(ServiceConfigView),
}

impl DeepView for Recovery {
    type V = RecoveryView;

    open spec fn deep_view(&self) -> RecoveryView {
        match self {
            Recovery::Interrupt { error, rollback, log } => RecoveryView::Interrupt {
                error: error@,
                rollback: rollback@,
                log: log@,
            },
            Recovery::Look(service) => RecoveryView::Look(service.deep_view()),
        }
    }
}

pub open spec fn interrupt(error: Seq<char>, rollback: Seq<char>, log: Seq<char>) -> RecoveryView {
    RecoveryView::Interrupt { error, rollback, log }
}

/// Whether an operation deploys something.
pub open spec fn is_deploying(operation: Seq<char>) -> bool {
    operation == "deploy"@ || operation == "rollback"@
}

/// What a restart makes of an unfinished operation, given its project as it is now.
pub open spec fn recovery_of(item: DeploymentView, project: Option<ProjectConfigView>) -> RecoveryView {
    match project {
        None => interrupt(
            "启动恢复时 Compose 项目已不存在"@,
            "unavailable"@,
            "无法恢复：Compose 项目已不存在\n"@,
        ),
        Some(project) => match project.service(item.service_id) {
            None => interrupt(
                "启动恢复时 Compose 服务已不存在"@,
                "unavailable"@,
                "无法恢复：Compose 服务已不存在\n"@,
            ),
            Some(service) => if item.status == "queued"@ {
                interrupt(
                    "管理程序重启，尚未开始的操作已取消"@,
                    "not_needed"@,
                    "操作在开始前因管理程序重启而取消\n"@,
                )
            } else if !is_deploying(item.operation) {
                interrupt(
                    "管理程序在生命周期操作期间重启，请检查容器当前状态"@,
                    "unavailable"@,
                    "生命周期操作被管理程序重启中断\n"@,
                )
            } else {
                RecoveryView::Look(service)
            },
        },
    }
}

fn interrupted(error: &str, rollback: &str, log: &str) -> (r: Recovery)
    ensures
        r.deep_view() == interrupt(error@, rollback@, log@),
{
    Recovery::Interrupt {
        error: error.to_owned(),
        rollback: rollback.to_owned(),
        log: log.to_owned(),
    }
}

/// Decides what a restart makes of an unfinished operation.
pub fn recover_interrupted(item: &Deployment, project: &Option<ProjectConfig>) -> (r: Recovery)
    ensures
        r.deep_view() == recovery_of(item.deep_view(), project.deep_view()),
{
    match project {
        None => interrupted(
            "启动恢复时 Compose 项目已不存在",
            "unavailable",
            "无法恢复：Compose 项目已不存在\n",
        ),
        Some(project) => match project.service(item.service_id.as_str()) {
            None => interrupted(
                "启动恢复时 Compose 服务已不存在",
                "unavailable",
                "无法恢复：Compose 服务已不存在\n",
            ),
            Some(service) => {
                let operation = item.operation.as_str();
                if text::same(item.status.as_str(), "queued") {
                    interrupted(
                        "管理程序重启，尚未开始的操作已取消",
                        "not_needed",
                        "操作在开始前因管理程序重启而取消\n",
                    )
                } else if !(text::same(operation, "deploy") || text::same(operation, "rollback")) {
                    interrupted(
                        "管理程序在生命周期操作期间重启，请检查容器当前状态",
                        "unavailable",
                        "生命周期操作被管理程序重启中断\n",
                    )
                } else {
                    Recovery::Look(service)
                }
            },
        },
    }
}

/// Whether the image that was to be deployed is what runs, and is up.
pub open spec fn target_is_healthy(
    artifact: DeploymentArtifactView,
    actual: RuntimeStateView,
) -> bool {
    match artifact.target_image_id {
        Some(id) => {
            &&& id.len() > 0
            &&& actual.actual_image_id == Some(id)
            &&& !actual.mixed_images
            &&& actual.container_status == "healthy"@ || actual.container_status == "running"@
        },
        None => false,
    }
}

/// The image of an interrupted deployment that turns out to have come through: its containers
/// had been started, and they are up.
pub open spec fn confirmed(artifact: DeploymentArtifactView, actual: RuntimeStateView) -> Option<
    ImageArtifactView,
> {
    match (
        artifact.target_image,
        artifact.target_pinned_image,
        artifact.target_digest,
        artifact.target_image_id,
    ) {
        (Some(image), Some(pinned_image), Some(digest), Some(image_id)) => if target_is_healthy(
            artifact,
            actual,
        ) && (artifact.phase == "checking"@ || artifact.phase == "committing"@) {
            Some(ImageArtifactView { image, pinned_image, digest, image_id })
        } else {
            None
        },
        _ => None,
    }
}

fn confirm(artifact: &DeploymentArtifact, actual: &RuntimeState) -> (r: Option<ImageArtifact>)
    ensures
        r.deep_view() == confirmed(artifact.deep_view(), actual.deep_view()),
{
    let status = actual.container_status.as_str();
    let phase = artifact.phase.as_str();
    match (
        &artifact.target_image,
        &artifact.target_pinned_image,
        &artifact.target_digest,
        &artifact.target_image_id,
    ) {
        (Some(image), Some(pinned_image), Some(digest), Some(image_id)) => {
            let runs = match &actual.actual_image_id {
                Some(id) => text::same(id.as_str(), image_id.as_str()),
                None => false,
            };
            let healthy = image_id.as_str().unicode_len() > 0 && runs && !actual.mixed_images && (
            text::same(status, "healthy") || text::same(status, "running"));
            if healthy && (text::same(phase, "checking") || text::same(phase, "committing")) {
                Some(
                    ImageArtifact {
                        image: image.clone(),
                        pinned_image: pinned_image.clone(),
                        digest: digest.clone(),
                        image_id: image_id.clone(),
                    },
                )
            } else {
                None
            }
        },
        _ => None,
    }
}

/// What is done about an interrupted deployment, given what runs of its service.
pub open spec fn resumed(
    item: DeploymentView,
    project_id: Seq<char>,
    service: ServiceConfigView,
    artifact: DeploymentArtifactView,
    actual: RuntimeStateView,
) -> TaskView {
    match confirmed(artifact, actual) {
        Some(artifact) => confirming_task(item, project_id, service, artifact),
        None => recovering_task(item, project_id, service),
    }
}

impl Task {
    /// The task that settles an interrupted deployment.
    pub fn resume(
        item: &Deployment,
        project_id: &str,
        service: &ServiceConfig,
        artifact: &DeploymentArtifact,
        actual: &RuntimeState,
    ) -> (r: Self)
        ensures
            r.deep_view() == resumed(
                item.deep_view(),
                project_id@,
                service.deep_view(),
                artifact.deep_view(),
                actual.deep_view(),
            ),
    {
        match confirm(artifact, actual) {
            Some(found) => {
                let mut task = Task::start(Job::Confirm, item, project_id, service, true);
                task.step = Step::Commit;
                task.artifact = found;
                task.log =
                "管理程序重启后确认候选镜像仍在健康运行，已补记部署成功\n".to_owned();
                task
            },
            None => {
                let mut task = Task::start(Job::Recover, item, project_id, service, true);
                task.log = "管理程序重启后无法确认候选部署已安全完成\n".to_owned();
                begin_log_step(&mut task.log, "恢复已提交版本");
                task.restore();
                task
            },
        }
    }
}

/// The images that the services of a project should run, as far as it still has them.
pub open spec fn pinned_images(
    states: Seq<ServiceStateView>,
    managed: Seq<Seq<char>>,
) -> Seq<(Seq<char>, Seq<char>)>
    decreases states.len(),
{
    if states.len() == 0 {
        Seq::empty()
    } else {
        let rest = pinned_images(states.drop_last(), managed);
        let last = states.last();
        if managed.contains(last.service_id) {
            ordered::with_entry(rest, last.service_id, last.pinned_image)
        } else {
            rest
        }
    }
}

/// The images to pin: those that should run, and in place of one service's the given one.
pub open spec fn images_with(
    images: Seq<(Seq<char>, Seq<char>)>,
    service_id: Seq<char>,
    candidate: Option<Seq<char>>,
) -> Seq<(Seq<char>, Seq<char>)> {
    match candidate {
        Some(image) => ordered::with_entry(images, service_id, image),
        None => images,
    }
}

/// The images that the services of a project should run.
pub fn images_from_db(storage: &Storage, project: &ProjectConfig) -> (r: Vec<(String, String)>)
    ensures
        r.deep_view() == pinned_images(
            storage.deep_view().states_of(project.id@),
            project.deep_view().service_ids(),
        ),
{
    let states = storage.states(project.id.as_str());
    let managed = project.service_ids();
    let ghost all = states.deep_view();
    let mut out: Vec<(String, String)> = Vec::new();
    let mut i: usize = 0;
    proof {
        assert(out.deep_view() =~= pinned_images(all.take(0), managed.deep_view()));
    }
    while i < states.len()
        invariant
            i <= states@.len(),
            all == states.deep_view(),
            out.deep_view() == pinned_images(all.take(i as int), managed.deep_view()),
        decreases states@.len() - i,
    {
        proof {
            assert(all.take(i + 1).drop_last() =~= all.take(i as int));
            assert(all.take(i + 1).last() == states@[i as int].deep_view());
        }
        if config::lists(&managed, states[i].service_id.as_str()) {
            ordered::put_entry(
                &mut out,
                states[i].service_id.clone(),
                states[i].pinned_image.clone(),
            );
        }
        i = i + 1;
    }
    proof {
        assert(all.take(i as int) =~= all);
    }
    out
}

/// The file that pins the images of a project, and in place of one service's image the given one.
pub fn candidate_override(
    storage: &Storage,
    project: &ProjectConfig,
    service_id: &str,
    candidate: &Option<String>,
) -> (r: Result<String, String>)
    ensures
        duplicate::outcome(r) == compose::override_document(
            project.deep_view().service_ids(),
            images_with(
                pinned_images(
                    storage.deep_view().states_of(project.id@),
                    project.deep_view().service_ids(),
                ),
                service_id@,
                candidate.deep_view(),
            ),
        ),
{
    let mut images = images_from_db(storage, project);
    if let Some(image) = candidate {
        ordered::put_entry(&mut images, service_id.to_owned(), image.clone());
    }
    compose::write_image_override(project, &images)
}

/// The file that pins the images that the services of a project should run.
pub fn rebuild_project_override(storage: &Storage, project: &ProjectConfig) -> (r: Result<
    String,
    String,
>)
    ensures
        duplicate::outcome(r) == compose::override_document(
            project.deep_view().service_ids(),
            pinned_images(
                storage.deep_view().states_of(project.id@),
                project.deep_view().service_ids(),
            ),
        ),
{
    let images = images_from_db(storage, project);
    compose::write_image_override(project, &images)
}

/// Whether an operation on a service may begin: not during an update of the panel, only on a
/// service that there is, and only one at a time in a project.
pub open spec fn admitted(
    updating: bool,
    project: Option<ProjectConfigView>,
    idle: bool,
    service_id: Seq<char>,
) -> Result<ServiceConfigView, AppErrorView> {
    if updating {
        Err(AppErrorView::Updating)
    } else {
        match project {
            None => Err(AppErrorView::NotFound),
            Some(project) => if !idle {
                Err(AppErrorView::Busy)
            } else {
                match project.service(service_id) {
                    Some(service) => Ok(service),
                    None => Err(AppErrorView::NotFound),
                }
            },
        }
    }
}

/// Whether something may be done to a project: not during an update of the panel, and not while
/// something else is done to it.
pub open spec fn project_verdict(updating: bool, known: bool, idle: bool) -> Result<
    (),
    AppErrorView,
> {
    if updating {
        Err(AppErrorView::Updating)
    } else if !known {
        Err(AppErrorView::NotFound)
    } else if !idle {
        Err(AppErrorView::Busy)
    } else {
        Ok(())
    }
}

pub fn check_project(updating: bool, known: bool, idle: bool) -> (r: Result<(), AppError>)
    ensures
        duplicate::outcome(r) == project_verdict(updating, known, idle),
{
    if updating {
        Err(AppError::Updating)
    } else if !known {
        Err(AppError::NotFound)
    } else if !idle {
        Err(AppError::Busy)
    } else {
        Ok(())
    }
}

/// Decides whether an operation may begin. `idle` says whether no other one of the project is
/// under way.
pub fn check_admission(updating: bool, project: &Option<ProjectConfig>, idle: bool, service_id: &str) -> (r:
    Result<ServiceConfig, AppError>)
    ensures
        duplicate::outcome(r) == admitted(updating, project.deep_view(), idle, service_id@),
{
    if let Err(error) = check_project(updating, project.is_some(), idle) {
        return Err(error);
    }
    match project {
        None => Err(AppError::NotFound),
        Some(project) => match project.service(service_id) {
            Some(service) => Ok(service),
            None => Err(AppError::NotFound),
        },
    }
}

/// What is said of a version whose service asks for a pattern, where the pattern has this error
/// and otherwise matches the version or not.
pub open spec fn version_verdict(error: Option<Seq<char>>, matches: bool) -> Result<
    (),
    AppErrorView,
> {
    match error {
        Some(error) => Err(AppErrorView::Internal(error)),
        None => if matches {
            Ok(())
        } else {
            Err(AppErrorView::Invalid("版本格式不符合服务规则"@))
        },
    }
}

pub fn judge_version(error: Option<String>, matches: bool) -> (r: Result<(), AppError>)
    ensures
        duplicate::outcome(r) == version_verdict(error.deep_view(), matches),
{
    match error {
        Some(error) => Err(AppError::Internal(error)),
        None => {
            if matches {
                Ok(())
            } else {
                Err(AppError::Invalid("版本格式不符合服务规则".to_owned()))
            }
        },
    }
}

/// What is said of a version whose service asks for a pattern.
pub open spec fn form_verdict(pattern: Seq<char>, version: Seq<char>) -> Result<(), AppErrorView> {
    version_verdict(outside::regex_error(pattern), outside::regex_matches(pattern, version))
}

/// Checks that a version has the form that its service asks for.
pub fn check_version(service: &ServiceConfig, version: &str) -> (r: Result<(), AppError>)
    ensures
        duplicate::outcome(r) == form_verdict(service.tag_pattern@, version@),
{
    let pattern = service.tag_pattern.as_str();
    let error = outside::check_pattern(pattern);
    let matches = error.is_none() && outside::matches_pattern(pattern, version);
    judge_version(error, matches)
}

/// The record of an operation that was asked for.
pub open spec fn queued(
    id: Seq<char>,
    project_id: Seq<char>,
    service_id: Seq<char>,
    operation: Seq<char>,
    previous_version: Option<Seq<char>>,
    target_version: Seq<char>,
    now: Seq<char>,
) -> DeploymentView {
    DeploymentView {
        id,
        project_id,
        service_id,
        operation,
        previous_version,
        target_version,
        status: "queued"@,
        started_at: now,
        finished_at: None,
        command_log: Seq::empty(),
        error_message: None,
        rollback_status: None,
    }
}

fn queued_item(
    id: &str,
    project_id: &str,
    service_id: &str,
    operation: &str,
    previous_version: Option<String>,
    target_version: String,
    now: &str,
) -> (r: Deployment)
    ensures
        r.deep_view() == queued(
            id@,
            project_id@,
            service_id@,
            operation@,
            previous_version.deep_view(),
            target_version@,
            now@,
        ),
{
    Deployment {
        id: id.to_owned(),
        project_id: project_id.to_owned(),
        service_id: service_id.to_owned(),
        operation: operation.to_owned(),
        previous_version,
        target_version,
        status: "queued".to_owned(),
        started_at: now.to_owned(),
        finished_at: None,
        command_log: String::new(),
        error_message: None,
        rollback_status: None,
    }
}

/// The version that a service should run.
pub open spec fn current_version(state: Option<ServiceStateView>) -> Option<Seq<char>> {
    match state {
        Some(state) => Some(state.desired_version),
        None => None,
    }
}

/// What asking for an operation comes to: its record, and what changes in the tables; or an error,
/// and nothing changes.
pub open spec fn recorded(
    before: storage::StorageView,
    after: storage::StorageView,
    wanted: Result<DeploymentView, AppErrorView>,
    result: Result<(DeploymentView, Seq<storage::ChangeView>), AppErrorView>,
) -> bool {
    match wanted {
        Err(error) => result == Err::<(DeploymentView, Seq<storage::ChangeView>), _>(error)
            && after == before,
        Ok(item) => if before.deployment(item.id) is Some {
            result == Err::<(DeploymentView, Seq<storage::ChangeView>), _>(
                AppErrorView::Internal("操作记录已存在: "@ + item.id),
            ) && after == before
        } else {
            result == Ok::<_, AppErrorView>((item, before.creation(item))) && after
                == before.apply_all(before.creation(item))
        },
    }
}

fn record(storage: &mut Storage, item: Deployment) -> (r: Result<(Deployment, Vec<Change>), AppError>)
    ensures
        recorded(
            old(storage).deep_view(),
            final(storage).deep_view(),
            Ok(item.deep_view()),
            duplicate::outcome(r),
        ),
{
    match storage.create_deployment(&item) {
        Ok(changes) => Ok((item, changes)),
        Err(message) => Err(AppError::Internal(message)),
    }
}

/// The deployment of a version that the registry lists.
pub open spec fn wanted_deployment(
    s: storage::StorageView,
    id: Seq<char>,
    now: Seq<char>,
    project_id: Seq<char>,
    service_id: Seq<char>,
    version: Seq<char>,
    listed: Seq<Seq<char>>,
) -> Result<DeploymentView, AppErrorView> {
    if listed.contains(version) {
        Ok(
            queued(
                id,
                project_id,
                service_id,
                "deploy"@,
                current_version(s.state(project_id, service_id)),
                version,
                now,
            ),
        )
    } else {
        Err(AppErrorView::VersionNotFound(version))
    }
}

/// Records the deployment of a version, given the versions that the registry lists.
pub fn enqueue(
    storage: &mut Storage,
    id: &str,
    now: &str,
    project_id: &str,
    service_id: &str,
    version: &str,
    versions: &Vec<PackageVersion>,
) -> (r: Result<(Deployment, Vec<Change>), AppError>)
    ensures
        recorded(
            old(storage).deep_view(),
            final(storage).deep_view(),
            wanted_deployment(
                old(storage).deep_view(),
                id@,
                now@,
                project_id@,
                service_id@,
                version@,
                registry::version_names(versions.deep_view()),
            ),
            duplicate::outcome(r),
        ),
{
    if !registry::lists_version(versions, version) {
        return Err(AppError::VersionNotFound(version.to_owned()));
    }
    let previous = match storage.state(project_id, service_id) {
        Some(state) => Some(state.desired_version),
        None => None,
    };
    let item = queued_item(
        id,
        project_id,
        service_id,
        "deploy",
        previous,
        version.to_owned(),
        now,
    );
    record(storage, item)
}

/// How far the wish to deploy a version has come.
#[derive(Debug)]
pub enum WishState {
    Asked,
    Admitted(ServiceConfig),
    Listed { service: ServiceConfig, versions: Vec<PackageVersion> },
    Refused(AppError),
}

pub enum WishStateView {
    Asked,
    Admitted(ServiceConfigView),
    Listed { service: ServiceConfigView, versions: Seq<PackageVersionView> },
    Refused(AppErrorView),
}

impl DeepView for WishState {
    type V = WishStateView;

    open spec fn deep_view(&self) -> WishStateView {
        match self {
            WishState::Asked => WishStateView::Asked,
            WishState::Admitted(service) => WishStateView::Admitted(service.deep_view()),
            WishState::Listed { service, versions } => WishStateView::Listed {
                service: service.deep_view(),
                versions: versions.deep_view(),
            },
            WishState::Refused(error) => WishStateView::Refused(error.deep_view()),
        }
    }
}

/// What has to be done next for a wish.
#[derive(Debug)]
pub enum WishAction {
    /// Look whether the service may be worked on, and keep others from its project.
    Admit,
    /// Find out which versions there are; with `refresh` from the registry itself.
    ReadVersions {
        cache_key: String,
        source: VersionSourceConfig,
        pattern: String,
        refresh: bool,
    },
    /// Record the deployment.
    Record,
    /// Nothing more: the wish is refused.
    Refuse(AppError),
}

pub enum WishActionView {
    Admit,
    ReadVersions {
        cache_key: Seq<char>,
        source: VersionSourceConfigView,
        pattern: Seq<char>,
        refresh: bool,
    },
    Record,
    Refuse(AppErrorView),
}

impl DeepView for WishAction {
    type V = WishActionView;

    open spec fn deep_view(&self) -> WishActionView {
        match self {
            WishAction::Admit => WishActionView::Admit,
            WishAction::ReadVersions { cache_key, source, pattern, refresh } =>
                WishActionView::ReadVersions {
                cache_key: cache_key@,
                source: source.deep_view(),
                pattern: pattern@,
                refresh: *refresh,
            },
            WishAction::Record => WishActionView::Record,
            WishAction::Refuse(error) => WishActionView::Refuse(error.deep_view()),
        }
    }
}

/// What came of an action. `idle` says whether no other operation of the project is under way.
#[derive(Debug)]
pub enum WishEvent {
    Admission { updating: bool, project: Option<ProjectConfig>, idle: bool },
    Versions(Result<Vec<PackageVersion>, AppError>),
}

pub enum WishEventView {
    Admission { updating: bool, project: Option<ProjectConfigView>, idle: bool },
    Versions(Result<Seq<PackageVersionView>, AppErrorView>),
}

impl DeepView for WishEvent {
    type V = WishEventView;

    open spec fn deep_view(&self) -> WishEventView {
        match self {
            WishEvent::Admission { updating, project, idle } => WishEventView::Admission {
                updating: *updating,
                project: project.deep_view(),
                idle: *idle,
            },
            WishEvent::Versions(versions) => WishEventView::Versions(duplicate::outcome(*versions)),
        }
    }
}

/// The wish to deploy a version of a service, until it is recorded or refused.
#[derive(Debug)]
pub struct Wish {
    project_id: String,
    service_id: String,
    version: String,
    state: WishState,
}

pub struct WishView {
    pub project_id: Seq<char>,
    pub service_id: Seq<char>,
    pub version: Seq<char>,
    pub state: WishStateView,
}

impl DeepView for Wish {
    type V = WishView;

    closed spec fn deep_view(&self) -> WishView {
        WishView {
            project_id: self.project_id@,
            service_id: self.service_id@,
            version: self.version@,
            state: self.state.deep_view(),
        }
    }
}

/// What becomes of a wish once it is known whether the service may be worked on, and whether the
/// version has the form that the service asks for.
pub open spec fn wish_admitted(
    admission: Result<ServiceConfigView, AppErrorView>,
    verdict: Result<(), AppErrorView>,
) -> WishStateView {
    match (admission, verdict) {
        (Err(error), _) => WishStateView::Refused(error),
        (Ok(_), Err(error)) => WishStateView::Refused(error),
        (Ok(service), Ok(_)) => WishStateView::Admitted(service),
    }
}

/// Decides about a wish, where it is known whether the service may be worked on and what is said
/// of the version.
pub fn admit_wish(admission: Result<ServiceConfig, AppError>, verdict: Result<(), AppError>) -> (r:
    WishState)
    ensures
        r.deep_view() == wish_admitted(duplicate::outcome(admission), duplicate::outcome(verdict)),
{
    match (admission, verdict) {
        (Err(error), _) => WishState::Refused(error),
        (Ok(_), Err(error)) => WishState::Refused(error),
        (Ok(service), Ok(_)) => WishState::Admitted(service),
    }
}

impl WishView {
    pub open spec fn new(project_id: Seq<char>, service_id: Seq<char>, version: Seq<char>) -> WishView {
        WishView { project_id, service_id, version, state: WishStateView::Asked }
    }

    /// The versions are always read anew, whatever is kept of them.
    pub open spec fn action(self) -> WishActionView {
        match self.state {
            WishStateView::Asked => WishActionView::Admit,
            WishStateView::Admitted(service) => WishActionView::ReadVersions {
                cache_key: registry::cache_key_of(self.project_id, self.service_id),
                source: service.version_source,
                pattern: service.tag_pattern,
                refresh: true,
            },
            WishStateView::Listed { .. } => WishActionView::Record,
            WishStateView::Refused(error) => WishActionView::Refuse(error),
        }
    }

    /// The wish after an event. One that its action did not ask for changes nothing.
    pub open spec fn next(self, event: WishEventView) -> WishView {
        let state = match (self.state, event) {
            (WishStateView::Asked, WishEventView::Admission { updating, project, idle }) => {
                let admission = admitted(updating, project, idle, self.service_id);
                wish_admitted(admission, form_verdict(admission->Ok_0.tag_pattern, self.version))
            },
            (WishStateView::Admitted(service), WishEventView::Versions(Ok(versions))) =>
                WishStateView::Listed { service, versions },
            (WishStateView::Admitted(_), WishEventView::Versions(Err(error))) =>
                WishStateView::Refused(error),
            _ => self.state,
        };
        WishView { state, ..self }
    }
}

impl Wish {
    pub fn new(project_id: &str, service_id: &str, version: &str) -> (r: Self)
        ensures
            r.deep_view() == WishView::new(project_id@, service_id@, version@),
    {
        Wish {
            project_id: project_id.to_owned(),
            service_id: service_id.to_owned(),
            version: version.to_owned(),
            state: WishState::Asked,
        }
    }

    /// What has to be done next.
    pub fn action(&self) -> (r: WishAction)
        ensures
            r.deep_view() == self.deep_view().action(),
    {
        match &self.state {
            WishState::Asked => WishAction::Admit,
            WishState::Admitted(service) => WishAction::ReadVersions {
                cache_key: registry::cache_key(self.project_id.as_str(), self.service_id.as_str()),
                source: service.version_source.duplicate(),
                pattern: service.tag_pattern.clone(),
                refresh: true,
            },
            WishState::Listed { .. } => WishAction::Record,
            WishState::Refused(error) => WishAction::Refuse(error.duplicate()),
        }
    }

    /// Tells the wish what came of its action.
    pub fn handle(&mut self, event: &WishEvent)
        ensures
            final(self).deep_view() == old(self).deep_view().next(event.deep_view()),
    {
        let next = match (&self.state, event) {
            (WishState::Asked, WishEvent::Admission { updating, project, idle }) => {
                let admission = check_admission(
                    *updating,
                    project,
                    *idle,
                    self.service_id.as_str(),
                );
                let verdict = match &admission {
                    Ok(service) => check_version(service, self.version.as_str()),
                    Err(_) => Ok(()),
                };
                admit_wish(admission, verdict)
            },
            (WishState::Admitted(service), WishEvent::Versions(Ok(versions))) => WishState::Listed {
                service: service.duplicate(),
                versions: versions.duplicate(),
            },
            (WishState::Admitted(_), WishEvent::Versions(Err(error))) => WishState::Refused(
                error.duplicate(),
            ),
            _ => {
                return;
            },
        };
        self.state = next;
    }

    /// The service that is deployed, where the wish has come that far.
    pub fn service(&self) -> (r: Option<ServiceConfig>)
        ensures
            r.deep_view() == (match self.deep_view().state {
                WishStateView::Listed { service, .. } => Some(service),
                _ => None,
            }),
    {
        match &self.state {
            WishState::Listed { service, .. } => Some(service.duplicate()),
            _ => None,
        }
    }

    /// Records the deployment, where the wish has come that far.
    pub fn record(&self, storage: &mut Storage, id: &str, now: &str) -> (r: Option<
        Result<(Deployment, Vec<Change>), AppError>,
    >)
        ensures
            match self.deep_view().state {
                WishStateView::Listed { versions, .. } => r is Some && recorded(
                    old(storage).deep_view(),
                    final(storage).deep_view(),
                    wanted_deployment(
                        old(storage).deep_view(),
                        id@,
                        now@,
                        self.deep_view().project_id,
                        self.deep_view().service_id,
                        self.deep_view().version,
                        registry::version_names(versions),
                    ),
                    duplicate::outcome(r->0),
                ),
                _ => r is None && final(storage).deep_view() == old(storage).deep_view(),
            },
    {
        match &self.state {
            WishState::Listed { versions, .. } => Some(
                enqueue(
                    storage,
                    id,
                    now,
                    self.project_id.as_str(),
                    self.service_id.as_str(),
                    self.version.as_str(),
                    versions,
                ),
            ),
            _ => None,
        }
    }
}

/// The revision that a service can go back to.
pub open spec fn rollback_target(
    s: storage::StorageView,
    project_id: Seq<char>,
    service_id: Seq<char>,
) -> Result<ServiceRevisionView, AppErrorView> {
    match s.state(project_id, service_id) {
        None => Err(AppErrorView::Invalid("当前服务还没有可回滚的部署基线"@)),
        Some(current) => match storage::earlier_revision(
            s.revisions,
            project_id,
            service_id,
            current.last_deployment_id,
        ) {
            None => Err(AppErrorView::Invalid("没有找到上一个成功部署版本"@)),
            Some(revision) => Ok(revision),
        },
    }
}

pub open spec fn wanted_rollback(
    s: storage::StorageView,
    id: Seq<char>,
    now: Seq<char>,
    project_id: Seq<char>,
    service_id: Seq<char>,
) -> Result<DeploymentView, AppErrorView> {
    match rollback_target(s, project_id, service_id) {
        Err(error) => Err(error),
        Ok(revision) => Ok(
            queued(
                id,
                project_id,
                service_id,
                "rollback"@,
                current_version(s.state(project_id, service_id)),
                revision.version,
                now,
            ),
        ),
    }
}

/// Records that a service is to go back to the version before, and says which that is.
pub fn enqueue_rollback(
    storage: &mut Storage,
    id: &str,
    now: &str,
    project_id: &str,
    service_id: &str,
) -> (r: Result<(Deployment, ServiceRevision, Vec<Change>), AppError>)
    ensures
        recorded(
            old(storage).deep_view(),
            final(storage).deep_view(),
            wanted_rollback(old(storage).deep_view(), id@, now@, project_id@, service_id@),
            (match r {
                Ok(done) => Ok((done.0.deep_view(), done.2.deep_view())),
                Err(error) => Err(error.deep_view()),
            }),
        ),
        r is Ok ==> rollback_target(old(storage).deep_view(), project_id@, service_id@) == Ok::<
            _,
            AppErrorView,
        >(r->Ok_0.1.deep_view()),
{
    let current = match storage.state(project_id, service_id) {
        Some(current) => current,
        None => {
            return Err(AppError::Invalid("当前服务还没有可回滚的部署基线".to_owned()));
        },
    };
    let revision = match storage.previous_revision(
        project_id,
        service_id,
        current.last_deployment_id.as_str(),
    ) {
        Some(revision) => revision,
        None => {
            return Err(AppError::Invalid("没有找到上一个成功部署版本".to_owned()));
        },
    };
    let item = queued_item(
        id,
        project_id,
        service_id,
        "rollback",
        Some(current.desired_version),
        revision.version.clone(),
        now,
    );
    match record(storage, item) {
        Ok((item, changes)) => Ok((item, revision, changes)),
        Err(error) => Err(error),
    }
}

pub open spec fn wanted_lifecycle(
    s: storage::StorageView,
    id: Seq<char>,
    now: Seq<char>,
    project_id: Seq<char>,
    service_id: Seq<char>,
    action: LifecycleAction,
) -> DeploymentView {
    let version = current_version(s.state(project_id, service_id));
    queued(
        id,
        project_id,
        service_id,
        action.name(),
        version,
        match version {
            Some(version) => version,
            None => Seq::empty(),
        },
        now,
    )
}

/// Records an operation on the containers of a service. It keeps the service's version.
pub fn enqueue_lifecycle(
    storage: &mut Storage,
    id: &str,
    now: &str,
    project_id: &str,
    service_id: &str,
    action: LifecycleAction,
) -> (r: Result<(Deployment, Vec<Change>), AppError>)
    ensures
        recorded(
            old(storage).deep_view(),
            final(storage).deep_view(),
            Ok(
                wanted_lifecycle(
                    old(storage).deep_view(),
                    id@,
                    now@,
                    project_id@,
                    service_id@,
                    action,
                ),
            ),
            duplicate::outcome(r),
        ),
{
    let version = match storage.state(project_id, service_id) {
        Some(state) => Some(state.desired_version),
        None => None,
    };
    let target = match &version {
        Some(version) => version.clone(),
        None => String::new(),
    };
    let item = queued_item(id, project_id, service_id, action.as_str(), version, target, now);
    record(storage, item)
}

/// What a task's action changes in the tables, where it is one that records something.
pub open spec fn recording(t: TaskView, s: storage::StorageView, now: Seq<char>) -> Option<
    Seq<storage::ChangeView>,
> {
    match t.action() {
        ActionView::MarkRunning => Some(s.running_change(t.id)),
        ActionView::SetPhase(phase) => Some(s.phase_change(t.id, phase)),
        ActionView::SetTarget(artifact) => Some(
            s.target_change(
                t.id,
                artifact.image,
                artifact.pinned_image,
                artifact.digest,
                artifact.image_id,
            ),
        ),
        ActionView::RecordSuccess { revision, log } => Some(
            s.success_change(t.id, t.project_id, t.service_id, revision, log, now),
        ),
        ActionView::RecordOperation { log } => Some(
            s.finish_change(t.id, "succeeded"@, None, "not_needed"@, log, now),
        ),
        ActionView::RecordFailure { error, rollback, log } => Some(
            s.finish_change(t.id, "failed"@, Some(error), rollback, log, now),
        ),
        ActionView::RecordInterrupted { error, rollback, log } => Some(
            s.finish_change(t.id, "interrupted"@, Some(error), rollback, log, now),
        ),
        _ => None,
    }
}

impl Task {
    /// Carries out the task's action on the tables, where it is one that records something.
    pub fn record(&self, storage: &mut Storage, now: &str) -> (r: Option<Vec<Change>>)
        ensures
            r.deep_view() == recording(self.deep_view(), old(storage).deep_view(), now@),
            final(storage).deep_view() == (match r {
                Some(changes) => old(storage).deep_view().apply_all(changes.deep_view()),
                None => old(storage).deep_view(),
            }),
    {
        let id = self.id.as_str();
        match self.action() {
            Action::MarkRunning => Some(storage.mark_running(id)),
            Action::SetPhase(phase) => Some(storage.set_phase(id, phase.as_str())),
            Action::SetTarget(artifact) => Some(
                storage.set_target_artifact(
                    id,
                    artifact.image.as_str(),
                    artifact.pinned_image.as_str(),
                    artifact.digest.as_str(),
                    artifact.image_id.as_str(),
                ),
            ),
            Action::RecordSuccess { revision, log } => Some(
                storage.finish_artifact_success(
                    id,
                    self.project_id.as_str(),
                    self.service_id.as_str(),
                    &revision,
                    log.as_str(),
                    now,
                ),
            ),
            Action::RecordOperation { log } => Some(
                storage.finish_operation_success(id, log.as_str(), now),
            ),
            Action::RecordFailure { error, rollback, log } => Some(
                storage.finish_failure(id, error.as_str(), rollback.as_str(), log.as_str(), now),
            ),
            Action::RecordInterrupted { error, rollback, log } => Some(
                storage.finish_interrupted(
                    id,
                    error.as_str(),
                    rollback.as_str(),
                    log.as_str(),
                    now,
                ),
            ),
            _ => None,
        }
    }
}

} // verus!
