//! What an operation asks for from its beginning to its end, one action after the other, and what
//! its log then says.
use crate::compose::{ImageArtifactView, Operation, RuntimeStateView};
use crate::config::{self, ProjectConfigView, ServiceConfigView};
use crate::deployment::{
    self, ActionView, EventView, Job, LifecycleAction, RecoveryView, Step, TaskView,
    WishActionView, WishEventView, WishStateView, WishView,
};
use crate::deployment_laws;
use crate::error::AppErrorView;
use crate::ordered;
use crate::outside;
use crate::registry::PackageVersionView;
use crate::storage::{
    self, ChangeView, Deployment, DeploymentArtifactView, DeploymentView, ServiceRevisionView,
    ServiceState, ServiceStateView, StorageView, StoredArtifact, StoredArtifactView, StoredRevisionView,
};
use crate::storage_laws;
use crate::table;
use crate::text;
use vstd::prelude::*;

verus! {

/// A log that goes on with a section under a title, an empty line after what was there.
pub open spec fn section(log: Seq<char>, title: Seq<char>) -> Seq<char> {
    let gap = if log.len() == 0 {
        seq![]
    } else if log.last() == '\n' {
        seq!['\n']
    } else {
        seq!['\n', '\n']
    };
    log + gap + "== "@ + title + " ==\n"@
}

/// A log with what the containers logged themselves: that, on a line of its own, or that there is
/// nothing but white space.
pub open spec fn quoted(log: Seq<char>, output: Seq<char>) -> Seq<char> {
    if forall|i: int| 0 <= i < output.len() ==> text::is_space(#[trigger] output[i]) {
        log + "（容器暂无日志）\n"@
    } else if output.last() == '\n' {
        log + output
    } else {
        log + output + seq!['\n']
    }
}

proof fn lemma_section(log: Seq<char>, title: Seq<char>)
    ensures
        deployment::log_step(log, title) == section(log, title),
{
    assert(deployment::log_step(log, title) =~= section(log, title));
}

pub(crate) proof fn lemma_blank(s: Seq<char>)
    ensures
        (text::trim(s).len() == 0) == (forall|i: int|
            0 <= i < s.len() ==> text::is_space(#[trigger] s[i])),
    decreases s.len(),
{
    if s.len() > 0 && text::is_space(s[0]) {
        let rest = s.drop_first();
        lemma_blank(rest);
        if text::trim(s).len() > 0 {
            let i = choose|i: int| 0 <= i < rest.len() && !text::is_space(#[trigger] rest[i]);
            assert(!text::is_space(s[i + 1]));
        } else {
            assert forall|i: int| 0 <= i < s.len() implies text::is_space(#[trigger] s[i]) by {
                if i > 0 {
                    assert(text::is_space(rest[i - 1]));
                }
            }
        }
    } else if s.len() > 0 {
        lemma_trim_end_keeps(s);
    }
}

proof fn lemma_trim_end_keeps(s: Seq<char>)
    requires
        s.len() > 0,
        !text::is_space(s[0]),
    ensures
        text::trim_end(s).len() > 0,
    decreases s.len(),
{
    if text::is_space(s.last()) {
        assert(s.drop_last()[0] == s[0]);
        lemma_trim_end_keeps(s.drop_last());
    }
}

proof fn lemma_quoted(log: Seq<char>, output: Seq<char>)
    ensures
        deployment::with_container_logs(log, EventView::Output(output)) == quoted(log, output),
{
    lemma_blank(output);
    if text::trim(output).len() > 0 {
        assert(output.len() > 0);
        assert((log + output).last() == output.last());
        assert((log + output).push('\n') =~= log + output + seq!['\n']);
    }
}

/// What a step that ends well leads to, without a title in the log.
proof fn lemma_done(t: TaskView, to: Step)
    requires
        t.present,
        deployment::answers(t.step, EventView::Done),
        deployment::following(t.job, t.step) == to,
        deployment::title(t.job, to) is None,
    ensures
        t.next(EventView::Done) == (TaskView { step: to, ..t }),
{
    reveal(TaskView::after_success);
}

/// What a step that ends well leads to, with a title in the log.
proof fn lemma_done_titled(t: TaskView, to: Step, title: Seq<char>)
    requires
        t.present,
        deployment::answers(t.step, EventView::Done),
        deployment::following(t.job, t.step) == to,
        deployment::title(t.job, to) == Some(title),
    ensures
        t.next(EventView::Done) == (TaskView { step: to, log: section(t.log, title), ..t }),
{
    reveal(TaskView::after_success);
    lemma_section(t.log, title);
}

/// What a command that ends well leads to, without a title in the log.
proof fn lemma_output(t: TaskView, output: Seq<char>, to: Step)
    requires
        deployment::answers(t.step, EventView::Output(output)),
        t.step != Step::Logs,
        t.step != Step::RestoreVerify,
        deployment::following(t.job, t.step) == to,
        deployment::title(t.job, to) is None,
    ensures
        t.next(EventView::Output(output)) == (TaskView { step: to, log: t.log + output, ..t }),
{
    reveal(TaskView::after_success);
}

/// What a command that ends well leads to, with a title in the log.
proof fn lemma_output_titled(t: TaskView, output: Seq<char>, to: Step, title: Seq<char>)
    requires
        deployment::answers(t.step, EventView::Output(output)),
        t.step != Step::Logs,
        t.step != Step::RestoreVerify,
        deployment::following(t.job, t.step) == to,
        deployment::title(t.job, to) == Some(title),
    ensures
        t.next(EventView::Output(output)) == (TaskView {
            step: to,
            log: section(t.log + output, title),
            ..t
        }),
{
    reveal(TaskView::after_success);
    lemma_section(t.log + output, title);
}

proof fn lemma_inspected(t: TaskView, artifact: ImageArtifactView)
    requires
        t.step == Step::Inspect,
    ensures
        t.next(EventView::Artifact(artifact)) == (TaskView { step: Step::Target, artifact, ..t }),
{
    reveal(TaskView::after_success);
}

/// An outcome that cannot be recorded, or a file that cannot be written after it was.
proof fn lemma_not_recorded(t: TaskView, error: Seq<char>)
    requires
        t.present,
        t.job == Job::Deploy || t.job == Job::Rollback,
    ensures
        t.step == Step::Commit ==> t.next(EventView::Failed(error)) == (TaskView {
            step: Step::Restore,
            error: (if t.job == Job::Deploy {
                "容器已启动但无法提交部署状态: "@
            } else {
                "容器已回滚但无法提交部署状态: "@
            }) + error,
            ..t
        }),
        t.step == Step::Publish ==> t.next(EventView::Failed(error)) == (TaskView {
            step: Step::Done,
            ..t
        }),
        t.step == Step::Committing && t.job == Job::Rollback ==> t.next(EventView::Failed(error))
            == (TaskView { step: Step::Commit, ..t }),
{
    reveal(TaskView::after_failure);
    reveal(TaskView::commit_failed);
    reveal(TaskView::restoring);
}

/// A deployment marks itself as running, pins the image with the version's tag, pulls it, pins what
/// was pulled, starts it with `up`, waits until what runs is that very image, and then records it.
/// Each of these comes once, in this order, whatever the commands print; and what they print is
/// what the log says.
pub proof fn law_deployment_proceeds_in_order(
    item: DeploymentView,
    project_id: Seq<char>,
    service: ServiceConfigView,
    artifact: ImageArtifactView,
    pulled: Seq<char>,
    started: Seq<char>,
    checked: Seq<char>,
)
    ensures
        ({
            let tagged = service.image + ":"@ + item.target_version;
            let t0 = deployment::new_task(Job::Deploy, item, project_id, service, true);
            let t1 = t0.next(EventView::Done);
            let t2 = t1.next(EventView::Done);
            let t3 = t2.next(EventView::Done);
            let t4 = t3.next(EventView::Output(pulled));
            let t5 = t4.next(EventView::Artifact(artifact));
            let t6 = t5.next(EventView::Done);
            let t7 = t6.next(EventView::Done);
            let t8 = t7.next(EventView::Done);
            let t9 = t8.next(EventView::Output(started));
            let t10 = t9.next(EventView::Done);
            let t11 = t10.next(EventView::Output(checked));
            let t12 = t11.next(EventView::Done);
            let t13 = t12.next(EventView::Done);
            let t14 = t13.next(EventView::Done);
            let pull = section(seq![], "拉取镜像"@) + pulled;
            let start = section(pull, "启动容器"@) + started;
            let log = section(start, "检查容器状态"@) + checked;
            &&& t0.action() == ActionView::MarkRunning
            &&& t1.action() == ActionView::WriteOverride(Some(tagged))
            &&& t2.action() == ActionView::SetPhase("pulling"@)
            &&& t3.action() == ActionView::Run(Operation::Pull)
            &&& t4.action() == (ActionView::InspectImage {
                image: tagged,
                repository: service.image,
            })
            &&& t5.action() == ActionView::SetTarget(artifact)
            &&& t6.action() == ActionView::WriteOverride(Some(artifact.pinned_image))
            &&& t7.action() == ActionView::SetPhase("starting"@)
            &&& t8.action() == ActionView::Run(Operation::Up)
            &&& t9.action() == ActionView::SetPhase("checking"@)
            &&& t10.action() == ActionView::Wait(Some(artifact.image_id))
            &&& t11.action() == ActionView::SetPhase("committing"@)
            &&& t12.action() == (ActionView::RecordSuccess {
                revision: ServiceRevisionView {
                    version: item.target_version,
                    image: artifact.image,
                    pinned_image: artifact.pinned_image,
                    image_digest: artifact.digest,
                    image_id: artifact.image_id,
                },
                log,
            })
            &&& t13.action() == ActionView::WriteOverride(None)
            &&& t14.action() == ActionView::Finished
            &&& t12.next(EventView::Failed(checked)).action() == ActionView::WriteOverride(None)
            &&& t13.next(EventView::Failed(checked)).action() == ActionView::Finished
        }),
{
    let t0 = deployment::new_task(Job::Deploy, item, project_id, service, true);
    lemma_done(t0, Step::Candidate);
    let t1 = t0.next(EventView::Done);
    lemma_done(t1, Step::Pulling);
    let t2 = t1.next(EventView::Done);
    lemma_done_titled(t2, Step::Pull, "拉取镜像"@);
    let t3 = t2.next(EventView::Done);
    lemma_output(t3, pulled, Step::Inspect);
    let t4 = t3.next(EventView::Output(pulled));
    lemma_inspected(t4, artifact);
    let t5 = t4.next(EventView::Artifact(artifact));
    lemma_done(t5, Step::Pin);
    let t6 = t5.next(EventView::Done);
    lemma_done(t6, Step::Starting);
    let t7 = t6.next(EventView::Done);
    lemma_done_titled(t7, Step::Start, "启动容器"@);
    let t8 = t7.next(EventView::Done);
    lemma_output(t8, started, Step::Checking);
    let t9 = t8.next(EventView::Output(started));
    lemma_done_titled(t9, Step::Verify, "检查容器状态"@);
    let t10 = t9.next(EventView::Done);
    lemma_output(t10, checked, Step::Committing);
    let t11 = t10.next(EventView::Output(checked));
    lemma_done(t11, Step::Commit);
    let t12 = t11.next(EventView::Done);
    lemma_done(t12, Step::Publish);
    lemma_not_recorded(t12, checked);
    let t13 = t12.next(EventView::Done);
    lemma_done(t13, Step::Done);
    lemma_not_recorded(t13, checked);
}

/// Going back to a recorded version marks the operation as running, pins the recorded image, starts
/// it with `up`, waits until what runs is that very image, and records the version again. Nothing
/// is pulled. Where the phase of recording cannot be noted, the version is recorded all the same.
pub proof fn law_rollback_proceeds_in_order(
    item: DeploymentView,
    project_id: Seq<char>,
    service: ServiceConfigView,
    revision: ServiceRevisionView,
    started: Seq<char>,
    checked: Seq<char>,
    error: Seq<char>,
)
    ensures
        ({
            let t0 = TaskView {
                version: revision.version,
                artifact: deployment::revision_artifact(revision),
                ..deployment::new_task(Job::Rollback, item, project_id, service, true)
            };
            let t1 = t0.next(EventView::Done);
            let t2 = t1.next(EventView::Done);
            let t3 = t2.next(EventView::Done);
            let t4 = t3.next(EventView::Done);
            let t5 = t4.next(EventView::Output(started));
            let t6 = t5.next(EventView::Done);
            let t7 = t6.next(EventView::Output(checked));
            let t8 = t7.next(EventView::Done);
            let t9 = t8.next(EventView::Done);
            let start = section(seq![], "恢复上一个成功版本"@) + started;
            let log = section(start, "检查回滚后的容器状态"@) + checked;
            let recorded = ActionView::RecordSuccess { revision, log };
            &&& t0.action() == ActionView::MarkRunning
            &&& t1.action() == ActionView::SetPhase("starting"@)
            &&& t2.action() == ActionView::SetTarget(
                ImageArtifactView {
                    image: revision.image,
                    pinned_image: revision.pinned_image,
                    digest: revision.image_digest,
                    image_id: revision.image_id,
                },
            )
            &&& t3.action() == ActionView::WriteOverride(Some(revision.pinned_image))
            &&& t4.action() == ActionView::Run(Operation::Up)
            &&& t5.action() == ActionView::SetPhase("checking"@)
            &&& t6.action() == ActionView::Wait(Some(revision.image_id))
            &&& t7.action() == ActionView::SetPhase("committing"@)
            &&& t7.next(EventView::Failed(error)).action() == recorded
            &&& t8.action() == recorded
            &&& t9.action() == ActionView::Finished
        }),
{
    let t0 = TaskView {
        version: revision.version,
        artifact: deployment::revision_artifact(revision),
        ..deployment::new_task(Job::Rollback, item, project_id, service, true)
    };
    lemma_done(t0, Step::Starting);
    let t1 = t0.next(EventView::Done);
    lemma_done(t1, Step::Target);
    let t2 = t1.next(EventView::Done);
    lemma_done(t2, Step::Pin);
    let t3 = t2.next(EventView::Done);
    lemma_done_titled(t3, Step::Start, "恢复上一个成功版本"@);
    let t4 = t3.next(EventView::Done);
    lemma_output(t4, started, Step::Checking);
    let t5 = t4.next(EventView::Output(started));
    lemma_done_titled(t5, Step::Verify, "检查回滚后的容器状态"@);
    let t6 = t5.next(EventView::Done);
    lemma_output(t6, checked, Step::Committing);
    let t7 = t6.next(EventView::Output(checked));
    lemma_done(t7, Step::Commit);
    lemma_not_recorded(t7, error);
    let t8 = t7.next(EventView::Done);
    lemma_done(t8, Step::Done);
}

/// Recreating containers pins what should run, recreates them and waits until they are up, whatever
/// image they run.
pub proof fn law_recreation_proceeds_in_order(
    item: DeploymentView,
    project_id: Seq<char>,
    service: ServiceConfigView,
    started: Seq<char>,
    checked: Seq<char>,
)
    ensures
        ({
            let t0 = deployment::new_task(
                Job::Lifecycle(LifecycleAction::Recreate),
                item,
                project_id,
                service,
                true,
            );
            let t1 = t0.next(EventView::Done);
            let t2 = t1.next(EventView::Done);
            let t3 = t2.next(EventView::Output(started));
            let t4 = t3.next(EventView::Output(checked));
            let t5 = t4.next(EventView::Done);
            let start = section(seq![], "重建容器"@) + started;
            &&& t0.action() == ActionView::MarkRunning
            &&& t1.action() == ActionView::WriteOverride(None)
            &&& t2.action() == ActionView::Run(Operation::Recreate)
            &&& t3.action() == ActionView::Wait(None)
            &&& t4.action() == (ActionView::RecordOperation {
                log: section(start, "检查容器状态"@) + checked,
            })
            &&& t5.action() == ActionView::Finished
        }),
{
    reveal(TaskView::after_success);
    let start = section(seq![], "重建容器"@);
    lemma_section(seq![], "重建容器"@);
    lemma_section(start + started, "检查容器状态"@);
}

/// Stopping a service is the command `stop` and nothing else, and taking it down is the removal of
/// its containers and nothing else. Neither writes a file or waits.
pub proof fn law_stopping_and_removing_proceed_in_order(
    item: DeploymentView,
    project_id: Seq<char>,
    service: ServiceConfigView,
    removes: bool,
    output: Seq<char>,
)
    ensures
        ({
            let action = if removes {
                LifecycleAction::Down
            } else {
                LifecycleAction::Stop
            };
            let t0 = deployment::new_task(
                Job::Lifecycle(action),
                item,
                project_id,
                service,
                true,
            );
            let t1 = t0.next(EventView::Done);
            let t2 = t1.next(EventView::Output(output));
            let t3 = t2.next(EventView::Done);
            let title = if removes {
                "下线容器"@
            } else {
                "停止容器"@
            };
            &&& t0.action() == ActionView::MarkRunning
            &&& t1.action() == ActionView::Run(
                if removes {
                    Operation::Remove
                } else {
                    Operation::Stop
                },
            )
            &&& t2.action() == (ActionView::RecordOperation {
                log: section(seq![], title) + output,
            })
            &&& t3.action() == ActionView::Finished
        }),
{
    reveal(TaskView::after_success);
    lemma_section(seq![], "下线容器"@);
    lemma_section(seq![], "停止容器"@);
}

/// Only the operations that stop, take down or recreate containers ask for that. Everything else
/// starts containers with `up`, pulls an image or reads logs.
pub proof fn law_each_command_has_its_operation(t: TaskView)
    ensures
        t.action() == ActionView::Run(Operation::Stop) <==> t.job == Job::Lifecycle(
            LifecycleAction::Stop,
        ) && t.step == Step::Start,
        t.action() == ActionView::Run(Operation::Remove) <==> t.job == Job::Lifecycle(
            LifecycleAction::Down,
        ) && t.step == Step::Start,
        t.action() == ActionView::Run(Operation::Recreate) <==> t.job == Job::Lifecycle(
            LifecycleAction::Recreate,
        ) && t.step == Step::Start,
        !(t.job is Lifecycle) && t.step == Step::Start ==> t.action() == ActionView::Run(
            Operation::Up,
        ),
        !(t.job is Lifecycle) ==> match t.action() {
            ActionView::Run(operation) => operation == Operation::Up || operation
                == Operation::Pull || operation == (Operation::Logs { tail: 50 }),
            _ => true,
        },
{
}

/// Whatever else happens, an operation stays the one that it is: of the same service, to the same
/// version, under the same record.
pub proof fn law_task_stays_the_same_operation(t: TaskView, e: EventView)
    ensures
        t.next(e).job == t.job,
        t.next(e).id == t.id,
        t.next(e).project_id == t.project_id,
        t.next(e).service_id == t.service_id,
        t.next(e).repository == t.repository,
        t.next(e).version == t.version,
        !(t.action() is InspectImage) ==> t.next(e).artifact == t.artifact,
        t.action() is InspectImage && e is Artifact ==> t.next(e).artifact == e->Artifact_0,
{
    if deployment::answers(t.step, e) {
        match e {
            EventView::Failed(error) => deployment_laws::lemma_after_failure(t, error),
            EventView::Artifact(artifact) => lemma_inspected(t, artifact),
            _ => deployment_laws::lemma_after_success(t, e),
        }
    }
}

/// A task goes on only when it is told what came of the action it asked for: what a command or a
/// wait printed, what an image turned out to be, that something was done, or that it failed.
pub proof fn law_task_waits_for_its_answer(t: TaskView, e: EventView)
    requires
        match t.action() {
            ActionView::Finished => true,
            ActionView::Run(_) | ActionView::Wait(_) => e is Done || e is Artifact,
            ActionView::InspectImage { .. } => e is Done || e is Output,
            _ => e is Output || e is Artifact,
        },
    ensures
        t.next(e) == t,
{
}

/// Whether the `i`th answer said that this image was pinned, and nothing was pinned since.
pub open spec fn pinned_at(t: TaskView, events: Seq<EventView>, i: int, image: Seq<char>) -> bool {
    &&& 0 <= i < events.len()
    &&& deployment_laws::run(t, events.take(i)).action() == ActionView::WriteOverride(Some(image))
    &&& events[i] is Done
    &&& forall|j: int|
        i < j <= events.len() ==> !(#[trigger] deployment_laws::run(t, events.take(j)).action() is WriteOverride)
}

spec fn comes_after_pinning(t: TaskView) -> bool {
    t.step == Step::Start || t.step == Step::Starting && t.job == Job::Deploy
}

proof fn lemma_before_start(t: TaskView, e: EventView)
    requires
        t.job == Job::Deploy || t.job == Job::Rollback,
        comes_after_pinning(t.next(e)),
    ensures
        comes_after_pinning(t) || t.step == Step::Pin && e is Done,
        t.next(e).artifact == t.artifact,
{
    if deployment::answers(t.step, e) {
        match e {
            EventView::Failed(error) => deployment_laws::lemma_after_failure(t, error),
            EventView::Artifact(artifact) => lemma_inspected(t, artifact),
            _ => deployment_laws::lemma_after_success(t, e),
        }
    }
}

proof fn lemma_pinned(t: TaskView, events: Seq<EventView>)
    requires
        deployment_laws::is_new(t),
        t.job == Job::Deploy || t.job == Job::Rollback,
        comes_after_pinning(deployment_laws::run(t, events)),
    ensures
        exists|i: int|
            #[trigger] pinned_at(t, events, i, deployment_laws::run(t, events).artifact.pinned_image),
    decreases events.len(),
{
    let image = deployment_laws::run(t, events).artifact.pinned_image;
    if events.len() > 0 {
        let before = events.drop_last();
        let n = events.len() as int;
        assert(events.take(n) =~= events);
        assert(events.take(n - 1) =~= before);
        deployment_laws::lemma_run_keeps(t, before);
        lemma_before_start(deployment_laws::run(t, before), events.last());
        if comes_after_pinning(deployment_laws::run(t, before)) {
            lemma_pinned(t, before);
            let i = choose|i: int| #[trigger] pinned_at(t, before, i, image);
            assert(before.take(i) =~= events.take(i));
            assert forall|j: int| i < j <= n implies !(#[trigger] deployment_laws::run(
                t,
                events.take(j),
            ).action() is WriteOverride) by {
                if j < n {
                    assert(events.take(j) =~= before.take(j));
                    assert(!(deployment_laws::run(t, before.take(j)).action() is WriteOverride));
                }
            }
            assert(events[i] == before[i]);
            assert(pinned_at(t, events, i, image));
        } else {
            assert(pinned_at(t, events, n - 1, image));
        }
    }
}

/// Whatever a deployment or a rollback was told, when it starts its containers the last thing that
/// it pinned is the image that it is to run. For a rollback that is the recorded one.
pub proof fn law_containers_start_on_the_pinned_image(t: TaskView, events: Seq<EventView>)
    requires
        deployment_laws::is_new(t),
        t.job == Job::Deploy || t.job == Job::Rollback,
        deployment_laws::run(t, events).step == Step::Start,
    ensures
        deployment_laws::run(t, events).action() == ActionView::Run(Operation::Up),
        exists|i: int|
            #[trigger] pinned_at(t, events, i, deployment_laws::run(t, events).artifact.pinned_image),
        t.job == Job::Rollback ==> deployment_laws::run(t, events).artifact == t.artifact,
{
    lemma_pinned(t, events);
    deployment_laws::lemma_run_keeps(t, events);
    if t.job == Job::Rollback {
        deployment_laws::lemma_rollback_fetches_nothing(t, events);
    }
}

/// Whether an operation is between marking itself as running and recording its outcome.
pub open spec fn is_working(step: Step) -> bool {
    match step {
        Step::Candidate | Step::Pulling | Step::Pull | Step::Inspect | Step::Target | Step::Pin
        | Step::Starting | Step::Start | Step::Checking | Step::Verify => true,
        _ => false,
    }
}

/// When anything that a deployment asked for fails, it reads the last fifty lines of the
/// containers' logs, and then goes back, whether they could be read or not.
pub proof fn law_failed_deployment_goes_back(
    t: TaskView,
    error: Seq<char>,
    logs: Seq<char>,
)
    requires
        t.job == Job::Deploy,
        t.present,
        is_working(t.step),
    ensures
        ({
            let t1 = t.next(EventView::Failed(error));
            let t2 = t1.next(EventView::Output(logs));
            let t3 = t1.next(EventView::Failed(logs));
            let heading = section(
                t.log + "\n部署失败: "@ + error + "\n"@,
                "容器最近 50 行日志"@,
            );
            &&& t1.action() == ActionView::Run(Operation::Logs { tail: 50 })
            &&& t2 == (TaskView {
                step: Step::Restore,
                error,
                log: section(quoted(heading, logs), "开始回退"@),
                ..t
            })
            &&& t3 == (TaskView {
                step: Step::Restore,
                error,
                log: section(heading + "无法读取容器日志："@ + logs + "\n"@, "开始回退"@),
                ..t
            })
        }),
{
    let heading = section(t.log + "\n部署失败: "@ + error + "\n"@, "容器最近 50 行日志"@);
    lemma_reads_logs(t, error);
    let t1 = t.next(EventView::Failed(error));
    lemma_logs_were_read(t1, EventView::Output(logs));
    lemma_logs_were_read(t1, EventView::Failed(logs));
    lemma_quoted(heading, logs);
}

proof fn lemma_reads_logs(t: TaskView, error: Seq<char>)
    requires
        t.job == Job::Deploy || t.job is Lifecycle,
        t.present,
        is_working(t.step),
    ensures
        t.next(EventView::Failed(error)) == (TaskView {
            step: Step::Logs,
            error,
            log: section(
                t.log + (if t.job == Job::Deploy {
                    "\n部署失败: "@
                } else {
                    "\n操作失败: "@
                }) + error + "\n"@,
                "容器最近 50 行日志"@,
            ),
            ..t
        }),
{
    let title = "容器最近 50 行日志"@;
    let head = if t.job == Job::Deploy {
        "\n部署失败: "@
    } else {
        "\n操作失败: "@
    };
    assert(t.next(EventView::Failed(error)) == t.failing(error)) by {
        reveal(TaskView::after_failure);
    }
    let told = t.failed_with(error).logged(head + error + "\n"@);
    assert(t.failing(error) == told.reading_logs()) by {
        reveal(TaskView::failing);
    }
    assert(told.reading_logs() == told.enter(Step::Logs)) by {
        reveal(TaskView::reading_logs);
    }
    assert(told.log =~= t.log + head + error + "\n"@);
    lemma_section(told.log, title);
}

proof fn lemma_logs_were_read(t: TaskView, e: EventView)
    requires
        t.step == Step::Logs,
        t.present,
        t.job == Job::Deploy || t.job is Lifecycle,
        e is Output || e is Failed,
    ensures
        ({
            let log = deployment::with_container_logs(t.log, e);
            t.next(e) == if t.job is Lifecycle {
                TaskView { step: Step::Report, rollback: "unavailable"@, log, ..t }
            } else {
                TaskView { step: Step::Restore, log: section(log, "开始回退"@), ..t }
            }
        }),
{
    let read = TaskView { log: deployment::with_container_logs(t.log, e), ..t };
    assert(t.next(e) == read.logs_read()) by {
        reveal(TaskView::after_failure);
        reveal(TaskView::after_success);
    }
    reveal(TaskView::logs_read);
    reveal(TaskView::restoring);
    lemma_section(read.log, "开始回退"@);
}

/// When anything that a rollback asked for fails, what should run is restored at once.
pub proof fn law_failed_rollback_goes_back(t: TaskView, error: Seq<char>)
    requires
        t.job == Job::Rollback,
        t.present,
        is_working(t.step),
    ensures
        t.next(EventView::Failed(error)) == (TaskView { step: Step::Restore, error, ..t }),
{
    reveal(TaskView::after_failure);
    reveal(TaskView::failing);
    reveal(TaskView::restoring);
}

/// A deployment or a rollback whose outcome cannot be recorded is undone, and says so. A deployment
/// is undone already where the phase of recording cannot be noted.
pub proof fn law_unrecorded_success_is_undone(t: TaskView, error: Seq<char>)
    requires
        t.present,
    ensures
        t.job == Job::Deploy && t.step == Step::Committing ==> t.next(EventView::Failed(error))
            == (TaskView {
            step: Step::Restore,
            error,
            log: t.log + "\n无法记录提交阶段: "@ + error + "\n"@,
            ..t
        }),
        t.job == Job::Deploy && t.step == Step::Commit ==> t.next(EventView::Failed(error)) == (
        TaskView {
            step: Step::Restore,
            error: "容器已启动但无法提交部署状态: "@ + error,
            ..t
        }),
        t.job == Job::Rollback && t.step == Step::Commit ==> t.next(EventView::Failed(error)) == (
        TaskView {
            step: Step::Restore,
            error: "容器已回滚但无法提交部署状态: "@ + error,
            ..t
        }),
{
    reveal(TaskView::after_failure);
    reveal(TaskView::commit_failed);
    reveal(TaskView::restoring);
    assert(t.log + ("\n无法记录提交阶段: "@ + error + "\n"@) =~= t.log
        + "\n无法记录提交阶段: "@ + error + "\n"@);
}

/// An operation on containers whose outcome cannot be recorded is over all the same.
pub proof fn law_unrecorded_lifecycle_operation_is_over(t: TaskView, error: Seq<char>)
    requires
        t.job is Lifecycle,
        t.step == Step::Commit,
    ensures
        t.next(EventView::Failed(error)) == (TaskView { step: Step::Done, ..t }),
{
    reveal(TaskView::after_failure);
    reveal(TaskView::commit_failed);
}

/// What is recorded of an operation that was undone.
pub open spec fn outcome_of_undoing(
    t: TaskView,
    restored: bool,
    log: Seq<char>,
) -> ActionView {
    let rollback = if restored {
        "succeeded"@
    } else {
        "failed"@
    };
    if t.job == Job::Recover {
        ActionView::RecordInterrupted {
            error: if restored {
                "中断部署已恢复到上一个已提交版本"@
            } else {
                "中断部署恢复失败，需要人工检查"@
            },
            rollback,
            log,
        }
    } else {
        ActionView::RecordFailure { error: t.error, rollback, log }
    }
}

/// Undoing pins what should run, starts it with `up` and waits until it is up, whatever image that
/// is. Where all of it went well, the operation is recorded as failed and restored; where any of it
/// failed, as failed and not restored. Nothing follows the record, also where it cannot be written.
pub proof fn law_undoing_proceeds_in_order(
    t: TaskView,
    started: Seq<char>,
    checked: Seq<char>,
    error: Seq<char>,
    last: EventView,
)
    requires
        t.step == Step::Restore,
        t.present,
        t.job == Job::Deploy || t.job == Job::Rollback || t.job == Job::Recover,
        last is Done || last is Failed,
    ensures
        ({
            let t1 = t.next(EventView::Done);
            let t2 = t1.next(EventView::Output(started));
            let t3 = t2.next(EventView::Output(checked));
            let why = (if t.job == Job::Recover {
                "启动恢复失败: "@
            } else {
                "回退失败: "@
            }) + error + "\n"@;
            let start = section(t.log, "恢复上一版本容器"@);
            let check = section(start + started, "检查回退后的容器状态"@);
            &&& t.action() == ActionView::WriteOverride(None)
            &&& t1.action() == ActionView::Run(Operation::Up)
            &&& t2.action() == ActionView::Wait(None)
            &&& t3.action() == outcome_of_undoing(t, true, check + checked)
            &&& t.next(EventView::Failed(error)).action() == outcome_of_undoing(
                t,
                false,
                t.log + why,
            )
            &&& t1.next(EventView::Failed(error)).action() == outcome_of_undoing(
                t,
                false,
                start + why,
            )
            &&& t2.next(EventView::Failed(error)).action() == outcome_of_undoing(
                t,
                false,
                check + why,
            )
            &&& t3.next(last).action() == ActionView::Finished
            &&& t.next(EventView::Failed(error)).next(last).action() == ActionView::Finished
            &&& t1.next(EventView::Failed(error)).next(last).action() == ActionView::Finished
            &&& t2.next(EventView::Failed(error)).next(last).action() == ActionView::Finished
        }),
{
    lemma_done_titled(t, Step::RestoreUp, "恢复上一版本容器"@);
    let t1 = t.next(EventView::Done);
    lemma_output_titled(t1, started, Step::RestoreVerify, "检查回退后的容器状态"@);
    let t2 = t1.next(EventView::Output(started));
    lemma_restored(t2, checked);
    lemma_not_restored(t, error);
    lemma_not_restored(t1, error);
    lemma_not_restored(t2, error);
    lemma_reported(t2.next(EventView::Output(checked)), last);
    lemma_reported(t.next(EventView::Failed(error)), last);
    lemma_reported(t1.next(EventView::Failed(error)), last);
    lemma_reported(t2.next(EventView::Failed(error)), last);
}

proof fn lemma_restored(t: TaskView, checked: Seq<char>)
    requires
        t.step == Step::RestoreVerify,
    ensures
        t.next(EventView::Output(checked)).action() == outcome_of_undoing(
            t,
            true,
            t.log + checked,
        ),
        t.next(EventView::Output(checked)).step == Step::Report,
{
    reveal(TaskView::after_success);
    reveal(TaskView::restored);
}

proof fn lemma_not_restored(t: TaskView, error: Seq<char>)
    requires
        t.step == Step::Restore || t.step == Step::RestoreUp || t.step == Step::RestoreVerify,
    ensures
        t.next(EventView::Failed(error)).action() == outcome_of_undoing(
            t,
            false,
            t.log + ((if t.job == Job::Recover {
                "启动恢复失败: "@
            } else {
                "回退失败: "@
            }) + error + "\n"@),
        ),
        t.next(EventView::Failed(error)).step == Step::Report,
{
    reveal(TaskView::after_failure);
    reveal(TaskView::restore_failed);
}

proof fn lemma_reported(t: TaskView, last: EventView)
    requires
        t.step == Step::Report,
        last is Done || last is Failed,
    ensures
        t.next(last).action() == ActionView::Finished,
{
    reveal(TaskView::after_success);
    reveal(TaskView::after_failure);
}

/// When anything that an operation on containers asked for fails, it reads the last fifty lines of
/// their logs and is recorded as failed. Nothing is undone.
pub proof fn law_failed_lifecycle_operation_is_recorded(
    t: TaskView,
    error: Seq<char>,
    logs: Seq<char>,
    last: EventView,
)
    requires
        t.job is Lifecycle,
        t.present,
        is_working(t.step),
        last is Done || last is Failed,
    ensures
        ({
            let t1 = t.next(EventView::Failed(error));
            let heading = section(
                t.log + "\n操作失败: "@ + error + "\n"@,
                "容器最近 50 行日志"@,
            );
            &&& t1.action() == ActionView::Run(Operation::Logs { tail: 50 })
            &&& t1.next(EventView::Output(logs)).action() == (ActionView::RecordFailure {
                error,
                rollback: "unavailable"@,
                log: quoted(heading, logs),
            })
            &&& t1.next(EventView::Failed(logs)).action() == (ActionView::RecordFailure {
                error,
                rollback: "unavailable"@,
                log: heading + "无法读取容器日志："@ + logs + "\n"@,
            })
            &&& t1.next(EventView::Output(logs)).next(last).action() == ActionView::Finished
            &&& t1.next(EventView::Failed(logs)).next(last).action() == ActionView::Finished
        }),
{
    let heading = section(t.log + "\n操作失败: "@ + error + "\n"@, "容器最近 50 行日志"@);
    lemma_reads_logs(t, error);
    let t1 = t.next(EventView::Failed(error));
    lemma_logs_were_read(t1, EventView::Output(logs));
    lemma_logs_were_read(t1, EventView::Failed(logs));
    lemma_quoted(heading, logs);
    lemma_reported(t1.next(EventView::Output(logs)), last);
    lemma_reported(t1.next(EventView::Failed(logs)), last);
}

/// An operation that cannot even be marked as running ends there. One whose project is gone by then
/// fails at once, with nothing done to any container.
pub proof fn law_operations_need_their_project(
    job: Job,
    item: DeploymentView,
    project_id: Seq<char>,
    service: ServiceConfigView,
    present: bool,
    error: Seq<char>,
)
    requires
        job == Job::Deploy || job == Job::Rollback || job is Lifecycle,
    ensures
        ({
            let t = deployment::new_task(job, item, project_id, service, present);
            let gone = "Compose 项目运行时不存在"@;
            &&& t.next(EventView::Failed(error)).action() == ActionView::Finished
            &&& !present ==> match t.next(EventView::Done).action() {
                ActionView::RecordFailure { error, rollback, log } => {
                    let head = if job == Job::Deploy {
                        "\n部署失败: "@
                    } else {
                        "\n操作失败: "@
                    };
                    let read = section(head + gone + "\n"@, "容器最近 50 行日志"@)
                        + "无法读取容器日志："@ + gone + "\n"@;
                    let undone = "回退失败: "@ + gone + "\n"@;
                    &&& error == gone
                    &&& rollback == (if job is Lifecycle {
                        "unavailable"@
                    } else {
                        "failed"@
                    })
                    &&& job == Job::Deploy ==> log == section(read, "开始回退"@) + undone
                    &&& job is Lifecycle ==> log == read
                    &&& job == Job::Rollback ==> log == undone
                },
                _ => false,
            }
        }),
{
    let t = deployment::new_task(job, item, project_id, service, present);
    let gone = deployment::missing_project();
    assert(t.next(EventView::Failed(error)).action() == ActionView::Finished) by {
        reveal(TaskView::after_failure);
    }
    if !present {
        assert(t.next(EventView::Done) == t.failing(gone)) by {
            reveal(TaskView::after_success);
        }
        lemma_without_project(t);
        let head = if job == Job::Deploy {
            "\n部署失败: "@
        } else {
            "\n操作失败: "@
        };
        let told = head + gone + "\n"@;
        assert(t.log + told =~= told);
        let undone = "回退失败: "@ + gone + "\n"@;
        assert(t.log + undone =~= undone);
        let heading = section(told, "容器最近 50 行日志"@);
        assert(heading + ("无法读取容器日志："@ + gone + "\n"@) =~= heading
            + "无法读取容器日志："@ + gone + "\n"@);
    }
}

/// The log of an operation whose project is gone.
spec fn log_without_project(t: TaskView) -> Seq<char> {
    let gone = deployment::missing_project();
    let head = if t.job == Job::Deploy {
        "\n部署失败: "@
    } else {
        "\n操作失败: "@
    };
    let read = section(t.log + (head + gone + "\n"@), "容器最近 50 行日志"@) + (
    "无法读取容器日志："@ + gone + "\n"@);
    let undone = "回退失败: "@ + gone + "\n"@;
    match t.job {
        Job::Deploy => section(read, "开始回退"@) + undone,
        Job::Rollback => t.log + undone,
        _ => read,
    }
}

proof fn lemma_without_project(t: TaskView)
    requires
        !t.present,
        t.job == Job::Deploy || t.job == Job::Rollback || t.job is Lifecycle,
    ensures
        ({
            let end = t.failing(deployment::missing_project());
            &&& end.step == Step::Report
            &&& end.error == deployment::missing_project()
            &&& end.job == t.job
            &&& end.rollback == (if t.job is Lifecycle {
                "unavailable"@
            } else {
                "failed"@
            })
            &&& end.log == log_without_project(t)
        }),
{
    let gone = deployment::missing_project();
    let failed = t.failed_with(gone);
    reveal(TaskView::failing);
    match t.job {
        Job::Rollback => {
            reveal(TaskView::restoring);
            reveal(TaskView::restore_failed);
        },
        _ => {
            let head = if t.job == Job::Deploy {
                "\n部署失败: "@
            } else {
                "\n操作失败: "@
            };
            let told = failed.logged(head + gone + "\n"@);
            let read = told.enter(Step::Logs).logged(
                "无法读取容器日志："@ + gone + "\n"@,
            );
            assert(told.reading_logs() == read.logs_read()) by {
                reveal(TaskView::reading_logs);
            }
            assert(t.failing(gone) == read.logs_read());
            lemma_section(told.log, "容器最近 50 行日志"@);
            lemma_section(read.log, "开始回退"@);
            reveal(TaskView::logs_read);
            reveal(TaskView::restoring);
            reveal(TaskView::restore_failed);
        },
    }
}

/// After a restart, a deployment whose target is fully recorded, had been started, and is what runs
/// now, alone and up, is recorded as done with exactly what was recorded of it. Nothing is started
/// anew: the file is written once more, and that is all.
pub proof fn law_restart_confirms_what_runs(
    item: DeploymentView,
    project_id: Seq<char>,
    service: ServiceConfigView,
    artifact: DeploymentArtifactView,
    actual: RuntimeStateView,
    target: ImageArtifactView,
    error: Seq<char>,
)
    requires
        artifact.target_image == Some(target.image),
        artifact.target_pinned_image == Some(target.pinned_image),
        artifact.target_digest == Some(target.digest),
        artifact.target_image_id == Some(target.image_id),
        target.image_id.len() > 0,
        actual.actual_image_id == Some(target.image_id),
        !actual.mixed_images,
        actual.container_status == "healthy"@ || actual.container_status == "running"@,
        artifact.phase == "checking"@ || artifact.phase == "committing"@,
    ensures
        ({
            let t0 = deployment::resumed(item, project_id, service, artifact, actual);
            let t1 = t0.next(EventView::Done);
            let t2 = t1.next(EventView::Done);
            &&& t0.id == item.id && t0.project_id == project_id && t0.service_id == service.id
            &&& t0.action() == (ActionView::RecordSuccess {
                revision: ServiceRevisionView {
                    version: item.target_version,
                    image: target.image,
                    pinned_image: target.pinned_image,
                    image_digest: target.digest,
                    image_id: target.image_id,
                },
                log: "管理程序重启后确认候选镜像仍在健康运行，已补记部署成功\n"@,
            })
            &&& t1.action() == ActionView::WriteOverride(None)
            &&& t2.action() == ActionView::Finished
            &&& t2.fatal is None
            &&& t0.next(EventView::Failed(error)).action() == ActionView::Finished
            &&& t0.next(EventView::Failed(error)).fatal == Some(error)
            &&& t1.next(EventView::Failed(error)).action() == ActionView::Finished
            &&& t1.next(EventView::Failed(error)).fatal == Some(error)
        }),
{
    let t0 = deployment::resumed(item, project_id, service, artifact, actual);
    lemma_done(t0, Step::Publish);
    let t1 = t0.next(EventView::Done);
    lemma_done(t1, Step::Done);
    reveal(TaskView::after_failure);
    reveal(TaskView::commit_failed);
}

/// After a restart, a deployment of which any of this does not hold is undone.
pub proof fn law_restart_undoes_everything_else(
    item: DeploymentView,
    project_id: Seq<char>,
    service: ServiceConfigView,
    artifact: DeploymentArtifactView,
    actual: RuntimeStateView,
    error: Seq<char>,
)
    requires
        artifact.target_image is None || artifact.target_pinned_image is None
            || artifact.target_digest is None || artifact.target_image_id is None
            || artifact.target_image_id->0.len() == 0 || actual.actual_image_id
            != artifact.target_image_id || actual.mixed_images || (actual.container_status
            != "healthy"@ && actual.container_status != "running"@) || (artifact.phase
            != "checking"@ && artifact.phase != "committing"@),
    ensures
        ({
            let t0 = deployment::resumed(item, project_id, service, artifact, actual);
            let t1 = TaskView { step: Step::Report, ..t0 };
            &&& t0.job == Job::Recover && t0.step == Step::Restore && t0.present
            &&& t0.id == item.id && t0.project_id == project_id && t0.service_id == service.id
            &&& t0.log == section(
                "管理程序重启后无法确认候选部署已安全完成\n"@,
                "恢复已提交版本"@,
            )
            &&& t0.fatal is None
            &&& t1.next(EventView::Done).fatal is None
            &&& t1.next(EventView::Failed(error)).fatal == Some(error)
        }),
{
    lemma_section("管理程序重启后无法确认候选部署已安全完成\n"@, "恢复已提交版本"@);
    reveal(TaskView::restoring);
    reveal(TaskView::after_failure);
    reveal(TaskView::after_success);
}

/// What a restart finds unfinished is looked at more closely exactly where it was a deployment or a
/// rollback that had begun, of a service that there still is. All else is recorded as interrupted,
/// with the reason, and without touching a container.
pub proof fn law_restart_looks_at_begun_deployments(
    item: DeploymentView,
    project: Option<ProjectConfigView>,
)
    ensures
        match deployment::recovery_of(item, project) {
            RecoveryView::Look(service) => {
                &&& project is Some
                &&& project->0.services.contains(service)
                &&& service.id == item.service_id
                &&& item.status != "queued"@
                &&& item.operation == "deploy"@ || item.operation == "rollback"@
            },
            RecoveryView::Interrupt { error, rollback, log } => if project is None {
                &&& error == "启动恢复时 Compose 项目已不存在"@
                &&& rollback == "unavailable"@
                &&& log == "无法恢复：Compose 项目已不存在\n"@
            } else if forall|i: int|
                0 <= i < project->0.services.len() ==> (#[trigger] project->0.services[i]).id
                    != item.service_id {
                &&& error == "启动恢复时 Compose 服务已不存在"@
                &&& rollback == "unavailable"@
                &&& log == "无法恢复：Compose 服务已不存在\n"@
            } else if item.status == "queued"@ {
                &&& error == "管理程序重启，尚未开始的操作已取消"@
                &&& rollback == "not_needed"@
                &&& log == "操作在开始前因管理程序重启而取消\n"@
            } else {
                &&& item.operation != "deploy"@ && item.operation != "rollback"@
                &&& error == "管理程序在生命周期操作期间重启，请检查容器当前状态"@
                &&& rollback == "unavailable"@
                &&& log == "生命周期操作被管理程序重启中断\n"@
            },
        },
{
    if let Some(project) = project {
        lemma_service_found(project.services, item.service_id);
    }
}

pub(crate) proof fn lemma_service_found(services: Seq<ServiceConfigView>, id: Seq<char>)
    ensures
        match config::find_service(services, id) {
            Some(service) => services.contains(service) && service.id == id,
            None => forall|i: int| 0 <= i < services.len() ==> (#[trigger] services[i]).id != id,
        },
    decreases services.len(),
{
    if services.len() > 0 {
        let rest = services.drop_first();
        lemma_service_found(rest, id);
        if services[0].id == id {
            assert(services.contains(services[0]));
        } else {
            match config::find_service(rest, id) {
                Some(service) => {
                    let i = choose|i: int| 0 <= i < rest.len() && rest[i] == service;
                    assert(services[i + 1] == service);
                },
                None => {
                    assert forall|i: int| 0 <= i < services.len() implies (
                    #[trigger] services[i]).id != id by {
                        if i > 0 {
                            assert(rest[i - 1].id != id);
                        }
                    }
                },
            }
        }
    }
}

/// An operation may begin exactly where no update of the panel runs, its project is known and idle,
/// and the project has its service; and otherwise the first of these that fails is the answer.
pub proof fn law_admission_is_exact(
    updating: bool,
    project: Option<ProjectConfigView>,
    idle: bool,
    service_id: Seq<char>,
)
    ensures
        match deployment::admitted(updating, project, idle, service_id) {
            Ok(service) => {
                &&& !updating && idle && project is Some
                &&& project->0.services.contains(service)
                &&& service.id == service_id
            },
            Err(AppErrorView::Updating) => updating,
            Err(AppErrorView::Busy) => !updating && !idle && project is Some,
            Err(AppErrorView::NotFound) => {
                &&& !updating
                &&& project is None || idle && forall|i: int|
                    0 <= i < project->0.services.len() ==> (#[trigger] project->0.services[i]).id
                        != service_id
            },
            Err(_) => false,
        },
        deployment::project_verdict(updating, project is Some, idle) == (if updating {
            Err::<(), _>(AppErrorView::Updating)
        } else if project is None {
            Err(AppErrorView::NotFound)
        } else if idle {
            Ok(())
        } else {
            Err(AppErrorView::Busy)
        }),
{
    if let Some(project) = project {
        lemma_service_found(project.services, service_id);
    }
}

/// What a task records is what the tables then say of its operation, and no other operation is
/// touched.
pub proof fn law_records_are_read_back(
    t: TaskView,
    s: StorageView,
    now: Seq<char>,
    d: DeploymentView,
    a: StoredArtifactView,
    other: Seq<char>,
)
    requires
        s.deployment(t.id) == Some(d),
        s.stored_artifact(t.id) == Some(a),
        deployment::recording(t, s, now) is Some,
    ensures
        ({
            let after = s.apply_all(deployment::recording(t, s, now)->0);
            let done = DeploymentView { finished_at: Some(now), ..d };
            let fits = |log: Seq<char>| storage::last_bytes(log, s.max_log_bytes as nat);
            &&& match t.action() {
                ActionView::MarkRunning => {
                    &&& after.deployment(t.id) == Some(
                        DeploymentView {
                            status: if d.status == "queued"@ {
                                "running"@
                            } else {
                                d.status
                            },
                            ..d
                        },
                    )
                    &&& after.stored_artifact(t.id) == Some(a)
                },
                ActionView::SetPhase(phase) => {
                    &&& after.deployment(t.id) == Some(d)
                    &&& after.stored_artifact(t.id) == Some(
                        StoredArtifactView {
                            artifact: DeploymentArtifactView { phase, ..a.artifact },
                            ..a
                        },
                    )
                },
                ActionView::SetTarget(target) => {
                    &&& after.deployment(t.id) == Some(d)
                    &&& after.stored_artifact(t.id) == Some(
                        StoredArtifactView {
                            artifact: DeploymentArtifactView {
                                phase: a.artifact.phase,
                                target_image: Some(target.image),
                                target_pinned_image: Some(target.pinned_image),
                                target_digest: Some(target.digest),
                                target_image_id: Some(target.image_id),
                            },
                            ..a
                        },
                    )
                },
                ActionView::RecordSuccess { revision, log } => {
                    &&& after.deployment(t.id) == Some(
                        DeploymentView {
                            status: "succeeded"@,
                            rollback_status: Some("not_needed"@),
                            command_log: fits(log),
                            ..done
                        },
                    )
                    &&& after.stored_artifact(t.id) == Some(
                        StoredArtifactView {
                            artifact: DeploymentArtifactView {
                                phase: "committed"@,
                                ..a.artifact
                            },
                            ..a
                        },
                    )
                    &&& after.state(t.project_id, t.service_id) == Some(
                        ServiceStateView {
                            project_id: t.project_id,
                            service_id: t.service_id,
                            desired_version: revision.version,
                            image: revision.image,
                            pinned_image: revision.pinned_image,
                            image_digest: revision.image_digest,
                            image_id: revision.image_id,
                            updated_at: now,
                            last_deployment_id: t.id,
                        },
                    )
                    &&& after.revisions == s.revisions.push(
                        StoredRevisionView {
                            deployment_id: t.id,
                            project_id: t.project_id,
                            service_id: t.service_id,
                            revision,
                            created_at: now,
                        },
                    )
                },
                ActionView::RecordOperation { log } => {
                    &&& after.deployment(t.id) == Some(
                        DeploymentView {
                            status: "succeeded"@,
                            rollback_status: Some("not_needed"@),
                            command_log: fits(log),
                            ..done
                        },
                    )
                    &&& after.stored_artifact(t.id) == Some(a)
                },
                ActionView::RecordFailure { error, rollback, log } => {
                    &&& after.deployment(t.id) == Some(
                        DeploymentView {
                            status: "failed"@,
                            error_message: Some(error),
                            rollback_status: Some(rollback),
                            command_log: fits(log),
                            ..done
                        },
                    )
                    &&& after.stored_artifact(t.id) == Some(a)
                },
                ActionView::RecordInterrupted { error, rollback, log } => {
                    &&& after.deployment(t.id) == Some(
                        DeploymentView {
                            status: "interrupted"@,
                            error_message: Some(error),
                            rollback_status: Some(rollback),
                            command_log: fits(log),
                            ..done
                        },
                    )
                    &&& after.stored_artifact(t.id) == Some(a)
                },
                _ => false,
            }
            &&& other != t.id ==> after.deployment(other) == s.deployment(other)
                && after.stored_artifact(other) == s.stored_artifact(other)
        }),
{
    let changes = deployment::recording(t, s, now)->0;
    assert(seq![t.id][0] == t.id && seq![other][0] == other);
    table::lemma_row_is_in_table::<Deployment>(s.deployments, seq![t.id]);
    table::lemma_row_is_in_table::<StoredArtifact>(s.artifacts, seq![t.id]);
    assert(seq![d.id] == seq![t.id] && seq![a.deployment_id] == seq![t.id]);
    if changes.len() == 1 {
        assert(changes =~= seq![changes[0]]);
        storage_laws::lemma_apply_one(s, changes[0]);
        lemma_one_record(s, changes[0], t.id, other);
    } else if t.action() is RecordSuccess {
        let revision = t.action()->revision;
        let log = t.action()->RecordSuccess_log;
        storage_laws::lemma_success(s, t.id, t.project_id, t.service_id, revision, log, now);
        storage_laws::law_success_touches_one_service(
            s,
            t.id,
            t.project_id,
            t.service_id,
            revision,
            log,
            now,
            t.project_id,
            t.service_id,
        );
        let done = DeploymentView {
            status: "succeeded"@,
            finished_at: Some(now),
            command_log: storage::last_bytes(log, s.max_log_bytes as nat),
            rollback_status: Some("not_needed"@),
            ..d
        };
        let committed = StoredArtifactView {
            artifact: DeploymentArtifactView { phase: "committed"@, ..a.artifact },
            ..a
        };
        lemma_one_record(s, ChangeView::PutDeployment(done), t.id, other);
        lemma_one_record(s, ChangeView::PutArtifact(committed), t.id, other);
    } else {
        assert(changes =~= Seq::<ChangeView>::empty());
    }
}

/// Of an operation that is not in the tables nothing is recorded, unless it succeeds.
pub proof fn law_unknown_operations_are_not_recorded(t: TaskView, s: StorageView, now: Seq<char>)
    requires
        s.deployment(t.id) is None,
        s.stored_artifact(t.id) is None,
        deployment::recording(t, s, now) is Some,
        !(t.action() is RecordSuccess),
    ensures
        s.apply_all(deployment::recording(t, s, now)->0) == s,
{
    assert(deployment::recording(t, s, now)->0 =~= Seq::<ChangeView>::empty());
}

proof fn lemma_one_record(s: StorageView, change: ChangeView, id: Seq<char>, other: Seq<char>)
    ensures
        match change {
            ChangeView::PutDeployment(d) => d.id == id ==> {
                &&& s.apply(change).deployment(id) == Some(d)
                &&& other != id ==> s.apply(change).deployment(other) == s.deployment(other)
                &&& s.apply(change).artifacts == s.artifacts
            },
            ChangeView::PutArtifact(a) => a.deployment_id == id ==> {
                &&& s.apply(change).stored_artifact(id) == Some(a)
                &&& other != id ==> s.apply(change).stored_artifact(other) == s.stored_artifact(
                    other,
                )
                &&& s.apply(change).deployments == s.deployments
            },
            _ => true,
        },
{
    assert(seq![id][0] == id && seq![other][0] == other);
    match change {
        ChangeView::PutDeployment(d) => {
            table::law_row_is_found::<Deployment>(s.deployments, d, seq![other]);
        },
        ChangeView::PutArtifact(a) => {
            table::law_row_is_found::<StoredArtifact>(s.artifacts, a, seq![other]);
        },
        _ => {},
    }
}

/// An operation that is asked for is recorded as waiting, with the version that its service should
/// run before it: a deployment with the version that was asked for, and only one that is listed; a
/// rollback with the version that it goes back to; and any other operation with the version that
/// stays.
pub proof fn law_requests_are_recorded_as_asked(
    s: StorageView,
    id: Seq<char>,
    now: Seq<char>,
    project_id: Seq<char>,
    service_id: Seq<char>,
    version: Seq<char>,
    listed: Seq<Seq<char>>,
    action: LifecycleAction,
)
    ensures
        ({
            let current = match s.state(project_id, service_id) {
                Some(state) => Some(state.desired_version),
                None => None,
            };
            let waiting = DeploymentView {
                id,
                project_id,
                service_id,
                operation: "deploy"@,
                previous_version: current,
                target_version: version,
                status: "queued"@,
                started_at: now,
                finished_at: None,
                command_log: seq![],
                error_message: None,
                rollback_status: None,
            };
            &&& listed.contains(version) ==> deployment::wanted_deployment(
                s,
                id,
                now,
                project_id,
                service_id,
                version,
                listed,
            ) == Ok::<_, AppErrorView>(waiting)
            &&& !listed.contains(version) ==> deployment::wanted_deployment(
                s,
                id,
                now,
                project_id,
                service_id,
                version,
                listed,
            ) == Err::<DeploymentView, _>(AppErrorView::VersionNotFound(version))
            &&& match deployment::rollback_target(s, project_id, service_id) {
                Ok(revision) => deployment::wanted_rollback(s, id, now, project_id, service_id)
                    == Ok::<_, AppErrorView>(
                    DeploymentView {
                        operation: "rollback"@,
                        target_version: revision.version,
                        ..waiting
                    },
                ),
                Err(error) => deployment::wanted_rollback(s, id, now, project_id, service_id)
                    == Err::<DeploymentView, _>(error),
            }
            &&& deployment::wanted_lifecycle(s, id, now, project_id, service_id, action) == (
            DeploymentView {
                operation: match action {
                    LifecycleAction::Recreate => "recreate"@,
                    LifecycleAction::Stop => "stop"@,
                    LifecycleAction::Down => "down"@,
                },
                target_version: match current {
                    Some(current) => current,
                    None => seq![],
                },
                ..waiting
            })
        }),
{
}

/// A service goes back to the last of its recorded versions that another operation deployed than
/// the one that it runs. It cannot where it runs nothing that was deployed, or there is no such
/// version.
pub proof fn law_rollback_target_is_exact(
    s: StorageView,
    project_id: Seq<char>,
    service_id: Seq<char>,
)
    ensures
        ({
            let others = |r: StoredRevisionView, current: Seq<char>|
                r.project_id == project_id && r.service_id == service_id && r.deployment_id
                    != current;
            match (
                s.state(project_id, service_id),
                deployment::rollback_target(s, project_id, service_id),
            ) {
                (None, result) => result == Err::<ServiceRevisionView, _>(
                    AppErrorView::Invalid("当前服务还没有可回滚的部署基线"@),
                ),
                (Some(state), Ok(revision)) => exists|i: int|
                    0 <= i < s.revisions.len() && (#[trigger] s.revisions[i]).revision == revision
                        && others(s.revisions[i], state.last_deployment_id) && forall|j: int|
                        i < j < s.revisions.len() ==> !others(
                            #[trigger] s.revisions[j],
                            state.last_deployment_id,
                        ),
                (Some(state), Err(error)) => {
                    &&& error == AppErrorView::Invalid("没有找到上一个成功部署版本"@)
                    &&& forall|j: int|
                        0 <= j < s.revisions.len() ==> !others(
                            #[trigger] s.revisions[j],
                            state.last_deployment_id,
                        )
                },
            }
        }),
{
    if let Some(state) = s.state(project_id, service_id) {
        lemma_earlier_revision(s.revisions, project_id, service_id, state.last_deployment_id);
    }
}

spec fn is_other_revision(
    r: StoredRevisionView,
    project_id: Seq<char>,
    service_id: Seq<char>,
    current: Seq<char>,
) -> bool {
    r.project_id == project_id && r.service_id == service_id && r.deployment_id != current
}

proof fn lemma_earlier_revision(
    revisions: Seq<StoredRevisionView>,
    project_id: Seq<char>,
    service_id: Seq<char>,
    current: Seq<char>,
)
    ensures
        match storage::earlier_revision(revisions, project_id, service_id, current) {
            Some(revision) => exists|i: int|
                0 <= i < revisions.len() && (#[trigger] revisions[i]).revision == revision
                    && is_other_revision(revisions[i], project_id, service_id, current)
                    && forall|j: int|
                    i < j < revisions.len() ==> !is_other_revision(
                        #[trigger] revisions[j],
                        project_id,
                        service_id,
                        current,
                    ),
            None => forall|j: int|
                0 <= j < revisions.len() ==> !is_other_revision(
                    #[trigger] revisions[j],
                    project_id,
                    service_id,
                    current,
                ),
        },
    decreases revisions.len(),
{
    if revisions.len() > 0 {
        let front = revisions.drop_last();
        let last = revisions.last();
        lemma_earlier_revision(front, project_id, service_id, current);
        if is_other_revision(last, project_id, service_id, current) {
            assert(revisions[revisions.len() - 1] == last);
        } else {
            match storage::earlier_revision(front, project_id, service_id, current) {
                Some(revision) => {
                    let i = choose|i: int|
                        0 <= i < front.len() && (#[trigger] front[i]).revision == revision
                            && is_other_revision(front[i], project_id, service_id, current)
                            && forall|j: int|
                            i < j < front.len() ==> !is_other_revision(
                                #[trigger] front[j],
                                project_id,
                                service_id,
                                current,
                            );
                    assert(revisions[i] == front[i]);
                    assert forall|j: int| i < j < revisions.len() implies !is_other_revision(
                        #[trigger] revisions[j],
                        project_id,
                        service_id,
                        current,
                    ) by {
                        if j < front.len() {
                            assert(revisions[j] == front[j]);
                        }
                    }
                },
                None => {
                    assert forall|j: int| 0 <= j < revisions.len() implies !is_other_revision(
                        #[trigger] revisions[j],
                        project_id,
                        service_id,
                        current,
                    ) by {
                        if j < front.len() {
                            assert(revisions[j] == front[j]);
                        }
                    }
                },
            }
        }
    }
}

/// The wish to deploy a version is refused with what forbids it, or with what is wrong with the form
/// of the version; otherwise the versions of its service are read from the registry, and with them
/// it is recorded. Where they cannot be read, it is refused for that reason.
pub proof fn law_wish_proceeds_in_order(
    project_id: Seq<char>,
    service_id: Seq<char>,
    version: Seq<char>,
    updating: bool,
    project: Option<ProjectConfigView>,
    idle: bool,
    versions: Seq<PackageVersionView>,
    error: AppErrorView,
)
    ensures
        ({
            let w0 = WishView::new(project_id, service_id, version);
            let w1 = w0.next(WishEventView::Admission { updating, project, idle });
            &&& w0.action() == WishActionView::Admit
            &&& match deployment::admitted(updating, project, idle, service_id) {
                Err(reason) => w1.action() == WishActionView::Refuse(reason),
                Ok(service) => match outside::regex_error(service.tag_pattern) {
                    Some(reason) => w1.action() == WishActionView::Refuse(
                        AppErrorView::Internal(reason),
                    ),
                    None => if !outside::regex_matches(service.tag_pattern, version) {
                        w1.action() == WishActionView::Refuse(
                            AppErrorView::Invalid("版本格式不符合服务规则"@),
                        )
                    } else {
                        let w2 = w1.next(WishEventView::Versions(Ok(versions)));
                        let w3 = w1.next(WishEventView::Versions(Err(error)));
                        &&& w1.action() == (WishActionView::ReadVersions {
                            cache_key: project_id + "/"@ + service_id,
                            source: service.version_source,
                            pattern: service.tag_pattern,
                            refresh: true,
                        })
                        &&& w2.action() == WishActionView::Record
                        &&& w2.state == (WishStateView::Listed { service, versions })
                        &&& w3.action() == WishActionView::Refuse(error)
                    },
                },
            }
        }),
{
}

/// What comes of recording an operation: the record that was wanted is stored, and the changes are
/// those that were made; or, where it is refused or there is one under its ID already, nothing is
/// changed.
pub proof fn law_accepted_requests_are_stored(
    before: StorageView,
    after: StorageView,
    wanted: Result<DeploymentView, AppErrorView>,
    result: Result<(DeploymentView, Seq<ChangeView>), AppErrorView>,
)
    requires
        storage_laws::well_formed(before),
        deployment::recorded(before, after, wanted, result),
        wanted is Ok ==> wanted->Ok_0.status == "queued"@,
    ensures
        match wanted {
            Err(error) => result == Err::<(DeploymentView, Seq<ChangeView>), _>(error) && after
                == before,
            Ok(item) => if before.deployment(item.id) is Some {
                result is Err && after == before
            } else {
                &&& result is Ok && result->Ok_0.0 == item
                &&& after == before.apply_all(result->Ok_0.1)
                &&& after.deployment(item.id) == Some(
                    DeploymentView {
                        finished_at: None,
                        error_message: None,
                        rollback_status: None,
                        ..item
                    },
                )
                &&& after.states == before.states
                &&& after.revisions == before.revisions
            },
        },
{
    if let Ok(item) = wanted {
        storage_laws::law_created_operation_is_found(before, item);
    }
}

/// The images of a list of states, by service.
proof fn lemma_pinned_image(
    states: Seq<ServiceStateView>,
    managed: Seq<Seq<char>>,
    id: Seq<char>,
    i: int,
)
    requires
        0 <= i < states.len(),
        states[i].service_id == id,
        forall|j: int| i < j < states.len() ==> (#[trigger] states[j]).service_id != id,
    ensures
        ordered::value_of(deployment::pinned_images(states, managed), id) == (if managed.contains(
            id,
        ) {
            Some(states[i].pinned_image)
        } else {
            None
        }),
    decreases states.len(),
{
    let last = states.last();
    let rest = deployment::pinned_images(states.drop_last(), managed);
    ordered::law_entry_is_found(rest, last.service_id, last.pinned_image, id);
    if i < states.len() - 1 {
        assert(states[states.len() - 1].service_id != id);
        assert forall|j: int| i < j < states.drop_last().len() implies (
        #[trigger] states.drop_last()[j]).service_id != id by {
            assert(states[j].service_id != id);
        }
        lemma_pinned_image(states.drop_last(), managed, id, i);
    } else if !managed.contains(id) {
        lemma_unmanaged(states, managed, id);
    }
}

proof fn lemma_unmanaged(states: Seq<ServiceStateView>, managed: Seq<Seq<char>>, id: Seq<char>)
    requires
        !managed.contains(id) || forall|j: int|
            0 <= j < states.len() ==> (#[trigger] states[j]).service_id != id,
    ensures
        ordered::value_of(deployment::pinned_images(states, managed), id) is None,
    decreases states.len(),
{
    if states.len() > 0 {
        let last = states.last();
        let rest = deployment::pinned_images(states.drop_last(), managed);
        if managed.contains(id) {
            assert(states[states.len() - 1].service_id != id);
            assert forall|j: int| 0 <= j < states.drop_last().len() implies (
            #[trigger] states.drop_last()[j]).service_id != id by {
                assert(states[j].service_id != id);
            }
        }
        lemma_unmanaged(states.drop_last(), managed, id);
        ordered::law_entry_is_found(rest, last.service_id, last.pinned_image, id);
    }
}

/// The states of a project are those that are recorded of its services, each once.
pub(crate) proof fn lemma_states_of(s: StorageView, project_id: Seq<char>, x: ServiceStateView)
    requires
        storage_laws::well_formed(s),
    ensures
        s.states_of(project_id).contains(x) <==> x.project_id == project_id && s.state(
            project_id,
            x.service_id,
        ) == Some(x),
{
    broadcast use vstd::seq_lib::group_to_multiset_ensures;

    let own = |state: ServiceStateView| state.project_id == project_id;
    let kept = s.states.filter(own);
    ordered::law_ranked_is_sorted::<ServiceState>(kept);
    assert(s.states_of(project_id).contains(x) <==> kept.contains(x)) by {
        assert(s.states_of(project_id).to_multiset().count(x) == kept.to_multiset().count(x));
    }
    lemma_filter_contains(s.states, own, x);
    let key = seq![project_id, x.service_id];
    if kept.contains(x) {
        let i = choose|i: int| 0 <= i < s.states.len() && s.states[i] == x;
        table::lemma_table_row_is_found::<ServiceState>(s.states, i);
    }
    if x.project_id == project_id && s.state(project_id, x.service_id) == Some(x) {
        table::lemma_row_is_in_table::<ServiceState>(s.states, key);
    }
}

proof fn lemma_filter_contains(
    s: Seq<ServiceStateView>,
    p: spec_fn(ServiceStateView) -> bool,
    x: ServiceStateView,
)
    ensures
        s.filter(p).contains(x) <==> s.contains(x) && p(x),
    decreases s.len(),
{
    reveal(Seq::filter);
    if s.len() > 0 {
        let front = s.drop_last();
        let kept = front.filter(p);
        lemma_filter_contains(front, p, x);
        if s.contains(x) && p(x) {
            let i = choose|i: int| 0 <= i < s.len() && s[i] == x;
            if i < s.len() - 1 {
                assert(front[i] == x);
                let k = choose|k: int| 0 <= k < kept.len() && kept[k] == x;
                assert(s.filter(p)[k] == x);
            } else {
                assert(s.filter(p).last() == x);
            }
        }
        if s.filter(p).contains(x) {
            let k = choose|k: int| 0 <= k < s.filter(p).len() && s.filter(p)[k] == x;
            if k < kept.len() {
                assert(kept[k] == x);
                let i = choose|i: int| 0 <= i < front.len() && front[i] == x;
                assert(s[i] == x);
            } else {
                assert(s[s.len() - 1] == x);
            }
        }
    }
}

/// The images that are pinned: the candidate for its own service, and for each other service that
/// the project has the image that is recorded as the one it should run. No other service is named.
pub proof fn law_pinned_images_are_the_recorded_ones(
    s: StorageView,
    project: ProjectConfigView,
    service_id: Seq<char>,
    candidate: Option<Seq<char>>,
    id: Seq<char>,
)
    requires
        storage_laws::well_formed(s),
    ensures
        ({
            let images = deployment::images_with(
                deployment::pinned_images(s.states_of(project.id), project.service_ids()),
                service_id,
                candidate,
            );
            ordered::value_of(images, id) == (if candidate is Some && id == service_id {
                candidate
            } else if project.service_ids().contains(id) && s.state(project.id, id) is Some {
                Some(s.state(project.id, id)->0.pinned_image)
            } else {
                None
            })
        }),
{
    let states = s.states_of(project.id);
    let managed = project.service_ids();
    let images = deployment::pinned_images(states, managed);
    if let Some(image) = candidate {
        ordered::law_entry_is_found(images, service_id, image, id);
    }
    match s.state(project.id, id) {
        Some(state) => {
            table::lemma_row_is_in_table::<ServiceState>(s.states, seq![project.id, id]);
            assert(seq![state.project_id, state.service_id] == seq![project.id, id]);
            assert(seq![state.project_id, state.service_id][0] == seq![project.id, id][0]);
            assert(seq![state.project_id, state.service_id][1] == seq![project.id, id][1]);
            lemma_states_of(s, project.id, state);
            let i = lemma_last_of(states, id, choose|i: int|
                0 <= i < states.len() && states[i] == state);
            assert(states.contains(states[i]));
            lemma_states_of(s, project.id, states[i]);
            lemma_pinned_image(states, managed, id, i);
        },
        None => {
            assert forall|j: int| 0 <= j < states.len() implies (
            #[trigger] states[j]).service_id != id by {
                assert(states.contains(states[j]));
                lemma_states_of(s, project.id, states[j]);
            }
            lemma_unmanaged(states, managed, id);
        },
    }
}

/// The last state of a service.
proof fn lemma_last_of(states: Seq<ServiceStateView>, id: Seq<char>, from: int) -> (i: int)
    requires
        0 <= from < states.len(),
        states[from].service_id == id,
    ensures
        0 <= i < states.len(),
        states[i].service_id == id,
        forall|j: int| i < j < states.len() ==> (#[trigger] states[j]).service_id != id,
    decreases states.len() - from,
{
    if exists|j: int| from < j < states.len() && (#[trigger] states[j]).service_id == id {
        let j = choose|j: int| from < j < states.len() && (#[trigger] states[j]).service_id == id;
        lemma_last_of(states, id, j)
    } else {
        from
    }
}

} // verus!
