//! What holds of every operation, whatever the outside world answers.
use crate::compose::{self, RuntimeStateView};
use crate::config::{self, ProjectConfigView, ServiceConfigView};
use crate::deployment::{
    self, ActionView, EventView, Job, Step, TaskView, WishActionView, WishEventView, WishStateView,
    WishView,
};
use crate::error::AppErrorView;
use crate::ordered;
use crate::storage::{
    self, DeploymentArtifactView, DeploymentView, ServiceRevisionView, ServiceStateView,
    StorageView,
};
use crate::storage_laws;
use vstd::prelude::*;

verus! {

/// A task after it was told a number of things.
pub open spec fn run(t: TaskView, events: Seq<EventView>) -> TaskView
    decreases events.len(),
{
    if events.len() == 0 {
        t
    } else {
        run(t, events.drop_last()).next(events.last())
    }
}

/// Whether a task is at the beginning of an operation that was asked for.
pub open spec fn is_new(t: TaskView) -> bool {
    t.step == Step::Mark && !(t.job is Confirm) && !(t.job is Recover)
}

/// Whether what an operation did is being undone.
pub open spec fn is_undoing(step: Step) -> bool {
    step is Logs || step is Restore || step is RestoreUp || step is RestoreVerify || step is Report
}

/// What is reported of an error, depending on where it came up.
pub open spec fn reported_error(job: Job, step: Step, error: Seq<char>) -> Seq<char> {
    match (step, job) {
        (Step::Commit, Job::Deploy) => "容器已启动但无法提交部署状态: "@ + error,
        (Step::Commit, Job::Rollback) => "容器已回滚但无法提交部署状态: "@ + error,
        _ => error,
    }
}

/// Whether an event answers what the task waits for.
pub open spec fn answered(t: TaskView, e: EventView) -> bool {
    deployment::answers(t.step, e)
}

/// Whether two tasks are about the same thing.
pub open spec fn same_task(a: TaskView, b: TaskView) -> bool {
    &&& a.job == b.job
    &&& a.present == b.present
    &&& a.id == b.id
    &&& a.project_id == b.project_id
    &&& a.service_id == b.service_id
    &&& a.version == b.version
    &&& a.repository == b.repository
    &&& a.artifact == b.artifact
}

proof fn lemma_enter(t: TaskView, step: Step)
    ensures
        same_task(t.enter(step), t),
        t.enter(step).step == step,
        t.enter(step).error == t.error,
        t.enter(step).rollback == t.rollback,
{
}

/// Whether a task has gone over to restoring what ran before: it does, or that has failed.
pub open spec fn goes_back(after: TaskView, t: TaskView, error: Seq<char>) -> bool {
    &&& same_task(after, t)
    &&& t.job != Job::Recover ==> after.error == error
    &&& after.step == Step::Restore || after.step == Step::Report && after.rollback == "failed"@
}

proof fn lemma_restore_failed(t: TaskView, error: Seq<char>)
    ensures
        goes_back(t.restore_failed(error), t, t.error),
        t.restore_failed(error).step == Step::Report,
{
    reveal(TaskView::restore_failed);
}

proof fn lemma_restoring(t: TaskView)
    ensures
        goes_back(t.restoring(), t, t.error),
{
    reveal(TaskView::restoring);
    lemma_restore_failed(t, deployment::missing_project());
}

proof fn lemma_restored(t: TaskView)
    ensures
        same_task(t.restored(), t),
        t.job != Job::Recover ==> t.restored().error == t.error,
        t.restored().step == Step::Report,
        t.restored().rollback == "succeeded"@,
{
    reveal(TaskView::restored);
}

/// Whether a task has gone on from the containers' logs.
pub open spec fn has_logs(after: TaskView, t: TaskView) -> bool {
    if t.job is Lifecycle {
        &&& same_task(after, t)
        &&& after.error == t.error
        &&& after.step == Step::Report
        &&& after.rollback == "unavailable"@
    } else {
        goes_back(after, t, t.error)
    }
}

proof fn lemma_logs_read(t: TaskView)
    ensures
        has_logs(t.logs_read(), t),
{
    reveal(TaskView::logs_read);
    let parted = TaskView { log: deployment::log_step(t.log, "开始回退"@), ..t };
    lemma_restoring(parted);
}

proof fn lemma_reading_logs(t: TaskView)
    ensures
        same_task(t.reading_logs(), t),
        t.job != Job::Recover ==> t.reading_logs().error == t.error,
        t.reading_logs().step == Step::Logs || has_logs(t.reading_logs(), t),
{
    reveal(TaskView::reading_logs);
    let entered = t.enter(Step::Logs);
    lemma_enter(t, Step::Logs);
    lemma_logs_read(
        entered.logged("无法读取容器日志："@ + deployment::missing_project() + "\n"@),
    );
}

/// Whether a task is being undone because of an error.
pub open spec fn undoes(after: TaskView, t: TaskView, error: Seq<char>) -> bool {
    &&& same_task(after, t)
    &&& t.job != Job::Recover ==> after.error == error
    &&& after.step == Step::Logs || after.step == Step::Restore || after.step == Step::Report && (
    after.rollback == "failed"@ || after.rollback == "unavailable"@)
}

proof fn lemma_failing(t: TaskView, error: Seq<char>)
    ensures
        undoes(t.failing(error), t, error),
{
    reveal(TaskView::failing);
    let failed = t.failed_with(error);
    lemma_reading_logs(failed.logged("\n部署失败: "@ + error + "\n"@));
    lemma_reading_logs(failed.logged("\n操作失败: "@ + error + "\n"@));
    lemma_restoring(failed);
}

proof fn lemma_commit_failed(t: TaskView, error: Seq<char>)
    ensures
        t.job is Deploy || t.job is Rollback ==> undoes(
            t.commit_failed(error),
            t,
            reported_error(t.job, Step::Commit, error),
        ),
        !(t.job is Deploy) && !(t.job is Rollback) ==> same_task(t.commit_failed(error), t)
            && t.commit_failed(error).step == Step::Done,
{
    reveal(TaskView::commit_failed);
    lemma_restoring(t.failed_with("容器已启动但无法提交部署状态: "@ + error));
    lemma_restoring(t.failed_with("容器已回滚但无法提交部署状态: "@ + error));
}

/// What a failure makes of a task.
pub(crate) proof fn lemma_after_failure(t: TaskView, error: Seq<char>)
    requires
        t.step != Step::Done,
    ensures
        same_task(t.after_failure(error), t),
        match t.step {
            Step::Mark | Step::Publish | Step::Report => t.after_failure(error).step == Step::Done
                && t.after_failure(error).error == t.error && t.after_failure(error).rollback
                == t.rollback,
            Step::Committing => if t.job is Deploy {
                undoes(t.after_failure(error), t, error)
            } else {
                t.after_failure(error).step == Step::Commit
            },
            Step::Commit => if t.job is Deploy || t.job is Rollback {
                undoes(t.after_failure(error), t, reported_error(t.job, Step::Commit, error))
            } else {
                t.after_failure(error).step == Step::Done
            },
            Step::Logs => has_logs(t.after_failure(error), t),
            Step::Restore | Step::RestoreUp | Step::RestoreVerify => goes_back(
                t.after_failure(error),
                t,
                t.error,
            ) && t.after_failure(error).step == Step::Report,
            _ => undoes(t.after_failure(error), t, error),
        },
{
    reveal(TaskView::after_failure);
    match t.step {
        Step::Mark | Step::Publish | Step::Report => {
            lemma_enter(t, Step::Done);
        },
        Step::Committing => {
            lemma_enter(t, Step::Commit);
            lemma_restoring(
                t.failed_with(error).logged("\n无法记录提交阶段: "@ + error + "\n"@),
            );
        },
        Step::Commit => lemma_commit_failed(t, error),
        Step::Logs => lemma_logs_read(
            TaskView {
                log: deployment::with_container_logs(t.log, EventView::Failed(error)),
                ..t
            },
        ),
        Step::Restore | Step::RestoreUp | Step::RestoreVerify => lemma_restore_failed(t, error),
        _ => lemma_failing(t, error),
    }
}

/// What a success makes of a task.
pub(crate) proof fn lemma_after_success(t: TaskView, e: EventView)
    requires
        answered(t, e),
        !(e is Failed),
    ensures
        t.step != Step::Inspect ==> same_task(t.after_success(e), t),
        t.after_success(e).job == t.job,
        t.after_success(e).present == t.present,
        t.after_success(e).version == t.version,
        match t.step {
            Step::Mark => if t.present {
                t.after_success(e).step == deployment::following(t.job, Step::Mark)
            } else {
                undoes(t.after_success(e), t, deployment::missing_project())
            },
            Step::Logs => has_logs(t.after_success(e), t),
            Step::RestoreVerify => t.after_success(e).step == Step::Report && t.after_success(
                e,
            ).rollback == "succeeded"@ && (t.job != Job::Recover ==> t.after_success(e).error
                == t.error),
            _ => t.after_success(e).step == deployment::following(t.job, t.step)
                && t.after_success(e).error == t.error && t.after_success(e).rollback == t.rollback,
        },
{
    reveal(TaskView::after_success);
    match t.step {
        Step::Mark => {
            lemma_enter(t, deployment::following(t.job, Step::Mark));
            lemma_failing(t, deployment::missing_project());
        },
        Step::Logs => lemma_logs_read(
            TaskView { log: deployment::with_container_logs(t.log, e), ..t },
        ),
        _ => {
            let heard = match e {
                EventView::Output(output) => t.logged(output),
                EventView::Artifact(artifact) => TaskView { artifact, ..t },
                _ => t,
            };
            lemma_restored(heard);
            lemma_enter(heard, deployment::following(t.job, t.step));
        },
    }
}

proof fn lemma_step(t: TaskView, e: EventView)
    ensures
        t.next(e).job == t.job,
        t.next(e).present == t.present,
        t.next(e).version == t.version,
        !answered(t, e) ==> t.next(e) == t,
        t.step != Step::Inspect ==> t.next(e).artifact == t.artifact,
        is_undoing(t.step) ==> is_undoing(t.next(e).step) || t.next(e).step == Step::Done,
        t.step == Step::Done ==> t.next(e) == t,
{
    if answered(t, e) {
        match e {
            EventView::Failed(error) => lemma_after_failure(t, error),
            _ => lemma_after_success(t, e),
        }
    }
}

proof fn lemma_undo_step(t: TaskView, e: EventView)
    requires
        is_undoing(t.step),
    ensures
        t.job != Job::Recover ==> t.next(e).error == t.error,
        t.next(e).step == Step::Report && t.step != Step::Report ==> {
            ||| t.next(e).rollback == "failed"@
            ||| t.next(e).rollback == "unavailable"@ && t.job is Lifecycle
            ||| t.next(e).rollback == "succeeded"@ && t.step == Step::RestoreVerify && e is Output
        },
        t.step == Step::Report ==> t.next(e).rollback == t.rollback && (t.next(e) == t || t.next(
            e,
        ).step == Step::Done),
{
    if answered(t, e) {
        match e {
            EventView::Failed(error) => lemma_after_failure(t, error),
            _ => lemma_after_success(t, e),
        }
    }
}

proof fn lemma_working_step(t: TaskView, e: EventView)
    requires
        !is_undoing(t.step),
        t.step != Step::Done,
        !(t.job is Confirm),
        !(t.job is Recover),
    ensures
        t.next(e).step == Step::Committing && t.step != Step::Committing ==> t.step == Step::Verify
            && e is Output,
        t.next(e).step == Step::Commit && t.step != Step::Commit && (t.job is Deploy
            || t.job is Rollback) ==> t.step == Step::Committing,
        t.next(e).step == Step::Publish && t.step != Step::Publish ==> t.step == Step::Commit,
        t.next(e).step == Step::Candidate && t.step != Step::Candidate ==> t.job is Deploy,
        is_undoing(t.next(e).step) ==> {
            ||| e matches EventView::Failed(error) && t.next(e).error == reported_error(
                t.job,
                t.step,
                error,
            )
            ||| t.step == Step::Mark && !t.present && t.next(e).error
                == deployment::missing_project()
        },
        t.next(e).step == Step::Report ==> t.next(e).rollback == "failed"@ || t.next(e).rollback
            == "unavailable"@,
{
    if answered(t, e) {
        match e {
            EventView::Failed(error) => lemma_after_failure(t, error),
            _ => lemma_after_success(t, e),
        }
    }
}

pub(crate) proof fn lemma_run_keeps(t: TaskView, events: Seq<EventView>)
    ensures
        run(t, events).job == t.job,
        run(t, events).present == t.present,
        run(t, events).version == t.version,
    decreases events.len(),
{
    if events.len() > 0 {
        lemma_run_keeps(t, events.drop_last());
        lemma_step(run(t, events.drop_last()), events.last());
    }
}

/// Whether the `i`th event said that the candidate was healthy and runs the image of `end`.
pub open spec fn verified_at(t: TaskView, events: Seq<EventView>, i: int, end: TaskView) -> bool {
    &&& 0 <= i < events.len()
    &&& run(t, events.take(i)).step == Step::Verify
    &&& run(t, events.take(i)).artifact == end.artifact
    &&& events[i] is Output
}

proof fn lemma_verified(t: TaskView, events: Seq<EventView>)
    requires
        is_new(t),
        t.job is Deploy || t.job is Rollback,
        run(t, events).step is Committing || run(t, events).step is Commit || run(
            t,
            events,
        ).step is Publish,
    ensures
        exists|i: int| #[trigger] verified_at(t, events, i, run(t, events)),
    decreases events.len(),
{
    if events.len() > 0 {
        let before = events.drop_last();
        let prev = run(t, before);
        let e = events.last();
        let end = run(t, events);
        lemma_run_keeps(t, before);
        lemma_step(prev, e);
        if !is_undoing(prev.step) && prev.step != Step::Done {
            lemma_working_step(prev, e);
            if prev.step == Step::Verify {
                assert(events.take(events.len() - 1) =~= before);
                assert(verified_at(t, events, events.len() - 1, end));
            } else {
                lemma_verified(t, before);
                let i = choose|i: int| #[trigger] verified_at(t, before, i, prev);
                assert(before.take(i) =~= events.take(i));
                assert(verified_at(t, events, i, end));
            }
        }
    }
}

/// A version is recorded as deployed only after its service was seen healthy and running the very
/// image that is recorded.
pub proof fn law_success_is_recorded_only_after_verification(t: TaskView, events: Seq<EventView>)
    requires
        is_new(t),
        run(t, events).action() is RecordSuccess,
    ensures
        run(t, events).action()->revision.image_id == run(t, events).artifact.image_id,
        run(t, events).action()->revision.version == t.version,
        exists|i: int|
            #[trigger] verified_at(t, events, i, run(t, events)) && run(
                t,
                events.take(i),
            ).action() == ActionView::Wait(Some(run(t, events).artifact.image_id)),
{
    let end = run(t, events);
    lemma_run_keeps(t, events);
    lemma_verified(t, events);
    let i = choose|i: int| #[trigger] verified_at(t, events, i, end);
    lemma_run_keeps(t, events.take(i));
    assert(run(t, events.take(i)).action() == ActionView::Wait(Some(end.artifact.image_id)));
}

/// Once an operation is being undone, it is never recorded as a success.
pub proof fn law_undone_operations_do_not_succeed(
    t: TaskView,
    events: Seq<EventView>,
    n: int,
)
    requires
        0 <= n <= events.len(),
        is_undoing(run(t, events.take(n)).step),
    ensures
        is_undoing(run(t, events).step) || run(t, events).step == Step::Done,
        !(run(t, events).action() is RecordSuccess),
        !(run(t, events).action() is RecordOperation),
{
    lemma_undoing_lasts(t, events, n);
}

proof fn lemma_undoing_lasts(t: TaskView, events: Seq<EventView>, n: int)
    requires
        0 <= n <= events.len(),
        is_undoing(run(t, events.take(n)).step) || run(t, events.take(n)).step == Step::Done,
    ensures
        is_undoing(run(t, events).step) || run(t, events).step == Step::Done,
    decreases events.len() - n,
{
    if n < events.len() {
        let more = events.take(n + 1);
        assert(more.drop_last() =~= events.take(n));
        lemma_step(run(t, events.take(n)), more.last());
        lemma_undoing_lasts(t, events, n + 1);
    } else {
        assert(events.take(n) =~= events);
    }
}

/// Whether the `i`th event made the operation fail with this error.
pub open spec fn failed_at(t: TaskView, events: Seq<EventView>, i: int, error: Seq<char>) -> bool {
    &&& 0 <= i < events.len()
    &&& !is_undoing(run(t, events.take(i)).step)
    &&& {
        ||| events[i] matches EventView::Failed(cause) && error == reported_error(
            t.job,
            run(t, events.take(i)).step,
            cause,
        )
        ||| run(t, events.take(i)).step == Step::Mark && !t.present && error
            == deployment::missing_project()
    }
}

proof fn lemma_error_is_first(t: TaskView, events: Seq<EventView>)
    requires
        is_new(t),
        is_undoing(run(t, events).step),
    ensures
        exists|i: int| #[trigger] failed_at(t, events, i, run(t, events).error),
    decreases events.len(),
{
    if events.len() > 0 {
        let before = events.drop_last();
        let prev = run(t, before);
        let e = events.last();
        let end = run(t, events);
        lemma_run_keeps(t, before);
        lemma_step(prev, e);
        assert(events.take(events.len() - 1) =~= before);
        if is_undoing(prev.step) {
            lemma_undo_step(prev, e);
            lemma_error_is_first(t, before);
            let i = choose|i: int| #[trigger] failed_at(t, before, i, prev.error);
            assert(before.take(i) =~= events.take(i));
            assert(failed_at(t, events, i, end.error));
        } else if prev.step != Step::Done {
            lemma_working_step(prev, e);
            assert(failed_at(t, events, events.len() - 1, end.error));
        }
    }
}

/// What is reported of a failed operation is the error that made it fail, not what went wrong
/// while it was undone.
pub proof fn law_failure_reports_the_original_error(t: TaskView, events: Seq<EventView>)
    requires
        is_new(t),
        run(t, events).action() is RecordFailure,
    ensures
        exists|i: int|
            #[trigger] failed_at(t, events, i, run(t, events).action()->RecordFailure_error),
{
    lemma_run_keeps(t, events);
    lemma_error_is_first(t, events);
    assert(run(t, events).action()->RecordFailure_error == run(t, events).error);
    let i = choose|i: int| #[trigger] failed_at(t, events, i, run(t, events).error);
    assert(failed_at(t, events, i, run(t, events).action()->RecordFailure_error));
}

/// Whether the `i`th event said that the service was healthy again.
pub open spec fn restored_at(t: TaskView, events: Seq<EventView>, i: int) -> bool {
    &&& 0 <= i < events.len()
    &&& run(t, events.take(i)).step == Step::RestoreVerify
    &&& events[i] is Output
}

proof fn lemma_rollback_status(t: TaskView, events: Seq<EventView>)
    requires
        is_new(t),
        run(t, events).step == Step::Report,
    ensures
        run(t, events).rollback == "failed"@ || run(t, events).rollback == "unavailable"@ || (run(
            t,
            events,
        ).rollback == "succeeded"@ && exists|i: int| #[trigger] restored_at(t, events, i)),
    decreases events.len(),
{
    if events.len() > 0 {
        let before = events.drop_last();
        let prev = run(t, before);
        let e = events.last();
        lemma_run_keeps(t, before);
        lemma_step(prev, e);
        assert(events.take(events.len() - 1) =~= before);
        if is_undoing(prev.step) {
            lemma_undo_step(prev, e);
            if prev.step == Step::Report {
                lemma_rollback_status(t, before);
                if prev.rollback == "succeeded"@ && prev.rollback != "failed"@ && prev.rollback
                    != "unavailable"@ {
                    let i = choose|i: int| #[trigger] restored_at(t, before, i);
                    assert(before.take(i) =~= events.take(i));
                    assert(restored_at(t, events, i));
                }
            } else if prev.step == Step::RestoreVerify && e is Output {
                assert(restored_at(t, events, events.len() - 1));
            }
        } else if prev.step != Step::Done {
            lemma_working_step(prev, e);
        }
    }
}

/// A failed operation is reported as undone only if its service was seen healthy again.
pub proof fn law_rollback_status_is_what_happened(t: TaskView, events: Seq<EventView>)
    requires
        is_new(t),
        run(t, events).action() is RecordFailure,
        run(t, events).action()->RecordFailure_rollback == "succeeded"@,
    ensures
        exists|i: int| #[trigger] restored_at(t, events, i),
{
    lemma_run_keeps(t, events);
    lemma_rollback_status(t, events);
    reveal_strlit("succeeded");
    reveal_strlit("failed");
    reveal_strlit("unavailable");
    assert("succeeded"@.len() == 9);
    assert("failed"@.len() == 6);
    assert("unavailable"@.len() == 11);
}

/// Whether the `i`th event said that the operation was recorded as a success.
pub open spec fn recorded_at(t: TaskView, events: Seq<EventView>, i: int) -> bool {
    &&& 0 <= i < events.len()
    &&& run(t, events.take(i)).action() is RecordSuccess || run(
        t,
        events.take(i),
    ).action() is RecordOperation
    &&& events[i] is Done
}

proof fn lemma_unfailed(t: TaskView, events: Seq<EventView>)
    requires
        is_new(t),
        t.present,
        forall|i: int| 0 <= i < events.len() ==> !(#[trigger] events[i] is Failed),
    ensures
        !is_undoing(run(t, events).step),
        run(t, events).step is Publish || run(t, events).step is Done ==> exists|i: int|
            #[trigger] recorded_at(t, events, i),
    decreases events.len(),
{
    if events.len() > 0 {
        let before = events.drop_last();
        let prev = run(t, before);
        let e = events.last();
        assert(events[events.len() - 1] == e);
        assert(events.take(events.len() - 1) =~= before);
        assert forall|i: int| 0 <= i < before.len() implies !(#[trigger] before[i] is Failed) by {
            assert(before[i] == events[i]);
        }
        lemma_unfailed(t, before);
        lemma_run_keeps(t, before);
        lemma_step(prev, e);
        if answered(prev, e) {
            lemma_after_success(prev, e);
        }
        if run(t, events).step is Publish || run(t, events).step is Done {
            if prev.step is Publish || prev.step is Done {
                let i = choose|i: int| #[trigger] recorded_at(t, before, i);
                assert(before.take(i) =~= events.take(i));
                assert(recorded_at(t, events, i));
            } else {
                assert(prev.step is Commit);
                assert(recorded_at(t, events, events.len() - 1));
            }
        }
    }
}

/// An operation on a project that is there, and of which no step fails, is not undone, and does
/// not end before it was recorded as a success.
pub proof fn law_operations_succeed_unless_a_step_fails(t: TaskView, events: Seq<EventView>)
    requires
        is_new(t),
        t.present,
        forall|i: int| 0 <= i < events.len() ==> !(#[trigger] events[i] is Failed),
    ensures
        !is_undoing(run(t, events).step),
        run(t, events).action() is Finished ==> exists|i: int| #[trigger] recorded_at(t, events, i),
{
    lemma_unfailed(t, events);
}

/// While an operation is undone, only images that were deployed before are pinned.
pub proof fn law_undoing_pins_no_candidate(t: TaskView)
    requires
        is_undoing(t.step),
    ensures
        t.action() matches ActionView::WriteOverride(image) ==> image is None,
{
}

/// An operation on the containers alone never records a version, and never pins an image in place
/// of the one that should run.
pub proof fn law_lifecycle_keeps_the_version(t: TaskView, events: Seq<EventView>)
    requires
        is_new(t),
        t.job is Lifecycle,
    ensures
        !(run(t, events).action() is RecordSuccess),
        run(t, events).action() matches ActionView::WriteOverride(image) ==> image is None,
{
    lemma_run_keeps(t, events);
    lemma_no_candidate(t, events);
}

proof fn lemma_no_candidate(t: TaskView, events: Seq<EventView>)
    requires
        is_new(t),
        t.job is Lifecycle,
    ensures
        run(t, events).step != Step::Candidate,
    decreases events.len(),
{
    if events.len() > 0 {
        let before = events.drop_last();
        let prev = run(t, before);
        lemma_run_keeps(t, before);
        lemma_no_candidate(t, before);
        lemma_step(prev, events.last());
        if !is_undoing(prev.step) && prev.step != Step::Done {
            lemma_working_step(prev, events.last());
        }
    }
}

/// Whether a step belongs to getting an image that is not there yet.
pub open spec fn is_fetching(step: Step) -> bool {
    step is Candidate || step is Pulling || step is Pull || step is Inspect
}

pub(crate) proof fn lemma_rollback_fetches_nothing(t: TaskView, events: Seq<EventView>)
    requires
        is_new(t),
        t.job is Rollback,
    ensures
        !is_fetching(run(t, events).step),
        run(t, events).artifact == t.artifact,
    decreases events.len(),
{
    if events.len() > 0 {
        let before = events.drop_last();
        let prev = run(t, before);
        let e = events.last();
        lemma_rollback_fetches_nothing(t, before);
        lemma_run_keeps(t, before);
        lemma_step(prev, e);
        if answered(prev, e) {
            match e {
                EventView::Failed(error) => lemma_after_failure(prev, error),
                _ => lemma_after_success(prev, e),
            }
        }
    }
}

/// Going back to a version pins, waits for and records the very image that was recorded of it.
pub proof fn law_rollback_runs_the_recorded_image(t: TaskView, events: Seq<EventView>)
    requires
        is_new(t),
        t.job is Rollback,
    ensures
        match run(t, events).action() {
            ActionView::WriteOverride(image) => image is None || image == Some(
                t.artifact.pinned_image,
            ),
            ActionView::Wait(id) => id is None || id == Some(t.artifact.image_id),
            ActionView::RecordSuccess { revision, .. } => revision == t.revision(),
            ActionView::InspectImage { .. } => false,
            _ => true,
        },
{
    lemma_run_keeps(t, events);
    lemma_rollback_fetches_nothing(t, events);
}

/// How many answers a task can still take.
pub open spec fn rank(job: Job, step: Step) -> nat {
    match step {
        Step::Mark => 20,
        Step::Candidate => 19,
        Step::Pulling => 18,
        Step::Pull => 17,
        Step::Inspect => 16,
        Step::Target => if job is Rollback {
            14
        } else {
            15
        },
        Step::Pin => if job is Rollback {
            13
        } else {
            14
        },
        Step::Starting => if job is Rollback {
            15
        } else {
            13
        },
        Step::Start => 12,
        Step::Checking => 11,
        Step::Verify => 10,
        Step::Committing => 9,
        Step::Commit => 8,
        Step::Publish => 7,
        Step::Logs => 6,
        Step::Restore => 5,
        Step::RestoreUp => 4,
        Step::RestoreVerify => 3,
        Step::Report => 2,
        Step::Done => 0,
    }
}

/// Every answer brings a task nearer to its end, so that it ends after at most twenty of them.
pub proof fn law_every_task_ends(t: TaskView, e: EventView)
    requires
        answered(t, e),
    ensures
        rank(t.job, t.next(e).step) < rank(t.job, t.step) <= 20,
{
    match e {
        EventView::Failed(error) => lemma_after_failure(t, error),
        _ => lemma_after_success(t, e),
    }
}

pub open spec fn begins_with(log: Seq<char>, beginning: Seq<char>) -> bool {
    beginning.len() <= log.len() && log.take(beginning.len() as int) == beginning
}

proof fn lemma_appended(log: Seq<char>, more: Seq<char>)
    ensures
        begins_with(log + more, log),
{
    assert((log + more).take(log.len() as int) =~= log);
}

proof fn lemma_begins_transitive(a: Seq<char>, b: Seq<char>, c: Seq<char>)
    requires
        begins_with(b, a),
        begins_with(c, b),
    ensures
        begins_with(c, a),
{
    assert(c.take(a.len() as int) =~= c.take(b.len() as int).take(a.len() as int));
}

proof fn lemma_log_step(log: Seq<char>, title: Seq<char>)
    ensures
        begins_with(deployment::log_step(log, title), log),
{
    let all = deployment::log_step(log, title);
    assert(all.take(log.len() as int) =~= log);
}

proof fn lemma_enter_log(t: TaskView, step: Step)
    ensures
        begins_with(t.enter(step).log, t.log),
{
    match deployment::title(t.job, step) {
        Some(title) => lemma_log_step(t.log, title),
        None => {
            assert(t.log.take(t.log.len() as int) =~= t.log);
        },
    }
}

proof fn lemma_restoring_log(t: TaskView, error: Seq<char>)
    ensures
        begins_with(t.restoring().log, t.log),
        begins_with(t.restore_failed(error).log, t.log),
        begins_with(t.restored().log, t.log),
{
    reveal(TaskView::restoring);
    reveal(TaskView::restored);
    lemma_enter_log(t, Step::Restore);
    lemma_enter_log(t, Step::Report);
    lemma_restore_failed_log(t, error);
    lemma_restore_failed_log(t, deployment::missing_project());
}

proof fn lemma_restore_failed_log(t: TaskView, error: Seq<char>)
    ensures
        begins_with(t.restore_failed(error).log, t.log),
{
    reveal(TaskView::restore_failed);
    let a = "启动恢复失败: "@ + error + "\n"@;
    let b = "回退失败: "@ + error + "\n"@;
    lemma_appended(t.log, a);
    lemma_appended(t.log, b);
    lemma_enter_log(t.logged(a), Step::Report);
    lemma_enter_log(t.logged(b), Step::Report);
    lemma_begins_transitive(t.log, t.log + a, t.logged(a).enter(Step::Report).log);
    lemma_begins_transitive(t.log, t.log + b, t.logged(b).enter(Step::Report).log);
}

proof fn lemma_logs_read_log(t: TaskView)
    ensures
        begins_with(t.logs_read().log, t.log),
{
    reveal(TaskView::logs_read);
    lemma_enter_log(t, Step::Report);
    lemma_log_step(t.log, "开始回退"@);
    let parted = TaskView { log: deployment::log_step(t.log, "开始回退"@), ..t };
    lemma_restoring_log(parted, Seq::empty());
    lemma_begins_transitive(t.log, parted.log, parted.restoring().log);
}

proof fn lemma_reading_logs_log(t: TaskView)
    ensures
        begins_with(t.reading_logs().log, t.log),
{
    reveal(TaskView::reading_logs);
    lemma_enter_log(t, Step::Logs);
    let entered = t.enter(Step::Logs);
    let more = "无法读取容器日志："@ + deployment::missing_project() + "\n"@;
    lemma_appended(entered.log, more);
    lemma_begins_transitive(t.log, entered.log, entered.log + more);
    lemma_logs_read_log(entered.logged(more));
    lemma_begins_transitive(t.log, entered.log + more, entered.logged(more).logs_read().log);
}

proof fn lemma_failing_log(t: TaskView, error: Seq<char>)
    ensures
        begins_with(t.failing(error).log, t.log),
{
    reveal(TaskView::failing);
    let failed = t.failed_with(error);
    let a = "\n部署失败: "@ + error + "\n"@;
    let b = "\n操作失败: "@ + error + "\n"@;
    lemma_appended(t.log, a);
    lemma_appended(t.log, b);
    lemma_reading_logs_log(failed.logged(a));
    lemma_reading_logs_log(failed.logged(b));
    lemma_begins_transitive(t.log, t.log + a, failed.logged(a).reading_logs().log);
    lemma_begins_transitive(t.log, t.log + b, failed.logged(b).reading_logs().log);
    lemma_restoring_log(failed, Seq::empty());
}

proof fn lemma_container_logs(log: Seq<char>, e: EventView)
    ensures
        begins_with(deployment::with_container_logs(log, e), log),
{
    let all = deployment::with_container_logs(log, e);
    assert(all.take(log.len() as int) =~= log);
}

proof fn lemma_failure_log(t: TaskView, error: Seq<char>)
    ensures
        begins_with(t.after_failure(error).log, t.log),
{
    reveal(TaskView::commit_failed);
    reveal(TaskView::after_failure);
    lemma_enter_log(t, Step::Done);
    lemma_enter_log(t, Step::Commit);
    lemma_failing_log(t, error);
    lemma_restoring_log(t, error);
    let more = "\n无法记录提交阶段: "@ + error + "\n"@;
    let noted = t.failed_with(error).logged(more);
    lemma_appended(t.log, more);
    lemma_restoring_log(noted, error);
    lemma_begins_transitive(t.log, noted.log, noted.restoring().log);
    lemma_restoring_log(t.failed_with("容器已启动但无法提交部署状态: "@ + error), error);
    lemma_restoring_log(t.failed_with("容器已回滚但无法提交部署状态: "@ + error), error);
    let heard = TaskView {
        log: deployment::with_container_logs(t.log, EventView::Failed(error)),
        ..t
    };
    lemma_container_logs(t.log, EventView::Failed(error));
    lemma_logs_read_log(heard);
    lemma_begins_transitive(t.log, heard.log, heard.logs_read().log);
}

proof fn lemma_success_log(t: TaskView, e: EventView)
    ensures
        begins_with(t.after_success(e).log, t.log),
{
    reveal(TaskView::after_success);
    let heard = match e {
        EventView::Output(output) => t.logged(output),
        EventView::Artifact(artifact) => TaskView { artifact, ..t },
        _ => t,
    };
    assert(begins_with(heard.log, t.log)) by {
        assert(heard.log.take(t.log.len() as int) =~= t.log);
    }
    let step = deployment::following(t.job, t.step);
    lemma_enter_log(heard, step);
    lemma_begins_transitive(t.log, heard.log, heard.enter(step).log);
    lemma_restoring_log(heard, Seq::empty());
    lemma_begins_transitive(t.log, heard.log, heard.restored().log);
    lemma_enter_log(t, step);
    lemma_failing_log(t, deployment::missing_project());
    let logs = TaskView { log: deployment::with_container_logs(t.log, e), ..t };
    lemma_container_logs(t.log, e);
    lemma_logs_read_log(logs);
    lemma_begins_transitive(t.log, logs.log, logs.logs_read().log);
}

/// Nothing that was logged is ever lost.
pub proof fn law_log_only_grows(t: TaskView, e: EventView)
    ensures
        begins_with(t.next(e).log, t.log),
{
    assert(t.log.take(t.log.len() as int) =~= t.log);
    if answered(t, e) {
        match e {
            EventView::Failed(error) => lemma_failure_log(t, error),
            _ => lemma_success_log(t, e),
        }
    }
}

/// After a restart a deployment is recorded as done only where the image that it was to deploy
/// runs, alone and healthy, and its containers had been started before.
pub proof fn law_restart_confirms_only_what_runs(
    item: DeploymentView,
    project_id: Seq<char>,
    service: ServiceConfigView,
    artifact: DeploymentArtifactView,
    actual: RuntimeStateView,
)
    requires
        deployment::resumed(item, project_id, service, artifact, actual).action() is RecordSuccess,
    ensures
        deployment::target_is_healthy(artifact, actual),
        artifact.phase == "checking"@ || artifact.phase == "committing"@,
        deployment::resumed(
            item,
            project_id,
            service,
            artifact,
            actual,
        ).action()->revision.image_id == artifact.target_image_id->0,
        actual.actual_image_id == artifact.target_image_id,
{
    reveal(TaskView::restoring);
}

/// After a restart, what cannot be confirmed is undone, and an undone deployment is reported as
/// interrupted whatever comes of undoing it.
pub proof fn law_restart_undoes_what_it_cannot_confirm(
    item: DeploymentView,
    project_id: Seq<char>,
    service: ServiceConfigView,
    artifact: DeploymentArtifactView,
    actual: RuntimeStateView,
)
    requires
        deployment::confirmed(artifact, actual) is None,
    ensures
        deployment::resumed(item, project_id, service, artifact, actual).action()
            == ActionView::WriteOverride(None),
        deployment::resumed(item, project_id, service, artifact, actual).job == Job::Recover,
{
    reveal(TaskView::restoring);
}

proof fn lemma_managed(
    states: Seq<ServiceStateView>,
    managed: Seq<Seq<char>>,
)
    ensures
        ordered::sorted_keys(deployment::pinned_images(states, managed)),
        forall|i: int|
            0 <= i < deployment::pinned_images(states, managed).len() ==> managed.contains(
                #[trigger] deployment::pinned_images(states, managed)[i].0,
            ),
    decreases states.len(),
{
    if states.len() > 0 {
        let rest = deployment::pinned_images(states.drop_last(), managed);
        let last = states.last();
        lemma_managed(states.drop_last(), managed);
        if managed.contains(last.service_id) {
            ordered::law_entries_stay_sorted(rest, last.service_id, last.pinned_image);
            let all = ordered::with_entry(rest, last.service_id, last.pinned_image);
            assert forall|i: int| 0 <= i < all.len() implies managed.contains(
                #[trigger] all[i].0,
            ) by {
                ordered::lemma_with_entry_keys(rest, last.service_id, last.pinned_image, i);
                if all[i].0 != last.service_id {
                    let j = choose|j: int| 0 <= j < rest.len() && rest[j] == all[i];
                    assert(managed.contains(rest[j].0));
                }
            }
        }
    }
}

/// The images that should run can always be pinned: services that the project no longer has are
/// left out, and every service is pinned once.
pub proof fn law_recorded_images_can_be_pinned(
    states: Seq<ServiceStateView>,
    managed: Seq<Seq<char>>,
)
    ensures
        compose::unknown_service(deployment::pinned_images(states, managed), managed) is None,
        ordered::sorted_keys(deployment::pinned_images(states, managed)),
{
    lemma_managed(states, managed);
    lemma_all_known(deployment::pinned_images(states, managed), managed);
}

proof fn lemma_all_known(images: Seq<(Seq<char>, Seq<char>)>, managed: Seq<Seq<char>>)
    requires
        forall|i: int| 0 <= i < images.len() ==> managed.contains(#[trigger] images[i].0),
    ensures
        compose::unknown_service(images, managed) is None,
    decreases images.len(),
{
    if images.len() > 0 {
        let rest = images.drop_first();
        assert(managed.contains(images[0].0));
        assert forall|i: int| 0 <= i < rest.len() implies managed.contains(#[trigger] rest[i].0) by {
            assert(managed.contains(images[i + 1].0));
        }
        lemma_all_known(rest, managed);
    }
}

/// A wish after it was told a number of things.
pub open spec fn follow(w: WishView, events: Seq<WishEventView>) -> WishView
    decreases events.len(),
{
    if events.len() == 0 {
        w
    } else {
        follow(w, events.drop_last()).next(events.last())
    }
}

/// Whether an event admits the wish to deploy a version: nothing forbids an operation on the
/// service, and the version has the form that the service asks for.
pub open spec fn admits(
    event: WishEventView,
    service_id: Seq<char>,
    version: Seq<char>,
    service: ServiceConfigView,
) -> bool {
    match event {
        WishEventView::Admission { updating, project, idle } => deployment::admitted(
            updating,
            project,
            idle,
            service_id,
        ) == Ok::<_, AppErrorView>(service) && deployment::form_verdict(
            service.tag_pattern,
            version,
        ) is Ok,
        WishEventView::Versions(_) => false,
    }
}

/// A deployment is recorded only with versions that were read after the wish was admitted.
pub proof fn law_deployments_are_recorded_from_a_later_list(
    project_id: Seq<char>,
    service_id: Seq<char>,
    version: Seq<char>,
    events: Seq<WishEventView>,
)
    ensures
        ({
            let w = follow(WishView::new(project_id, service_id, version), events);
            &&& w.project_id == project_id && w.service_id == service_id && w.version == version
            &&& w.state matches WishStateView::Admitted(service) ==> exists|i: int|
                0 <= i < events.len() && admits(#[trigger] events[i], service_id, version, service)
            &&& w.state matches WishStateView::Listed { service, versions } ==> exists|i: int, j: int|
                0 <= i < j < events.len() && admits(#[trigger] events[i], service_id, version, service)
                    && #[trigger] events[j] == WishEventView::Versions(Ok(versions))
        }),
    decreases events.len(),
{
    if events.len() > 0 {
        let front = events.drop_last();
        let was = follow(WishView::new(project_id, service_id, version), front);
        let w = was.next(events.last());
        let last = events.len() - 1;
        law_deployments_are_recorded_from_a_later_list(project_id, service_id, version, front);
        match was.state {
            WishStateView::Asked => {
                if let WishStateView::Admitted(service) = w.state {
                    assert(admits(events[last], service_id, version, service));
                }
            },
            WishStateView::Admitted(service) => {
                let i = choose|i: int|
                    0 <= i < front.len() && admits(
                        #[trigger] front[i],
                        service_id,
                        version,
                        service,
                    );
                assert(admits(events[i], service_id, version, service));
                if let WishStateView::Listed { versions, .. } = w.state {
                    assert(events[last] == WishEventView::Versions(Ok(versions)));
                }
            },
            WishStateView::Listed { service, versions } => {
                let (i, j) = choose|i: int, j: int|
                    0 <= i < j < front.len() && admits(
                        #[trigger] front[i],
                        service_id,
                        version,
                        service,
                    ) && #[trigger] front[j] == WishEventView::Versions(Ok(versions));
                assert(admits(events[i], service_id, version, service));
                assert(events[j] == WishEventView::Versions(Ok(versions)));
            },
            WishStateView::Refused(_) => {},
        }
    }
}

/// Whatever is kept of a service's versions, a wish has them read from the registry.
pub proof fn law_wishes_read_versions_anew(w: WishView)
    ensures
        w.action() matches WishActionView::ReadVersions { refresh, .. } ==> refresh,
{
}

/// A wish begins with admission. Once it can be recorded or is refused, nothing changes it.
pub proof fn law_wishes_end(
    project_id: Seq<char>,
    service_id: Seq<char>,
    version: Seq<char>,
    w: WishView,
    event: WishEventView,
)
    ensures
        WishView::new(project_id, service_id, version).action() == WishActionView::Admit,
        w.action() is Record || w.action() is Refuse ==> w.next(event) == w,
{
}

/// Until a version is recorded as deployed, nothing that a task records changes what any service
/// should run, or what it can go back to.
pub proof fn law_only_success_changes_what_should_run(t: TaskView, s: StorageView, now: Seq<char>)
    requires
        deployment::recording(t, s, now) is Some,
        !(t.action() is RecordSuccess),
    ensures
        s.apply_all(deployment::recording(t, s, now)->0).states == s.states,
        s.apply_all(deployment::recording(t, s, now)->0).revisions == s.revisions,
{
    storage_laws::law_operations_keep_versions(s, deployment::recording(t, s, now)->0);
}

/// A recorded success makes the deployed version what its service should run, with the very image
/// that the task verified, and touches no other service.
pub proof fn law_success_records_what_was_deployed(
    t: TaskView,
    s: StorageView,
    now: Seq<char>,
    other_project: Seq<char>,
    other_service: Seq<char>,
)
    requires
        t.action() is RecordSuccess,
    ensures
        deployment::recording(t, s, now) is Some,
        s.apply_all(deployment::recording(t, s, now)->0).state(t.project_id, t.service_id) == Some(
            storage::deployed_state(t.id, t.project_id, t.service_id, t.revision(), now),
        ),
        other_project != t.project_id || other_service != t.service_id ==> s.apply_all(
            deployment::recording(t, s, now)->0,
        ).state(other_project, other_service) == s.state(other_project, other_service),
{
    storage_laws::law_success_touches_one_service(
        s,
        t.id,
        t.project_id,
        t.service_id,
        t.revision(),
        t.log,
        now,
        other_project,
        other_service,
    );
}

/// After two successful deployments of a service, it can go back, and goes back to the first.
pub proof fn law_rollback_goes_to_the_previous_success(
    s: StorageView,
    project_id: Seq<char>,
    service_id: Seq<char>,
    first: Seq<char>,
    first_revision: ServiceRevisionView,
    first_log: Seq<char>,
    first_time: Seq<char>,
    second: Seq<char>,
    second_revision: ServiceRevisionView,
    second_log: Seq<char>,
    second_time: Seq<char>,
)
    requires
        first != second,
    ensures
        deployment::rollback_target(
            storage_laws::after_success(
                storage_laws::after_success(
                    s,
                    first,
                    project_id,
                    service_id,
                    first_revision,
                    first_log,
                    first_time,
                ),
                second,
                project_id,
                service_id,
                second_revision,
                second_log,
                second_time,
            ),
            project_id,
            service_id,
        ) == Ok::<_, AppErrorView>(first_revision),
{
    let middle = storage_laws::after_success(
        s,
        first,
        project_id,
        service_id,
        first_revision,
        first_log,
        first_time,
    );
    storage_laws::law_success_touches_one_service(
        middle,
        second,
        project_id,
        service_id,
        second_revision,
        second_log,
        second_time,
        project_id,
        service_id,
    );
    storage_laws::law_previous_revision_is_the_last_success(
        s,
        project_id,
        service_id,
        first,
        first_revision,
        first_log,
        first_time,
        second,
        second_revision,
        second_log,
        second_time,
    );
}

/// No operation begins during an update of the panel, and none while another one on the project
/// is under way.
pub proof fn law_one_operation_at_a_time(
    updating: bool,
    project: Option<ProjectConfigView>,
    idle: bool,
    service_id: Seq<char>,
)
    ensures
        updating || !idle ==> deployment::admitted(updating, project, idle, service_id) is Err,
        deployment::admitted(updating, project, idle, service_id) matches Ok(service)
            ==> service.id == service_id,
{
    if let Some(project) = project {
        lemma_found_service(project.services, service_id);
    }
}

proof fn lemma_found_service(services: Seq<ServiceConfigView>, id: Seq<char>)
    ensures
        config::find_service(services, id) matches Some(service) ==> service.id == id,
    decreases services.len(),
{
    if services.len() > 0 {
        lemma_found_service(services.drop_first(), id);
    }
}

} // verus!
