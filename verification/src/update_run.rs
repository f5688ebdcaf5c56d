//! How an update of the panel proceeds, from the download to the end of maintenance.
//!
//! A run says what has to be done next, and is told what came of it. It never acts by itself.
use crate::error::{AppError, AppErrorView};
use crate::update::{
    self, ReleaseInfo, ReleaseInfoView, UpdateManager, UpdateManagerView, UpdateStatus,
    UpdateStatusView, HELPER_POLLS,
};
use vstd::prelude::*;

verus! {

/// Where a run stands: what it is waiting for.
#[derive(Clone, Copy, Debug, PartialEq, Eq, Structural)]
pub enum UpdateStep {
    Download,
    Check,
    Extract,
    Stage,
    Poll,
    GiveUp,
    Withdraw,
    Done,
}

/// An update under way.
#[derive(Debug)]
pub struct UpdateRun {
    step: UpdateStep,
    /// How often the helper may still be looked at.
    polls: u32,
    release: ReleaseInfo,
}

pub struct UpdateRunView {
    pub step: UpdateStep,
    pub polls: u32,
    pub release: ReleaseInfoView,
}

impl DeepView for UpdateRun {
    type V = UpdateRunView;

    closed spec fn deep_view(&self) -> UpdateRunView {
        UpdateRunView { step: self.step, polls: self.polls, release: self.release.deep_view() }
    }
}

/// What has to be done for a run.
#[derive(Debug)]
pub enum UpdateAction {
    /// Download the files of the release.
    Download { archive_url: String, checksum_url: String, signature_url: String },
    /// Check the archive against the checksum.
    Check { version: String },
    /// Take the program out of the archive.
    Extract { version: String },
    /// Hand the program over to the helper.
    Stage { version: String },
    /// Wait a second, and look at what the helper has come to.
    Poll,
    /// See whether the request still waits for the helper.
    LookForRequest,
    /// Take the request back.
    Withdraw,
    /// Nothing is left to do.
    Finished,
}

pub enum UpdateActionView {
    Download { archive_url: Seq<char>, checksum_url: Seq<char>, signature_url: Seq<char> },
    Check { version: Seq<char> },
    Extract { version: Seq<char> },
    Stage { version: Seq<char> },
    Poll,
    LookForRequest,
    Withdraw,
    Finished,
}

impl DeepView for UpdateAction {
    type V = UpdateActionView;

    open spec fn deep_view(&self) -> UpdateActionView {
        match self {
            UpdateAction::Download { archive_url, checksum_url, signature_url } => {
                UpdateActionView::Download {
                    archive_url: archive_url@,
                    checksum_url: checksum_url@,
                    signature_url: signature_url@,
                }
            },
            UpdateAction::Check { version } => UpdateActionView::Check { version: version@ },
            UpdateAction::Extract { version } => UpdateActionView::Extract { version: version@ },
            UpdateAction::Stage { version } => UpdateActionView::Stage { version: version@ },
            UpdateAction::Poll => UpdateActionView::Poll,
            UpdateAction::LookForRequest => UpdateActionView::LookForRequest,
            UpdateAction::Withdraw => UpdateActionView::Withdraw,
            UpdateAction::Finished => UpdateActionView::Finished,
        }
    }
}

/// What came of an action.
#[derive(Debug)]
pub enum UpdateEvent {
    Done,
    Failed(AppError),
    Status(UpdateStatus),
    Pending(bool),
}

pub enum UpdateEventView {
    Done,
    Failed(AppErrorView),
    Status(UpdateStatusView),
    Pending(bool),
}

impl DeepView for UpdateEvent {
    type V = UpdateEventView;

    open spec fn deep_view(&self) -> UpdateEventView {
        match self {
            UpdateEvent::Done => UpdateEventView::Done,
            UpdateEvent::Failed(error) => UpdateEventView::Failed(error.deep_view()),
            UpdateEvent::Status(status) => UpdateEventView::Status(status.deep_view()),
            UpdateEvent::Pending(pending) => UpdateEventView::Pending(*pending),
        }
    }
}

/// What is said of a helper that does not answer.
pub open spec fn no_answer() -> Seq<char> {
    "systemd 更新助手未响应，已取消维护状态"@
}

impl UpdateRunView {
    pub open spec fn at(self, step: UpdateStep) -> UpdateRunView {
        UpdateRunView { step, ..self }
    }

    /// What has to be done next.
    pub open spec fn action(self) -> UpdateActionView {
        let version = self.release.version;
        match self.step {
            UpdateStep::Download => UpdateActionView::Download {
                archive_url: self.release.archive_url,
                checksum_url: self.release.checksum_url,
                signature_url: self.release.signature_url,
            },
            UpdateStep::Check => UpdateActionView::Check { version },
            UpdateStep::Extract => UpdateActionView::Extract { version },
            UpdateStep::Stage => UpdateActionView::Stage { version },
            UpdateStep::Poll => UpdateActionView::Poll,
            UpdateStep::GiveUp => UpdateActionView::LookForRequest,
            UpdateStep::Withdraw => UpdateActionView::Withdraw,
            UpdateStep::Done => UpdateActionView::Finished,
        }
    }

    /// Whether an event is one that the step can end with.
    pub open spec fn answered_by(self, event: UpdateEventView) -> bool {
        match self.step {
            UpdateStep::Poll => event is Status,
            UpdateStep::GiveUp => event is Pending,
            UpdateStep::Done => false,
            _ => event is Done || event is Failed,
        }
    }

    /// The run and the panel after a preparation that succeeded.
    pub open spec fn prepared(self, m: UpdateManagerView, now: Seq<char>) -> (
        UpdateRunView,
        UpdateManagerView,
    ) {
        let target = Some(self.release.version);
        match self.step {
            UpdateStep::Download => (self.at(UpdateStep::Check), m),
            UpdateStep::Check => (
                self.at(UpdateStep::Extract),
                m.with_status(update::status_of("verifying"@, target, "正在校验候选二进制"@, now)),
            ),
            UpdateStep::Extract => (
                self.at(UpdateStep::Stage),
                m.with_status(
                    update::status_of("ready"@, target, "校验完成，等待 systemd 更新助手"@, now),
                ),
            ),
            _ => (UpdateRunView { polls: HELPER_POLLS, ..self.at(UpdateStep::Poll) }, m),
        }
    }

    /// The run and the panel after the helper was looked at. One that does not come to an end is
    /// looked at again, as often as may be.
    pub open spec fn polled(self, m: UpdateManagerView, status: UpdateStatusView) -> (
        UpdateRunView,
        UpdateManagerView,
    ) {
        if update::has_ended(status.state) {
            (self.at(UpdateStep::Done), m.with_status(status).cancelled())
        } else if self.polls > 1 {
            (UpdateRunView { polls: (self.polls - 1) as u32, ..self }, m)
        } else {
            (self.at(UpdateStep::GiveUp), m)
        }
    }

    /// The run and the panel after the run was told what came of its action. What does not answer
    /// the action is passed over.
    pub open spec fn next(self, m: UpdateManagerView, event: UpdateEventView, now: Seq<char>) -> (
        UpdateRunView,
        UpdateManagerView,
    ) {
        let version = self.release.version;
        if !self.answered_by(event) {
            (self, m)
        } else if self.step == UpdateStep::Withdraw {
            (self.at(UpdateStep::Done), m.failed(version, no_answer(), now))
        } else {
            match event {
                UpdateEventView::Done => self.prepared(m, now),
                UpdateEventView::Failed(error) => (
                    self.at(UpdateStep::Done),
                    m.failed(version, error.message(), now),
                ),
                UpdateEventView::Status(status) => self.polled(m, status),
                UpdateEventView::Pending(pending) => if m.is_active(pending) {
                    (self.at(UpdateStep::Withdraw), m)
                } else {
                    (self.at(UpdateStep::Done), m)
                },
            }
        }
    }
}

impl UpdateRun {
    /// Begins the update to a release.
    pub fn start(release: ReleaseInfo, manager: &mut UpdateManager, now: &str) -> (r: Self)
        ensures
            r.deep_view() == (UpdateRunView {
                step: UpdateStep::Download,
                polls: HELPER_POLLS,
                release: release.deep_view(),
            }),
            final(manager).deep_view() == old(manager).deep_view().with_status(
                update::status_of(
                    "downloading"@,
                    Some(release.deep_view().version),
                    "正在下载 Release"@,
                    now@,
                ),
            ),
    {
        manager.set_status("downloading", release.version.as_str(), "正在下载 Release", now);
        UpdateRun { step: UpdateStep::Download, polls: HELPER_POLLS, release }
    }

    pub fn action(&self) -> (r: UpdateAction)
        ensures
            r.deep_view() == self.deep_view().action(),
    {
        match self.step {
            UpdateStep::Download => UpdateAction::Download {
                archive_url: self.release.archive_url.clone(),
                checksum_url: self.release.checksum_url.clone(),
                signature_url: self.release.signature_url.clone(),
            },
            UpdateStep::Check => UpdateAction::Check { version: self.release.version.clone() },
            UpdateStep::Extract => UpdateAction::Extract { version: self.release.version.clone() },
            UpdateStep::Stage => UpdateAction::Stage { version: self.release.version.clone() },
            UpdateStep::Poll => UpdateAction::Poll,
            UpdateStep::GiveUp => UpdateAction::LookForRequest,
            UpdateStep::Withdraw => UpdateAction::Withdraw,
            UpdateStep::Done => UpdateAction::Finished,
        }
    }

    fn is_answer(&self, event: &UpdateEvent) -> (r: bool)
        ensures
            r == self.deep_view().answered_by(event.deep_view()),
    {
        match event {
            UpdateEvent::Status(_) => self.step == UpdateStep::Poll,
            UpdateEvent::Pending(_) => self.step == UpdateStep::GiveUp,
            _ => match self.step {
                UpdateStep::Poll | UpdateStep::GiveUp | UpdateStep::Done => false,
                _ => true,
            },
        }
    }

    fn proceed(&mut self, manager: &mut UpdateManager, now: &str)
        ensures
            (final(self).deep_view(), final(manager).deep_view()) == old(
                self,
            ).deep_view().prepared(old(manager).deep_view(), now@),
    {
        let version = self.release.version.as_str();
        match self.step {
            UpdateStep::Download => {
                self.step = UpdateStep::Check;
            },
            UpdateStep::Check => {
                manager.set_status("verifying", version, "正在校验候选二进制", now);
                self.step = UpdateStep::Extract;
            },
            UpdateStep::Extract => {
                manager.set_status("ready", version, "校验完成，等待 systemd 更新助手", now);
                self.step = UpdateStep::Stage;
            },
            _ => {
                self.polls = HELPER_POLLS;
                self.step = UpdateStep::Poll;
            },
        }
    }

    /// Takes in what came of the action.
    pub fn handle(&mut self, manager: &mut UpdateManager, event: &UpdateEvent, now: &str)
        ensures
            (final(self).deep_view(), final(manager).deep_view()) == old(self).deep_view().next(
                old(manager).deep_view(),
                event.deep_view(),
                now@,
            ),
    {
        if !self.is_answer(event) {
            return;
        }
        if self.step == UpdateStep::Withdraw {
            let message = "systemd 更新助手未响应，已取消维护状态";
            manager.fail(self.release.version.as_str(), message, now);
            self.step = UpdateStep::Done;
            return;
        }
        match event {
            UpdateEvent::Done => self.proceed(manager, now),
            UpdateEvent::Failed(error) => {
                let message = error.message();
                manager.fail(self.release.version.as_str(), message.as_str(), now);
                self.step = UpdateStep::Done;
            },
            UpdateEvent::Status(status) => {
                if manager.poll(status) {
                    self.step = UpdateStep::Done;
                } else if self.polls > 1 {
                    self.polls = self.polls - 1;
                } else {
                    self.step = UpdateStep::GiveUp;
                }
            },
            UpdateEvent::Pending(pending) => {
                if manager.is_active(*pending) {
                    self.step = UpdateStep::Withdraw;
                } else {
                    self.step = UpdateStep::Done;
                }
            },
        }
    }
}

/// However an update ends, the panel is out of maintenance when it has.
pub proof fn law_ended_updates_release_the_panel(
    run: UpdateRunView,
    m: UpdateManagerView,
    event: UpdateEventView,
    now: Seq<char>,
)
    requires
        run.step != UpdateStep::Done,
        run.next(m, event, now).0.step == UpdateStep::Done,
    ensures
        !run.next(m, event, now).1.active,
{
}

/// The panel stays in maintenance until an update has ended.
pub proof fn law_updates_under_way_keep_the_panel(
    run: UpdateRunView,
    m: UpdateManagerView,
    event: UpdateEventView,
    now: Seq<char>,
)
    requires
        m.active,
        run.next(m, event, now).0.step != UpdateStep::Done,
    ensures
        run.next(m, event, now).1.active,
{
}

/// Nothing is handed over to the helper before the archive was checked against its checksum and
/// the program was taken out of it.
pub proof fn law_nothing_is_handed_over_unchecked(
    run: UpdateRunView,
    m: UpdateManagerView,
    event: UpdateEventView,
    now: Seq<char>,
)
    requires
        run.next(m, event, now).0.step != run.step,
    ensures
        run.next(m, event, now).0.step == UpdateStep::Extract ==> run.step == UpdateStep::Check
            && event is Done,
        run.next(m, event, now).0.step == UpdateStep::Stage ==> run.step == UpdateStep::Extract
            && event is Done,
        run.next(m, event, now).0.step == UpdateStep::Poll ==> run.step == UpdateStep::Stage
            && event is Done,
        run.next(m, event, now).0.release == run.release,
{
}

/// How much of a run is left at most.
pub open spec fn remaining(run: UpdateRunView) -> nat {
    match run.step {
        UpdateStep::Download => (HELPER_POLLS + 6) as nat,
        UpdateStep::Check => (HELPER_POLLS + 5) as nat,
        UpdateStep::Extract => (HELPER_POLLS + 4) as nat,
        UpdateStep::Stage => (HELPER_POLLS + 3) as nat,
        UpdateStep::Poll => (run.polls + 2) as nat,
        UpdateStep::GiveUp => 2,
        UpdateStep::Withdraw => 1,
        UpdateStep::Done => 0,
    }
}

/// Every update ends: each answer brings it closer to its end.
pub proof fn law_every_update_ends(
    run: UpdateRunView,
    m: UpdateManagerView,
    event: UpdateEventView,
    now: Seq<char>,
)
    requires
        run.answered_by(event),
        run.polls <= HELPER_POLLS,
        run.step == UpdateStep::Poll ==> run.polls > 0,
    ensures
        remaining(run.next(m, event, now).0) < remaining(run),
        run.next(m, event, now).0.polls <= HELPER_POLLS,
        run.next(m, event, now).0.step == UpdateStep::Poll ==> run.next(m, event, now).0.polls > 0,
{
}

} // verus!
