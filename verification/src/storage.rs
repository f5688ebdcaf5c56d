//! The records: what each service should run, and what was done to it.
//!
//! The tables are held in memory. Every operation says which rows it changed, so that they can
//! be written out; applying the same changes to the same tables gives the same result.
use crate::duplicate::Duplicate;
use crate::ordered::{self, Ranked};
use crate::table::{self, Keyed};
use crate::text;
use vstd::prelude::*;

verus! {

/// What a service should run: the last version that was deployed with success.
#[derive(Debug)]
pub struct ServiceState {
    pub project_id: String,
    pub service_id: String,
    pub desired_version: String,
    pub image: String,
    pub pinned_image: String,
    pub image_digest: String,
    pub image_id: String,
    pub updated_at: String,
    pub last_deployment_id: String,
}

pub struct ServiceStateView {
    pub project_id: Seq<char>,
    pub service_id: Seq<char>,
    pub desired_version: Seq<char>,
    pub image: Seq<char>,
    pub pinned_image: Seq<char>,
    pub image_digest: Seq<char>,
    pub image_id: Seq<char>,
    pub updated_at: Seq<char>,
    pub last_deployment_id: Seq<char>,
}

impl DeepView for ServiceState {
    type V = ServiceStateView;

    open spec fn deep_view(&self) -> ServiceStateView {
        ServiceStateView {
            project_id: self.project_id.deep_view(),
            service_id: self.service_id.deep_view(),
            desired_version: self.desired_version.deep_view(),
            image: self.image.deep_view(),
            pinned_image: self.pinned_image.deep_view(),
            image_digest: self.image_digest.deep_view(),
            image_id: self.image_id.deep_view(),
            updated_at: self.updated_at.deep_view(),
            last_deployment_id: self.last_deployment_id.deep_view(),
        }
    }
}

impl Duplicate for ServiceState {
    fn duplicate(&self) -> (r: Self) {
        ServiceState {
            project_id: self.project_id.duplicate(),
            service_id: self.service_id.duplicate(),
            desired_version: self.desired_version.duplicate(),
            image: self.image.duplicate(),
            pinned_image: self.pinned_image.duplicate(),
            image_digest: self.image_digest.duplicate(),
            image_id: self.image_id.duplicate(),
            updated_at: self.updated_at.duplicate(),
            last_deployment_id: self.last_deployment_id.duplicate(),
        }
    }
}

/// How far a deployment has come, and the image that it is about to run.
#[derive(Debug)]
pub struct DeploymentArtifact {
    pub phase: String,
    pub target_image: Option<String>,
    pub target_pinned_image: Option<String>,
    pub target_digest: Option<String>,
    pub target_image_id: Option<String>,
}

pub struct DeploymentArtifactView {
    pub phase: Seq<char>,
    pub target_image: Option<Seq<char>>,
    pub target_pinned_image: Option<Seq<char>>,
    pub target_digest: Option<Seq<char>>,
    pub target_image_id: Option<Seq<char>>,
}

impl DeepView for DeploymentArtifact {
    type V = DeploymentArtifactView;

    open spec fn deep_view(&self) -> DeploymentArtifactView {
        DeploymentArtifactView {
            phase: self.phase.deep_view(),
            target_image: self.target_image.deep_view(),
            target_pinned_image: self.target_pinned_image.deep_view(),
            target_digest: self.target_digest.deep_view(),
            target_image_id: self.target_image_id.deep_view(),
        }
    }
}

impl Duplicate for DeploymentArtifact {
    fn duplicate(&self) -> (r: Self) {
        DeploymentArtifact {
            phase: self.phase.duplicate(),
            target_image: self.target_image.duplicate(),
            target_pinned_image: self.target_pinned_image.duplicate(),
            target_digest: self.target_digest.duplicate(),
            target_image_id: self.target_image_id.duplicate(),
        }
    }
}

/// A version that was deployed with success, and its image.
#[derive(Debug)]
pub struct ServiceRevision {
    pub version: String,
    pub image: String,
    pub pinned_image: String,
    pub image_digest: String,
    pub image_id: String,
}

pub struct ServiceRevisionView {
    pub version: Seq<char>,
    pub image: Seq<char>,
    pub pinned_image: Seq<char>,
    pub image_digest: Seq<char>,
    pub image_id: Seq<char>,
}

impl DeepView for ServiceRevision {
    type V = ServiceRevisionView;

    open spec fn deep_view(&self) -> ServiceRevisionView {
        ServiceRevisionView {
            version: self.version.deep_view(),
            image: self.image.deep_view(),
            pinned_image: self.pinned_image.deep_view(),
            image_digest: self.image_digest.deep_view(),
            image_id: self.image_id.deep_view(),
        }
    }
}

impl Duplicate for ServiceRevision {
    fn duplicate(&self) -> (r: Self) {
        ServiceRevision {
            version: self.version.duplicate(),
            image: self.image.duplicate(),
            pinned_image: self.pinned_image.duplicate(),
            image_digest: self.image_digest.duplicate(),
            image_id: self.image_id.duplicate(),
        }
    }
}

/// One operation on a service.
#[derive(Debug)]
pub struct Deployment {
    pub id: String,
    pub project_id: String,
    pub service_id: String,
    pub operation: String,
    pub previous_version: Option<String>,
    pub target_version: String,
    pub status: String,
    pub started_at: String,
    pub finished_at: Option<String>,
    pub command_log: String,
    pub error_message: Option<String>,
    pub rollback_status: Option<String>,
}

pub struct DeploymentView {
    pub id: Seq<char>,
    pub project_id: Seq<char>,
    pub service_id: Seq<char>,
    pub operation: Seq<char>,
    pub previous_version: Option<Seq<char>>,
    pub target_version: Seq<char>,
    pub status: Seq<char>,
    pub started_at: Seq<char>,
    pub finished_at: Option<Seq<char>>,
    pub command_log: Seq<char>,
    pub error_message: Option<Seq<char>>,
    pub rollback_status: Option<Seq<char>>,
}

impl DeepView for Deployment {
    type V = DeploymentView;

    open spec fn deep_view(&self) -> DeploymentView {
        DeploymentView {
            id: self.id.deep_view(),
            project_id: self.project_id.deep_view(),
            service_id: self.service_id.deep_view(),
            operation: self.operation.deep_view(),
            previous_version: self.previous_version.deep_view(),
            target_version: self.target_version.deep_view(),
            status: self.status.deep_view(),
            started_at: self.started_at.deep_view(),
            finished_at: self.finished_at.deep_view(),
            command_log: self.command_log.deep_view(),
            error_message: self.error_message.deep_view(),
            rollback_status: self.rollback_status.deep_view(),
        }
    }
}

impl Duplicate for Deployment {
    fn duplicate(&self) -> (r: Self) {
        Deployment {
            id: self.id.duplicate(),
            project_id: self.project_id.duplicate(),
            service_id: self.service_id.duplicate(),
            operation: self.operation.duplicate(),
            previous_version: self.previous_version.duplicate(),
            target_version: self.target_version.duplicate(),
            status: self.status.duplicate(),
            started_at: self.started_at.duplicate(),
            finished_at: self.finished_at.duplicate(),
            command_log: self.command_log.duplicate(),
            error_message: self.error_message.duplicate(),
            rollback_status: self.rollback_status.duplicate(),
        }
    }
}

/// An operation without its log.
#[derive(Debug)]
pub struct DeploymentSummary {
    pub id: String,
    pub project_id: String,
    pub service_id: String,
    pub operation: String,
    pub previous_version: Option<String>,
    pub target_version: String,
    pub status: String,
    pub started_at: String,
    pub finished_at: Option<String>,
    pub rollback_status: Option<String>,
}

pub struct DeploymentSummaryView {
    pub id: Seq<char>,
    pub project_id: Seq<char>,
    pub service_id: Seq<char>,
    pub operation: Seq<char>,
    pub previous_version: Option<Seq<char>>,
    pub target_version: Seq<char>,
    pub status: Seq<char>,
    pub started_at: Seq<char>,
    pub finished_at: Option<Seq<char>>,
    pub rollback_status: Option<Seq<char>>,
}

impl DeepView for DeploymentSummary {
    type V = DeploymentSummaryView;

    open spec fn deep_view(&self) -> DeploymentSummaryView {
        DeploymentSummaryView {
            id: self.id.deep_view(),
            project_id: self.project_id.deep_view(),
            service_id: self.service_id.deep_view(),
            operation: self.operation.deep_view(),
            previous_version: self.previous_version.deep_view(),
            target_version: self.target_version.deep_view(),
            status: self.status.deep_view(),
            started_at: self.started_at.deep_view(),
            finished_at: self.finished_at.deep_view(),
            rollback_status: self.rollback_status.deep_view(),
        }
    }
}

impl Duplicate for DeploymentSummary {
    fn duplicate(&self) -> (r: Self) {
        DeploymentSummary {
            id: self.id.duplicate(),
            project_id: self.project_id.duplicate(),
            service_id: self.service_id.duplicate(),
            operation: self.operation.duplicate(),
            previous_version: self.previous_version.duplicate(),
            target_version: self.target_version.duplicate(),
            status: self.status.duplicate(),
            started_at: self.started_at.duplicate(),
            finished_at: self.finished_at.duplicate(),
            rollback_status: self.rollback_status.duplicate(),
        }
    }
}

/// The artifact row of a deployment.
#[derive(Debug)]
pub struct StoredArtifact {
    pub deployment_id: String,
    pub artifact: DeploymentArtifact,
}

pub struct StoredArtifactView {
    pub deployment_id: Seq<char>,
    pub artifact: DeploymentArtifactView,
}

impl DeepView for StoredArtifact {
    type V = StoredArtifactView;

    open spec fn deep_view(&self) -> StoredArtifactView {
        StoredArtifactView {
            deployment_id: self.deployment_id.deep_view(),
            artifact: self.artifact.deep_view(),
        }
    }
}

impl Duplicate for StoredArtifact {
    fn duplicate(&self) -> (r: Self) {
        StoredArtifact {
            deployment_id: self.deployment_id.duplicate(),
            artifact: self.artifact.duplicate(),
        }
    }
}

/// The revision row that a successful deployment leaves.
#[derive(Debug)]
pub struct StoredRevision {
    pub deployment_id: String,
    pub project_id: String,
    pub service_id: String,
    pub revision: ServiceRevision,
    pub created_at: String,
}

pub struct StoredRevisionView {
    pub deployment_id: Seq<char>,
    pub project_id: Seq<char>,
    pub service_id: Seq<char>,
    pub revision: ServiceRevisionView,
    pub created_at: Seq<char>,
}

impl DeepView for StoredRevision {
    type V = StoredRevisionView;

    open spec fn deep_view(&self) -> StoredRevisionView {
        StoredRevisionView {
            deployment_id: self.deployment_id.deep_view(),
            project_id: self.project_id.deep_view(),
            service_id: self.service_id.deep_view(),
            revision: self.revision.deep_view(),
            created_at: self.created_at.deep_view(),
        }
    }
}

impl Duplicate for StoredRevision {
    fn duplicate(&self) -> (r: Self) {
        StoredRevision {
            deployment_id: self.deployment_id.duplicate(),
            project_id: self.project_id.duplicate(),
            service_id: self.service_id.duplicate(),
            revision: self.revision.duplicate(),
            created_at: self.created_at.duplicate(),
        }
    }
}

/// A changed row.
#[derive(Debug)]
pub enum Change {
    PutDeployment(Deployment),
    PutArtifact(StoredArtifact),
    PutState(ServiceState),
    AddRevision(StoredRevision),
    RemoveDeployment(String),
}

pub enum ChangeView {
    PutDeployment(DeploymentView),
    PutArtifact(StoredArtifactView),
    PutState(ServiceStateView),
    AddRevision(StoredRevisionView),
    RemoveDeployment(Seq<char>),
}

impl DeepView for Change {
    type V = ChangeView;

    open spec fn deep_view(&self) -> ChangeView {
        match self {
            Change::PutDeployment(d) => ChangeView::PutDeployment(d.deep_view()),
            Change::PutArtifact(a) => ChangeView::PutArtifact(a.deep_view()),
            Change::PutState(s) => ChangeView::PutState(s.deep_view()),
            Change::AddRevision(r) => ChangeView::AddRevision(r.deep_view()),
            Change::RemoveDeployment(id) => ChangeView::RemoveDeployment(id@),
        }
    }
}

impl Keyed for ServiceState {
    open spec fn key(v: ServiceStateView) -> Seq<Seq<char>> {
        seq![v.project_id, v.service_id]
    }

    fn key_texts(&self) -> (r: Vec<String>) {
        let r = text::list_of(&[self.project_id.as_str(), self.service_id.as_str()]);
        proof {
            assert(r.deep_view() =~= Self::key(self.deep_view()));
        }
        r
    }
}

impl Keyed for Deployment {
    open spec fn key(v: DeploymentView) -> Seq<Seq<char>> {
        seq![v.id]
    }

    fn key_texts(&self) -> (r: Vec<String>) {
        let r = text::list_of(&[self.id.as_str()]);
        proof {
            assert(r.deep_view() =~= Self::key(self.deep_view()));
        }
        r
    }
}

impl Keyed for StoredArtifact {
    open spec fn key(v: StoredArtifactView) -> Seq<Seq<char>> {
        seq![v.deployment_id]
    }

    fn key_texts(&self) -> (r: Vec<String>) {
        let r = text::list_of(&[self.deployment_id.as_str()]);
        proof {
            assert(r.deep_view() =~= Self::key(self.deep_view()));
        }
        r
    }
}

/// Services are listed by their names.
impl Ranked for ServiceState {
    open spec fn before(a: ServiceStateView, b: ServiceStateView) -> bool {
        ordered::precedes(a.service_id, b.service_id)
    }

    fn ranks_before(&self, other: &Self) -> (r: bool) {
        proof {
            let a = self.deep_view();
            let b = other.deep_view();
            ordered::lemma_precedes_ranks(a.service_id, b.service_id, b.service_id);
            assert forall|c: ServiceStateView|
                !Self::before(a, b) && !(#[trigger] Self::before(b, c)) implies !Self::before(a, c) by {
                ordered::lemma_precedes_ranks(a.service_id, b.service_id, c.service_id);
            }
        }
        ordered::comes_before(self.service_id.as_str(), other.service_id.as_str())
    }
}

/// The newest operation is listed first.
impl Ranked for Deployment {
    open spec fn before(a: DeploymentView, b: DeploymentView) -> bool {
        ordered::precedes(b.started_at, a.started_at)
    }

    fn ranks_before(&self, other: &Self) -> (r: bool) {
        proof {
            let a = self.deep_view();
            let b = other.deep_view();
            ordered::lemma_precedes_ranks(b.started_at, a.started_at, a.started_at);
            assert forall|c: DeploymentView|
                !Self::before(a, b) && !(#[trigger] Self::before(b, c)) implies !Self::before(a, c) by {
                ordered::lemma_precedes_ranks(c.started_at, b.started_at, a.started_at);
            }
        }
        ordered::comes_before(other.started_at.as_str(), self.started_at.as_str())
    }
}

/// The number of bytes that a character takes in UTF-8.
pub open spec fn char_width(c: char) -> nat {
    if c >= '\u{10000}' {
        4
    } else if c >= '\u{800}' {
        3
    } else if c >= '\u{80}' {
        2
    } else {
        1
    }
}

/// The number of bytes that a text takes in UTF-8.
pub open spec fn utf8_len(s: Seq<char>) -> nat
    decreases s.len(),
{
    if s.len() == 0 {
        0
    } else {
        char_width(s[0]) + utf8_len(s.drop_first())
    }
}

/// The longest ending of a text that fits into `max` bytes.
pub open spec fn last_bytes(s: Seq<char>, max: nat) -> Seq<char>
    decreases s.len(),
{
    if s.len() == 0 || utf8_len(s) <= max {
        s
    } else {
        last_bytes(s.drop_first(), max)
    }
}

fn width(c: char) -> (r: usize)
    ensures
        r == char_width(c),
{
    if c >= '\u{10000}' {
        4
    } else if c >= '\u{800}' {
        3
    } else if c >= '\u{80}' {
        2
    } else {
        1
    }
}

proof fn lemma_utf8_len_skip(s: Seq<char>, i: int)
    requires
        0 < i <= s.len(),
    ensures
        utf8_len(s.skip(i - 1)) == char_width(s[i - 1]) + utf8_len(s.skip(i)),
{
    assert(s.skip(i - 1).drop_first() =~= s.skip(i));
}

proof fn lemma_utf8_len_grows(s: Seq<char>, i: int, j: int)
    requires
        0 <= i <= j <= s.len(),
    ensures
        utf8_len(s.skip(j)) <= utf8_len(s.skip(i)),
    decreases j - i,
{
    if i < j {
        lemma_utf8_len_skip(s, j);
        lemma_utf8_len_grows(s, i, j - 1);
    }
}

proof fn lemma_last_bytes(s: Seq<char>, max: nat, i: int)
    requires
        0 <= i <= s.len(),
        utf8_len(s.skip(i)) <= max,
        i == 0 || utf8_len(s.skip(i - 1)) > max,
    ensures
        last_bytes(s, max) == s.skip(i),
    decreases i,
{
    if i == 0 {
        assert(s.skip(0) =~= s);
    } else {
        lemma_utf8_len_grows(s, 0, i - 1);
        assert(s.skip(0) =~= s);
        let rest = s.drop_first();
        assert(rest.skip(i - 1) =~= s.skip(i));
        if i > 1 {
            assert(rest.skip(i - 2) =~= s.skip(i - 1));
        }
        lemma_last_bytes(rest, max, i - 1);
    }
}

/// Keeps the end of a text, as much of it as fits into `max` bytes of UTF-8.
pub fn truncate_utf8(value: &str, max: usize) -> (r: String)
    ensures
        r@ == last_bytes(value@, max as nat),
{
    let cs = text::chars_of(value);
    let mut i: usize = cs.len();
    let mut used: usize = 0;
    proof {
        assert(cs@.skip(i as int) =~= Seq::empty());
    }
    while i > 0 && width(cs[i - 1]) <= max - used
        invariant
            i <= cs@.len(),
            used <= max,
            used == utf8_len(cs@.skip(i as int)),
        decreases i,
    {
        proof {
            lemma_utf8_len_skip(cs@, i as int);
        }
        used = used + width(cs[i - 1]);
        i = i - 1;
    }
    proof {
        if i > 0 {
            lemma_utf8_len_skip(cs@, i as int);
        }
        lemma_last_bytes(cs@, max as nat, i as int);
        assert(cs@.subrange(i as int, cs@.len() as int) =~= cs@.skip(i as int));
    }
    text::text_of(&cs, i, cs.len())
}

/// What is kept of a text fits, is an ending of it, and is all of it where all of it fits.
pub proof fn law_truncated_text_fits(s: Seq<char>, max: nat)
    ensures
        utf8_len(last_bytes(s, max)) <= max,
        last_bytes(s, max).len() <= s.len(),
        last_bytes(s, max) == s.skip(s.len() - last_bytes(s, max).len()),
        utf8_len(s) <= max ==> last_bytes(s, max) == s,
    decreases s.len(),
{
    if s.len() == 0 || utf8_len(s) <= max {
        assert(s.skip(0) =~= s);
    } else {
        law_truncated_text_fits(s.drop_first(), max);
        let kept = last_bytes(s, max);
        assert(s.drop_first().skip(s.drop_first().len() - kept.len()) =~= s.skip(
            s.len() - kept.len(),
        ));
    }
}

/// Whether an operation is waiting or under way.
pub open spec fn is_active(d: DeploymentView) -> bool {
    d.status == "queued"@ || d.status == "running"@
}

fn active(d: &Deployment) -> (r: bool)
    ensures
        r == is_active(d.deep_view()),
{
    text::same(d.status.as_str(), "queued") || text::same(d.status.as_str(), "running")
}

/// The tables.
#[derive(Debug)]
pub struct Storage {
    states: Vec<ServiceState>,
    deployments: Vec<Deployment>,
    artifacts: Vec<StoredArtifact>,
    revisions: Vec<StoredRevision>,
    history_limit: u32,
    max_log_bytes: usize,
}

pub struct StorageView {
    pub states: Seq<ServiceStateView>,
    pub deployments: Seq<DeploymentView>,
    pub artifacts: Seq<StoredArtifactView>,
    pub revisions: Seq<StoredRevisionView>,
    pub history_limit: u32,
    pub max_log_bytes: usize,
}

impl DeepView for Storage {
    type V = StorageView;

    closed spec fn deep_view(&self) -> StorageView {
        StorageView {
            states: self.states.deep_view(),
            deployments: self.deployments.deep_view(),
            artifacts: self.artifacts.deep_view(),
            revisions: self.revisions.deep_view(),
            history_limit: self.history_limit,
            max_log_bytes: self.max_log_bytes,
        }
    }
}

impl Duplicate for Storage {
    fn duplicate(&self) -> (r: Self) {
        Storage {
            states: self.states.duplicate(),
            deployments: self.deployments.duplicate(),
            artifacts: self.artifacts.duplicate(),
            revisions: self.revisions.duplicate(),
            history_limit: self.history_limit,
            max_log_bytes: self.max_log_bytes,
        }
    }
}

/// The record of an operation that has just been asked for.
pub open spec fn fresh(d: DeploymentView) -> DeploymentView {
    DeploymentView { finished_at: None, error_message: None, rollback_status: None, ..d }
}

pub open spec fn fresh_artifact(id: Seq<char>) -> StoredArtifactView {
    StoredArtifactView {
        deployment_id: id,
        artifact: DeploymentArtifactView {
            phase: "queued"@,
            target_image: None,
            target_pinned_image: None,
            target_digest: None,
            target_image_id: None,
        },
    }
}

pub open spec fn removals(ids: Seq<Seq<char>>) -> Seq<ChangeView> {
    ids.map_values(|id: Seq<char>| ChangeView::RemoveDeployment(id))
}

pub open spec fn deployment_ids(list: Seq<DeploymentView>) -> Seq<Seq<char>> {
    list.map_values(|d: DeploymentView| d.id)
}

/// What the database reads of a time: the same point in time as a text whose order is that of
/// time, where it can read it.
pub open spec fn time_read(times: Seq<(Seq<char>, Option<Seq<char>>)>, time: Seq<char>) -> Option<
    Seq<char>,
> {
    match ordered::value_of(times, time) {
        Some(read) => read,
        None => None,
    }
}

/// Whether one time comes before another, as far as both can be read.
pub open spec fn is_earlier(started: Option<Seq<char>>, limit: Option<Seq<char>>) -> bool {
    match (started, limit) {
        (Some(started), Some(limit)) => ordered::precedes(started, limit),
        _ => false,
    }
}

/// Whether an operation began before another point in time, by what the database reads of both.
pub open spec fn started_before(
    d: DeploymentView,
    cutoff: Seq<char>,
    times: Seq<(Seq<char>, Option<Seq<char>>)>,
) -> bool {
    is_earlier(time_read(times, d.started_at), time_read(times, cutoff))
}

/// Whether an operation that began at one time is finished, and began before another.
pub fn outdated(d: &Deployment, started: &Option<String>, limit: &Option<String>) -> (r: bool)
    ensures
        r == (!is_active(d.deep_view()) && is_earlier(started.deep_view(), limit.deep_view())),
{
    match (started, limit) {
        (Some(started), Some(limit)) => ordered::comes_before(started.as_str(), limit.as_str())
            && !active(d),
        _ => false,
    }
}

fn read_time(times: &Vec<(String, Option<String>)>, time: &str) -> (r: Option<String>)
    ensures
        r.deep_view() == time_read(times.deep_view(), time@),
{
    match ordered::find_value(times, time) {
        Some(read) => read.duplicate(),
        None => None,
    }
}

/// The revision that a service had before: the last one that another deployment left.
pub open spec fn earlier_revision(
    revisions: Seq<StoredRevisionView>,
    project_id: Seq<char>,
    service_id: Seq<char>,
    current: Seq<char>,
) -> Option<ServiceRevisionView>
    decreases revisions.len(),
{
    if revisions.len() == 0 {
        None
    } else {
        let last = revisions.last();
        if last.project_id == project_id && last.service_id == service_id && last.deployment_id
            != current {
            Some(last.revision)
        } else {
            earlier_revision(revisions.drop_last(), project_id, service_id, current)
        }
    }
}

pub open spec fn summary_of(d: DeploymentView) -> DeploymentSummaryView {
    DeploymentSummaryView {
        id: d.id,
        project_id: d.project_id,
        service_id: d.service_id,
        operation: d.operation,
        previous_version: d.previous_version,
        target_version: d.target_version,
        status: d.status,
        started_at: d.started_at,
        finished_at: d.finished_at,
        rollback_status: d.rollback_status,
    }
}

/// The unfinished operations that have an artifact row.
pub open spec fn with_artifacts(
    list: Seq<DeploymentView>,
    artifacts: Seq<StoredArtifactView>,
) -> Seq<(DeploymentView, DeploymentArtifactView)>
    decreases list.len(),
{
    if list.len() == 0 {
        Seq::empty()
    } else {
        let rest = with_artifacts(list.drop_last(), artifacts);
        match table::row::<StoredArtifact>(artifacts, seq![list.last().id]) {
            Some(found) => rest.push((list.last(), found.artifact)),
            None => rest,
        }
    }
}

impl StorageView {
    pub open spec fn apply(self, change: ChangeView) -> StorageView {
        match change {
            ChangeView::PutDeployment(d) => StorageView {
                deployments: table::with_row::<Deployment>(self.deployments, d),
                ..self
            },
            ChangeView::PutArtifact(a) => StorageView {
                artifacts: table::with_row::<StoredArtifact>(self.artifacts, a),
                ..self
            },
            ChangeView::PutState(s) => StorageView {
                states: table::with_row::<ServiceState>(self.states, s),
                ..self
            },
            ChangeView::AddRevision(r) => StorageView { revisions: self.revisions.push(r), ..self },
            ChangeView::RemoveDeployment(id) => StorageView {
                deployments: table::without_key::<Deployment>(self.deployments, seq![id]),
                artifacts: table::without_key::<StoredArtifact>(self.artifacts, seq![id]),
                ..self
            },
        }
    }

    pub open spec fn apply_all(self, changes: Seq<ChangeView>) -> StorageView
        decreases changes.len(),
    {
        if changes.len() == 0 {
            self
        } else {
            self.apply_all(changes.drop_last()).apply(changes.last())
        }
    }

    /// What a service should run.
    pub open spec fn state(self, project_id: Seq<char>, service_id: Seq<char>) -> Option<
        ServiceStateView,
    > {
        table::row::<ServiceState>(self.states, seq![project_id, service_id])
    }

    /// What the services of a project should run.
    pub open spec fn states_of(self, project_id: Seq<char>) -> Seq<ServiceStateView> {
        ordered::ranked::<ServiceState>(
            self.states.filter(|s: ServiceStateView| s.project_id == project_id),
        )
    }

    pub open spec fn deployment(self, id: Seq<char>) -> Option<DeploymentView> {
        table::row::<Deployment>(self.deployments, seq![id])
    }

    pub open spec fn stored_artifact(self, id: Seq<char>) -> Option<StoredArtifactView> {
        table::row::<StoredArtifact>(self.artifacts, seq![id])
    }

    /// The finished operations that the history has no room for: all but the newest.
    pub open spec fn expired(self) -> Seq<Seq<char>> {
        let finished = ordered::ranked::<Deployment>(
            self.deployments.filter(|d: DeploymentView| !is_active(d)),
        );
        if finished.len() <= self.history_limit {
            Seq::empty()
        } else {
            deployment_ids(finished.skip(self.history_limit as int))
        }
    }

    pub open spec fn created(self, d: DeploymentView) -> Seq<ChangeView> {
        seq![ChangeView::PutDeployment(fresh(d)), ChangeView::PutArtifact(fresh_artifact(d.id))]
    }

    /// The rows that change when an operation is recorded.
    pub open spec fn creation(self, d: DeploymentView) -> Seq<ChangeView> {
        self.created(d) + removals(self.apply_all(self.created(d)).expired())
    }

    pub open spec fn phase_change(self, id: Seq<char>, phase: Seq<char>) -> Seq<ChangeView> {
        match self.stored_artifact(id) {
            Some(found) => seq![
                ChangeView::PutArtifact(
                    StoredArtifactView {
                        artifact: DeploymentArtifactView { phase, ..found.artifact },
                        ..found
                    },
                ),
            ],
            None => Seq::empty(),
        }
    }

    pub open spec fn target_change(
        self,
        id: Seq<char>,
        image: Seq<char>,
        pinned_image: Seq<char>,
        digest: Seq<char>,
        image_id: Seq<char>,
    ) -> Seq<ChangeView> {
        match self.stored_artifact(id) {
            Some(found) => seq![
                ChangeView::PutArtifact(
                    StoredArtifactView {
                        artifact: DeploymentArtifactView {
                            phase: found.artifact.phase,
                            target_image: Some(image),
                            target_pinned_image: Some(pinned_image),
                            target_digest: Some(digest),
                            target_image_id: Some(image_id),
                        },
                        ..found
                    },
                ),
            ],
            None => Seq::empty(),
        }
    }

    pub open spec fn running_change(self, id: Seq<char>) -> Seq<ChangeView> {
        match self.deployment(id) {
            Some(d) => if d.status == "queued"@ {
                seq![ChangeView::PutDeployment(DeploymentView { status: "running"@, ..d })]
            } else {
                Seq::empty()
            },
            None => Seq::empty(),
        }
    }

    /// How an operation that is over is recorded. A success leaves the error as it was.
    pub open spec fn finish_change(
        self,
        id: Seq<char>,
        status: Seq<char>,
        error: Option<Seq<char>>,
        rollback: Seq<char>,
        log: Seq<char>,
        now: Seq<char>,
    ) -> Seq<ChangeView> {
        match self.deployment(id) {
            Some(d) => seq![
                ChangeView::PutDeployment(
                    DeploymentView {
                        status,
                        finished_at: Some(now),
                        command_log: last_bytes(log, self.max_log_bytes as nat),
                        error_message: if error is Some {
                            error
                        } else {
                            d.error_message
                        },
                        rollback_status: Some(rollback),
                        ..d
                    },
                ),
            ],
            None => Seq::empty(),
        }
    }

    /// How a deployed version is recorded: the service's state, the operation's end, and a
    /// revision to come back to.
    pub open spec fn success_change(
        self,
        id: Seq<char>,
        project_id: Seq<char>,
        service_id: Seq<char>,
        revision: ServiceRevisionView,
        log: Seq<char>,
        now: Seq<char>,
    ) -> Seq<ChangeView> {
        seq![ChangeView::PutState(deployed_state(id, project_id, service_id, revision, now))]
            + self.finish_change(id, "succeeded"@, None, "not_needed"@, log, now)
            + self.phase_change(id, "committed"@) + seq![
            ChangeView::AddRevision(
                StoredRevisionView {
                    deployment_id: id,
                    project_id,
                    service_id,
                    revision,
                    created_at: now,
                },
            ),
        ]
    }

    /// The times that the database has to read before old operations can be dropped: the given
    /// one, and when each operation began.
    pub open spec fn times_to_read(self, cutoff: Seq<char>) -> Seq<Seq<char>> {
        seq![cutoff] + self.deployments.map_values(|d: DeploymentView| d.started_at)
    }

    /// The finished operations that began before a point in time, by what the database reads of
    /// the times.
    pub open spec fn old_ids(
        self,
        cutoff: Seq<char>,
        times: Seq<(Seq<char>, Option<Seq<char>>)>,
    ) -> Seq<Seq<char>> {
        deployment_ids(
            self.deployments.filter(
                |d: DeploymentView| !is_active(d) && started_before(d, cutoff, times),
            ),
        )
    }

    /// The newest operations, no more than `limit` and no more than the history keeps.
    pub open spec fn newest(self, limit: u32) -> Seq<DeploymentSummaryView> {
        let sorted = ordered::ranked::<Deployment>(self.deployments).map_values(
            |d: DeploymentView| summary_of(d),
        );
        let most = if limit < self.history_limit {
            limit
        } else {
            self.history_limit
        };
        if sorted.len() <= most {
            sorted
        } else {
            sorted.take(most as int)
        }
    }

    /// The unfinished operations, the oldest first.
    pub open spec fn unfinished(self) -> Seq<(DeploymentView, DeploymentArtifactView)> {
        with_artifacts(
            ordered::ranked::<Deployment>(
                self.deployments.filter(|d: DeploymentView| is_active(d)),
            ).reverse(),
            self.artifacts,
        )
    }
}

pub open spec fn deployed_state(
    id: Seq<char>,
    project_id: Seq<char>,
    service_id: Seq<char>,
    revision: ServiceRevisionView,
    now: Seq<char>,
) -> ServiceStateView {
    ServiceStateView {
        project_id,
        service_id,
        desired_version: revision.version,
        image: revision.image,
        pinned_image: revision.pinned_image,
        image_digest: revision.image_digest,
        image_id: revision.image_id,
        updated_at: now,
        last_deployment_id: id,
    }
}

pub proof fn lemma_apply_all_append(s: StorageView, a: Seq<ChangeView>, b: Seq<ChangeView>)
    ensures
        s.apply_all(a + b) == s.apply_all(a).apply_all(b),
    decreases b.len(),
{
    if b.len() == 0 {
        assert(a + b =~= a);
    } else {
        assert((a + b).drop_last() =~= a + b.drop_last());
        lemma_apply_all_append(s, a, b.drop_last());
    }
}

fn id_key(id: &str) -> (r: Vec<String>)
    ensures
        r.deep_view() == seq![id@],
{
    let r = text::list_of(&[id]);
    proof {
        assert(r.deep_view() =~= seq![id@]);
    }
    r
}

fn one_change(change: Change) -> (r: Vec<Change>)
    ensures
        r.deep_view() == seq![change.deep_view()],
{
    let mut r: Vec<Change> = Vec::new();
    let ghost value = change.deep_view();
    r.push(change);
    proof {
        assert(r.deep_view() =~= seq![value]);
    }
    r
}

fn no_change() -> (r: Vec<Change>)
    ensures
        r.deep_view() == Seq::<ChangeView>::empty(),
{
    let r: Vec<Change> = Vec::new();
    proof {
        assert(r.deep_view() =~= Seq::<ChangeView>::empty());
    }
    r
}

fn append_changes(list: &mut Vec<Change>, more: Vec<Change>)
    ensures
        final(list).deep_view() == old(list).deep_view() + more.deep_view(),
{
    let ghost a = list.deep_view();
    let ghost b = more.deep_view();
    let mut rest = more;
    list.append(&mut rest);
    proof {
        assert(list.deep_view() =~= a + b);
    }
}

impl Storage {
    /// The tables with the rows that were kept.
    pub fn open(
        states: Vec<ServiceState>,
        deployments: Vec<Deployment>,
        artifacts: Vec<StoredArtifact>,
        revisions: Vec<StoredRevision>,
        history_limit: u32,
        max_log_bytes: usize,
    ) -> (r: Self)
        ensures
            r.deep_view() == (StorageView {
                states: states.deep_view(),
                deployments: deployments.deep_view(),
                artifacts: artifacts.deep_view(),
                revisions: revisions.deep_view(),
                history_limit,
                max_log_bytes,
            }),
    {
        Storage { states, deployments, artifacts, revisions, history_limit, max_log_bytes }
    }

    /// Applies one change.
    pub fn apply(&mut self, change: &Change)
        ensures
            final(self).deep_view() == old(self).deep_view().apply(change.deep_view()),
    {
        match change {
            Change::PutDeployment(d) => table::put_row(&mut self.deployments, d.duplicate()),
            Change::PutArtifact(a) => table::put_row(&mut self.artifacts, a.duplicate()),
            Change::PutState(s) => table::put_row(&mut self.states, s.duplicate()),
            Change::AddRevision(r) => {
                let ghost before = self.revisions.deep_view();
                self.revisions.push(r.duplicate());
                proof {
                    assert(self.revisions.deep_view() =~= before.push(r.deep_view()));
                }
            },
            Change::RemoveDeployment(id) => {
                let key = id_key(id.as_str());
                self.deployments = table::remove_key(&self.deployments, &key);
                self.artifacts = table::remove_key(&self.artifacts, &key);
            },
        }
    }

    /// Applies changes in their order.
    pub fn apply_all(&mut self, changes: &Vec<Change>)
        ensures
            final(self).deep_view() == old(self).deep_view().apply_all(changes.deep_view()),
    {
        let ghost all = changes.deep_view();
        let mut i: usize = 0;
        while i < changes.len()
            invariant
                i <= changes@.len(),
                all == changes.deep_view(),
                self.deep_view() == old(self).deep_view().apply_all(all.take(i as int)),
            decreases changes@.len() - i,
        {
            self.apply(&changes[i]);
            proof {
                assert(all.take(i + 1).drop_last() =~= all.take(i as int));
                assert(all.take(i + 1).last() == changes@[i as int].deep_view());
            }
            i = i + 1;
        }
        proof {
            assert(all.take(i as int) =~= all);
        }
    }

    /// What the services of a project should run, by their names.
    pub fn states(&self, project_id: &str) -> (r: Vec<ServiceState>)
        ensures
            r.deep_view() == self.deep_view().states_of(project_id@),
    {
        let ghost all = self.states.deep_view();
        let ghost pred = |s: ServiceStateView| s.project_id == project_id@;
        let mut out: Vec<ServiceState> = Vec::new();
        let mut i: usize = 0;
        proof {
            reveal(Seq::filter);
            assert(out.deep_view() =~= all.take(0).filter(pred));
        }
        while i < self.states.len()
            invariant
                i <= self.states@.len(),
                all == self.states.deep_view(),
                pred == (|s: ServiceStateView| s.project_id == project_id@),
                out.deep_view() == all.take(i as int).filter(pred),
            decreases self.states@.len() - i,
        {
            let ghost before = out.deep_view();
            proof {
                reveal(Seq::filter);
                assert(all.take(i + 1).drop_last() =~= all.take(i as int));
                assert(all.take(i + 1).last() == self.states@[i as int].deep_view());
            }
            if text::same(self.states[i].project_id.as_str(), project_id) {
                out.push(self.states[i].duplicate());
                proof {
                    assert(out.deep_view() =~= before.push(self.states@[i as int].deep_view()));
                }
            }
            i = i + 1;
        }
        proof {
            assert(all.take(i as int) =~= all);
        }
        ordered::sort(&out)
    }

    /// What a service should run.
    pub fn state(&self, project_id: &str, service_id: &str) -> (r: Option<ServiceState>)
        ensures
            r.deep_view() == self.deep_view().state(project_id@, service_id@),
    {
        let key = text::list_of(&[project_id, service_id]);
        proof {
            assert(key.deep_view() =~= seq![project_id@, service_id@]);
        }
        match table::find_row(&self.states, &key) {
            Some(found) => Some(found.duplicate()),
            None => None,
        }
    }

    pub fn deployment(&self, id: &str) -> (r: Option<Deployment>)
        ensures
            r.deep_view() == self.deep_view().deployment(id@),
    {
        match table::find_row(&self.deployments, &id_key(id)) {
            Some(found) => Some(found.duplicate()),
            None => None,
        }
    }

    fn stored_artifact(&self, id: &str) -> (r: Option<StoredArtifact>)
        ensures
            r.deep_view() == self.deep_view().stored_artifact(id@),
    {
        match table::find_row(&self.artifacts, &id_key(id)) {
            Some(found) => Some(found.duplicate()),
            None => None,
        }
    }

    /// How far a deployment has come.
    pub fn artifact(&self, id: &str) -> (r: Option<DeploymentArtifact>)
        ensures
            r.deep_view() == (match self.deep_view().stored_artifact(id@) {
                Some(found) => Some(found.artifact),
                None => None,
            }),
    {
        match self.stored_artifact(id) {
            Some(found) => Some(found.artifact),
            None => None,
        }
    }

    /// The operations that are active, or those that are not.
    fn select(&self, wanted: bool) -> (r: Vec<Deployment>)
        ensures
            r.deep_view() == self.deep_view().deployments.filter(
                |d: DeploymentView| is_active(d) == wanted,
            ),
    {
        let ghost all = self.deployments.deep_view();
        let ghost pred = |d: DeploymentView| is_active(d) == wanted;
        let mut out: Vec<Deployment> = Vec::new();
        let mut i: usize = 0;
        proof {
            reveal(Seq::filter);
            assert(out.deep_view() =~= all.take(0).filter(pred));
        }
        while i < self.deployments.len()
            invariant
                i <= self.deployments@.len(),
                all == self.deployments.deep_view(),
                pred == (|d: DeploymentView| is_active(d) == wanted),
                out.deep_view() == all.take(i as int).filter(pred),
            decreases self.deployments@.len() - i,
        {
            let d = &self.deployments[i];
            let ghost before = out.deep_view();
            proof {
                reveal(Seq::filter);
                assert(all.take(i + 1).drop_last() =~= all.take(i as int));
                assert(all.take(i + 1).last() == d.deep_view());
            }
            if active(d) == wanted {
                out.push(d.duplicate());
                proof {
                    assert(out.deep_view() =~= before.push(d.deep_view()));
                }
            }
            i = i + 1;
        }
        proof {
            assert(all.take(i as int) =~= all);
        }
        out
    }

    /// The changes that bring the history back to its limit.
    fn prune(&self) -> (r: Vec<Change>)
        ensures
            r.deep_view() == removals(self.deep_view().expired()),
    {
        let finished = self.select(false);
        proof {
            assert(self.deep_view().deployments.filter(
                |d: DeploymentView| is_active(d) == false,
            ) == self.deep_view().deployments.filter(|d: DeploymentView| !is_active(d))) by {
                lemma_filter_same(
                    self.deep_view().deployments,
                    |d: DeploymentView| is_active(d) == false,
                    |d: DeploymentView| !is_active(d),
                );
            }
        }
        let sorted = ordered::sort(&finished);
        let ghost list = sorted.deep_view();
        let mut out: Vec<Change> = Vec::new();
        if sorted.len() as u64 <= self.history_limit as u64 {
            proof {
                assert(out.deep_view() =~= removals(self.deep_view().expired()));
            }
            return out;
        }
        let mut i: usize = self.history_limit as usize;
        while i < sorted.len()
            invariant
                self.history_limit <= i <= sorted@.len(),
                out@.len() == i - self.history_limit,
                forall|j: int|
                    0 <= j < out@.len() ==> #[trigger] out@[j].deep_view()
                        == ChangeView::RemoveDeployment(sorted@[j + self.history_limit].id@),
            decreases sorted@.len() - i,
        {
            out.push(Change::RemoveDeployment(sorted[i].id.clone()));
            i = i + 1;
        }
        proof {
            let expected = removals(self.deep_view().expired());
            assert forall|j: int| 0 <= j < out@.len() implies out.deep_view()[j]
                == expected[j] by {
                assert(out@[j].deep_view() == ChangeView::RemoveDeployment(
                    sorted@[j + self.history_limit].id@,
                ));
                assert(list.skip(self.history_limit as int)[j] == list[j + self.history_limit]);
                assert(list[j + self.history_limit] == sorted@[j
                    + self.history_limit].deep_view());
            }
            assert(out.deep_view() =~= expected);
        }
        out
    }

    /// Records an operation that was asked for, and drops what the history has no room for.
    pub fn create_deployment(&mut self, d: &Deployment) -> (r: Result<Vec<Change>, String>)
        ensures
            match r {
                Ok(changes) => {
                    &&& old(self).deep_view().deployment(d.id@) is None
                    &&& changes.deep_view() == old(self).deep_view().creation(d.deep_view())
                    &&& final(self).deep_view() == old(self).deep_view().apply_all(
                        changes.deep_view(),
                    )
                },
                Err(message) => {
                    &&& old(self).deep_view().deployment(d.id@) is Some
                    &&& message@ == "操作记录已存在: "@ + d.id@
                    &&& final(self).deep_view() == old(self).deep_view()
                },
            },
    {
        if self.deployment(d.id.as_str()).is_some() {
            return Err(text::joined2("操作记录已存在: ", d.id.as_str()));
        }
        let mut record = d.duplicate();
        record.finished_at = None;
        record.error_message = None;
        record.rollback_status = None;
        let artifact = StoredArtifact {
            deployment_id: d.id.clone(),
            artifact: DeploymentArtifact {
                phase: "queued".to_owned(),
                target_image: None,
                target_pinned_image: None,
                target_digest: None,
                target_image_id: None,
            },
        };
        let mut changes = one_change(Change::PutDeployment(record));
        append_changes(&mut changes, one_change(Change::PutArtifact(artifact)));
        proof {
            assert(changes.deep_view() =~= old(self).deep_view().created(d.deep_view()));
        }
        self.apply_all(&changes);
        let pruned = self.prune();
        self.apply_all(&pruned);
        proof {
            lemma_apply_all_append(
                old(self).deep_view(),
                changes.deep_view(),
                pruned.deep_view(),
            );
        }
        append_changes(&mut changes, pruned);
        Ok(changes)
    }

    /// Records how far a deployment has come.
    pub fn set_phase(&mut self, id: &str, phase: &str) -> (r: Vec<Change>)
        ensures
            r.deep_view() == old(self).deep_view().phase_change(id@, phase@),
            final(self).deep_view() == old(self).deep_view().apply_all(r.deep_view()),
    {
        let changes = match self.stored_artifact(id) {
            Some(mut found) => {
                found.artifact.phase = phase.to_owned();
                one_change(Change::PutArtifact(found))
            },
            None => no_change(),
        };
        self.apply_all(&changes);
        changes
    }

    /// Records the image that a deployment is about to run.
    pub fn set_target_artifact(
        &mut self,
        id: &str,
        image: &str,
        pinned_image: &str,
        digest: &str,
        image_id: &str,
    ) -> (r: Vec<Change>)
        ensures
            r.deep_view() == old(self).deep_view().target_change(
                id@,
                image@,
                pinned_image@,
                digest@,
                image_id@,
            ),
            final(self).deep_view() == old(self).deep_view().apply_all(r.deep_view()),
    {
        let changes = match self.stored_artifact(id) {
            Some(found) => one_change(
                Change::PutArtifact(
                    StoredArtifact {
                        deployment_id: found.deployment_id,
                        artifact: DeploymentArtifact {
                            phase: found.artifact.phase,
                            target_image: Some(image.to_owned()),
                            target_pinned_image: Some(pinned_image.to_owned()),
                            target_digest: Some(digest.to_owned()),
                            target_image_id: Some(image_id.to_owned()),
                        },
                    },
                ),
            ),
            None => no_change(),
        };
        self.apply_all(&changes);
        changes
    }

    /// Records that an operation has begun.
    pub fn mark_running(&mut self, id: &str) -> (r: Vec<Change>)
        ensures
            r.deep_view() == old(self).deep_view().running_change(id@),
            final(self).deep_view() == old(self).deep_view().apply_all(r.deep_view()),
    {
        let changes = match self.deployment(id) {
            Some(mut d) => {
                if text::same(d.status.as_str(), "queued") {
                    d.status = "running".to_owned();
                    one_change(Change::PutDeployment(d))
                } else {
                    no_change()
                }
            },
            None => no_change(),
        };
        self.apply_all(&changes);
        changes
    }

    fn finish(
        &self,
        id: &str,
        status: &str,
        error: Option<String>,
        rollback: &str,
        log: &str,
        now: &str,
    ) -> (r: Vec<Change>)
        ensures
            r.deep_view() == self.deep_view().finish_change(
                id@,
                status@,
                error.deep_view(),
                rollback@,
                log@,
                now@,
            ),
    {
        match self.deployment(id) {
            Some(mut d) => {
                d.status = status.to_owned();
                d.finished_at = Some(now.to_owned());
                d.command_log = truncate_utf8(log, self.max_log_bytes);
                if error.is_some() {
                    d.error_message = error;
                }
                d.rollback_status = Some(rollback.to_owned());
                one_change(Change::PutDeployment(d))
            },
            None => no_change(),
        }
    }

    /// Records that a version was deployed with success.
    pub fn finish_artifact_success(
        &mut self,
        id: &str,
        project_id: &str,
        service_id: &str,
        revision: &ServiceRevision,
        log: &str,
        now: &str,
    ) -> (r: Vec<Change>)
        ensures
            r.deep_view() == old(self).deep_view().success_change(
                id@,
                project_id@,
                service_id@,
                revision.deep_view(),
                log@,
                now@,
            ),
            final(self).deep_view() == old(self).deep_view().apply_all(r.deep_view()),
    {
        let state = ServiceState {
            project_id: project_id.to_owned(),
            service_id: service_id.to_owned(),
            desired_version: revision.version.clone(),
            image: revision.image.clone(),
            pinned_image: revision.pinned_image.clone(),
            image_digest: revision.image_digest.clone(),
            image_id: revision.image_id.clone(),
            updated_at: now.to_owned(),
            last_deployment_id: id.to_owned(),
        };
        let stored = StoredRevision {
            deployment_id: id.to_owned(),
            project_id: project_id.to_owned(),
            service_id: service_id.to_owned(),
            revision: revision.duplicate(),
            created_at: now.to_owned(),
        };
        let mut changes = one_change(Change::PutState(state));
        append_changes(&mut changes, self.finish(id, "succeeded", None, "not_needed", log, now));
        let phase = match self.stored_artifact(id) {
            Some(mut found) => {
                found.artifact.phase = "committed".to_owned();
                one_change(Change::PutArtifact(found))
            },
            None => no_change(),
        };
        append_changes(&mut changes, phase);
        append_changes(&mut changes, one_change(Change::AddRevision(stored)));
        self.apply_all(&changes);
        changes
    }

    /// The version that a service ran before: that of the last revision that is not of the
    /// current deployment.
    pub fn previous_revision(
        &self,
        project_id: &str,
        service_id: &str,
        current_deployment_id: &str,
    ) -> (r: Option<ServiceRevision>)
        ensures
            r.deep_view() == earlier_revision(
                self.deep_view().revisions,
                project_id@,
                service_id@,
                current_deployment_id@,
            ),
    {
        let ghost all = self.revisions.deep_view();
        let mut i: usize = self.revisions.len();
        proof {
            assert(all.take(i as int) =~= all);
        }
        while i > 0
            invariant
                i <= self.revisions@.len(),
                all == self.revisions.deep_view(),
                earlier_revision(
                    all.take(i as int),
                    project_id@,
                    service_id@,
                    current_deployment_id@,
                ) == earlier_revision(all, project_id@, service_id@, current_deployment_id@),
            decreases i,
        {
            let last = &self.revisions[i - 1];
            proof {
                assert(all.take(i as int).last() == last.deep_view());
                assert(all.take(i as int).drop_last() =~= all.take(i - 1));
            }
            if text::same(last.project_id.as_str(), project_id) && text::same(
                last.service_id.as_str(),
                service_id,
            ) && !text::same(last.deployment_id.as_str(), current_deployment_id) {
                return Some(last.revision.duplicate());
            }
            i = i - 1;
        }
        None
    }

    /// Records that an operation failed.
    pub fn finish_failure(&mut self, id: &str, error: &str, rollback: &str, log: &str, now: &str)
        -> (r: Vec<Change>)
        ensures
            r.deep_view() == old(self).deep_view().finish_change(
                id@,
                "failed"@,
                Some(error@),
                rollback@,
                log@,
                now@,
            ),
            final(self).deep_view() == old(self).deep_view().apply_all(r.deep_view()),
    {
        let changes = self.finish(id, "failed", Some(error.to_owned()), rollback, log, now);
        self.apply_all(&changes);
        changes
    }

    /// Records that an operation was cut off by a restart of the panel.
    pub fn finish_interrupted(
        &mut self,
        id: &str,
        error: &str,
        rollback: &str,
        log: &str,
        now: &str,
    ) -> (r: Vec<Change>)
        ensures
            r.deep_view() == old(self).deep_view().finish_change(
                id@,
                "interrupted"@,
                Some(error@),
                rollback@,
                log@,
                now@,
            ),
            final(self).deep_view() == old(self).deep_view().apply_all(r.deep_view()),
    {
        let changes = self.finish(id, "interrupted", Some(error.to_owned()), rollback, log, now);
        self.apply_all(&changes);
        changes
    }

    /// Records that an operation which deploys nothing succeeded.
    pub fn finish_operation_success(&mut self, id: &str, log: &str, now: &str) -> (r: Vec<Change>)
        ensures
            r.deep_view() == old(self).deep_view().finish_change(
                id@,
                "succeeded"@,
                None,
                "not_needed"@,
                log@,
                now@,
            ),
            final(self).deep_view() == old(self).deep_view().apply_all(r.deep_view()),
    {
        let changes = self.finish(id, "succeeded", None, "not_needed", log, now);
        self.apply_all(&changes);
        changes
    }

    /// The newest operations.
    pub fn deployments(&self, limit: u32) -> (r: Vec<DeploymentSummary>)
        ensures
            r.deep_view() == self.deep_view().newest(limit),
    {
        let most: u32 = if limit < self.history_limit {
            limit
        } else {
            self.history_limit
        };
        let sorted = ordered::sort(&self.deployments);
        let ghost list = sorted.deep_view();
        let mut out: Vec<DeploymentSummary> = Vec::new();
        let mut i: usize = 0;
        while i < sorted.len() && (i as u64) < most as u64
            invariant
                i <= sorted@.len(),
                i <= most,
                list == sorted.deep_view(),
                out@.len() == i,
                forall|j: int|
                    0 <= j < i ==> #[trigger] out@[j].deep_view() == summary_of(
                        sorted@[j].deep_view(),
                    ),
            decreases sorted@.len() - i,
        {
            let d = &sorted[i];
            out.push(
                DeploymentSummary {
                    id: d.id.clone(),
                    project_id: d.project_id.clone(),
                    service_id: d.service_id.clone(),
                    operation: d.operation.clone(),
                    previous_version: d.previous_version.duplicate(),
                    target_version: d.target_version.clone(),
                    status: d.status.clone(),
                    started_at: d.started_at.clone(),
                    finished_at: d.finished_at.duplicate(),
                    rollback_status: d.rollback_status.duplicate(),
                },
            );
            i = i + 1;
        }
        proof {
            let expected = self.deep_view().newest(limit);
            assert forall|j: int| 0 <= j < out@.len() implies out.deep_view()[j]
                == expected[j] by {
                assert(out@[j].deep_view() == summary_of(sorted@[j].deep_view()));
            }
            assert(out.deep_view() =~= expected);
        }
        out
    }

    /// The unfinished operations, the oldest first.
    pub fn active_deployments(&self) -> (r: Vec<(Deployment, DeploymentArtifact)>)
        ensures
            r.deep_view() == self.deep_view().unfinished(),
    {
        let chosen = self.select(true);
        proof {
            lemma_filter_same(
                self.deep_view().deployments,
                |d: DeploymentView| is_active(d) == true,
                |d: DeploymentView| is_active(d),
            );
        }
        let sorted = ordered::sort(&chosen);
        let ghost list = sorted.deep_view().reverse();
        let ghost artifacts = self.artifacts.deep_view();
        let mut out: Vec<(Deployment, DeploymentArtifact)> = Vec::new();
        let mut i: usize = sorted.len();
        proof {
            assert(out.deep_view() =~= with_artifacts(list.take(0), artifacts));
        }
        while i > 0
            invariant
                i <= sorted@.len(),
                list == sorted.deep_view().reverse(),
                artifacts == self.artifacts.deep_view(),
                out.deep_view() == with_artifacts(list.take(sorted@.len() - i), artifacts),
            decreases i,
        {
            let d = &sorted[i - 1];
            let ghost done = sorted@.len() - i;
            let ghost before = out.deep_view();
            proof {
                assert(list.take(done + 1).drop_last() =~= list.take(done));
                assert(list.take(done + 1).last() == d.deep_view());
            }
            if let Some(found) = self.artifact(d.id.as_str()) {
                let ghost pair = (d.deep_view(), found.deep_view());
                out.push((d.duplicate(), found));
                proof {
                    assert(out.deep_view() =~= before.push(pair));
                }
            }
            i = i - 1;
        }
        proof {
            assert(list.take(sorted@.len() as int) =~= list);
        }
        out
    }

    /// The times that the database has to read before old operations can be dropped.
    pub fn times_before(&self, cutoff: &str) -> (r: Vec<String>)
        ensures
            r.deep_view() == self.deep_view().times_to_read(cutoff@),
    {
        let ghost all = self.deep_view().times_to_read(cutoff@);
        let mut out = text::list_of(&[cutoff]);
        let mut i: usize = 0;
        proof {
            assert(out.deep_view() =~= all.take(1));
        }
        while i < self.deployments.len()
            invariant
                i <= self.deployments@.len(),
                all == self.deep_view().times_to_read(cutoff@),
                out.deep_view() == all.take(i + 1),
            decreases self.deployments@.len() - i,
        {
            let ghost before = out.deep_view();
            let ghost time = self.deployments@[i as int].started_at@;
            out.push(self.deployments[i].started_at.clone());
            proof {
                assert(all[i + 1] == time);
                assert(out.deep_view() =~= before.push(time));
                assert(out.deep_view() =~= all.take(i + 2));
            }
            i = i + 1;
        }
        proof {
            assert(all.take(i + 1) =~= all);
        }
        out
    }

    /// Drops the finished operations that began before a point in time, and says how many. `times`
    /// holds what SQLite's `datetime` makes of each time. Times are compared by that, and one that
    /// it cannot read is neither before nor after any other.
    pub fn delete_deployments_before(
        &mut self,
        cutoff: &str,
        times: &Vec<(String, Option<String>)>,
    ) -> (r: (u64, Vec<Change>))
        ensures
            r.0 == old(self).deep_view().old_ids(cutoff@, times.deep_view()).len(),
            r.1.deep_view() == removals(
                old(self).deep_view().old_ids(cutoff@, times.deep_view()),
            ),
            final(self).deep_view() == old(self).deep_view().apply_all(r.1.deep_view()),
    {
        let ghost all = self.deployments.deep_view();
        let ghost read = times.deep_view();
        let ghost pred = |d: DeploymentView| !is_active(d) && started_before(d, cutoff@, read);
        let limit = read_time(times, cutoff);
        let mut changes: Vec<Change> = Vec::new();
        let mut i: usize = 0;
        proof {
            reveal(Seq::filter);
            assert(changes.deep_view() =~= removals(deployment_ids(all.take(0).filter(pred))));
        }
        while i < self.deployments.len()
            invariant
                i <= self.deployments@.len(),
                *self == *old(self),
                all == self.deployments.deep_view(),
                read == times.deep_view(),
                pred == (|d: DeploymentView| !is_active(d) && started_before(d, cutoff@, read)),
                limit.deep_view() == time_read(read, cutoff@),
                changes@.len() <= i,
                changes.deep_view() == removals(deployment_ids(all.take(i as int).filter(pred))),
            decreases self.deployments@.len() - i,
        {
            let d = &self.deployments[i];
            let ghost before = changes.deep_view();
            let ghost kept = all.take(i as int).filter(pred);
            proof {
                reveal(Seq::filter);
                assert(all.take(i + 1).drop_last() =~= all.take(i as int));
                assert(all.take(i + 1).last() == d.deep_view());
            }
            let started = read_time(times, d.started_at.as_str());
            if outdated(d, &started, &limit) {
                let change = Change::RemoveDeployment(d.id.clone());
                changes.push(change);
                proof {
                    assert(changes.deep_view() =~= before.push(
                        ChangeView::RemoveDeployment(d.id@),
                    ));
                    assert(removals(deployment_ids(kept.push(d.deep_view()))) =~= removals(
                        deployment_ids(kept),
                    ).push(ChangeView::RemoveDeployment(d.id@)));
                }
            }
            i = i + 1;
        }
        proof {
            assert(all.take(i as int) =~= all);
            assert(changes.deep_view().len() == self.deep_view().old_ids(cutoff@, read).len());
        }
        self.apply_all(&changes);
        (changes.len() as u64, changes)
    }
}

proof fn lemma_filter_same<A>(s: Seq<A>, p: spec_fn(A) -> bool, q: spec_fn(A) -> bool)
    requires
        forall|a: A| #[trigger] p(a) == q(a),
    ensures
        s.filter(p) == s.filter(q),
    decreases s.len(),
{
    reveal(Seq::filter);
    if s.len() > 0 {
        lemma_filter_same(s.drop_last(), p, q);
    }
}

} // verus!
