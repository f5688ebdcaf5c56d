//! What holds of the records whatever is done to them.
use crate::ordered;
use crate::storage::{
    self, ChangeView, Deployment, DeploymentArtifactView, DeploymentView, ServiceRevisionView,
    ServiceState, StorageView, StoredArtifact, StoredArtifactView, StoredRevisionView,
};
use crate::table;
use vstd::prelude::*;

verus! {

/// Whether every operation has a row of its own.
pub open spec fn well_formed(s: StorageView) -> bool {
    &&& table::distinct_keys::<Deployment>(s.deployments)
    &&& table::distinct_keys::<StoredArtifact>(s.artifacts)
    &&& table::distinct_keys::<ServiceState>(s.states)
}

/// No change ever makes a second row for the same operation or the same service.
pub proof fn law_changes_keep_rows_distinct(s: StorageView, change: ChangeView)
    requires
        well_formed(s),
    ensures
        well_formed(s.apply(change)),
{
    match change {
        ChangeView::PutDeployment(d) => {
            table::law_put_keeps_keys_distinct::<Deployment>(s.deployments, d);
        },
        ChangeView::PutArtifact(a) => {
            table::law_put_keeps_keys_distinct::<StoredArtifact>(s.artifacts, a);
        },
        ChangeView::PutState(x) => {
            table::law_put_keeps_keys_distinct::<ServiceState>(s.states, x);
        },
        ChangeView::AddRevision(_) => {},
        ChangeView::RemoveDeployment(id) => {
            table::law_removal_keeps_keys_distinct::<Deployment>(s.deployments, seq![id]);
            table::law_removal_keeps_keys_distinct::<StoredArtifact>(s.artifacts, seq![id]);
        },
    }
}

/// Nor do changes one after the other.
pub proof fn law_all_changes_keep_rows_distinct(s: StorageView, changes: Seq<ChangeView>)
    requires
        well_formed(s),
    ensures
        well_formed(s.apply_all(changes)),
    decreases changes.len(),
{
    if changes.len() > 0 {
        law_all_changes_keep_rows_distinct(s, changes.drop_last());
        law_changes_keep_rows_distinct(s.apply_all(changes.drop_last()), changes.last());
    }
}

pub(crate) proof fn lemma_apply_one(s: StorageView, change: ChangeView)
    ensures
        s.apply_all(seq![change]) == s.apply(change),
{
    assert(seq![change].drop_last() =~= Seq::<ChangeView>::empty());
    assert(s.apply_all(Seq::<ChangeView>::empty()) == s);
}

/// The tables after a successful deployment.
pub open spec fn after_success(
    s: StorageView,
    id: Seq<char>,
    project_id: Seq<char>,
    service_id: Seq<char>,
    revision: ServiceRevisionView,
    log: Seq<char>,
    now: Seq<char>,
) -> StorageView {
    s.apply_all(s.success_change(id, project_id, service_id, revision, log, now))
}

pub(crate) proof fn lemma_success(
    s: StorageView,
    id: Seq<char>,
    project_id: Seq<char>,
    service_id: Seq<char>,
    revision: ServiceRevisionView,
    log: Seq<char>,
    now: Seq<char>,
)
    ensures
        after_success(s, id, project_id, service_id, revision, log, now).states == table::with_row::<
            ServiceState,
        >(s.states, storage::deployed_state(id, project_id, service_id, revision, now)),
        after_success(s, id, project_id, service_id, revision, log, now).revisions
            == s.revisions.push(
            StoredRevisionView {
                deployment_id: id,
                project_id,
                service_id,
                revision,
                created_at: now,
            },
        ),
        after_success(s, id, project_id, service_id, revision, log, now).deployments == (
        match s.deployment(id) {
            Some(d) => table::with_row::<Deployment>(
                s.deployments,
                DeploymentView {
                    status: "succeeded"@,
                    finished_at: Some(now),
                    command_log: storage::last_bytes(log, s.max_log_bytes as nat),
                    rollback_status: Some("not_needed"@),
                    ..d
                },
            ),
            None => s.deployments,
        }),
        after_success(s, id, project_id, service_id, revision, log, now).artifacts == (
        match s.stored_artifact(id) {
            Some(found) => table::with_row::<StoredArtifact>(
                s.artifacts,
                StoredArtifactView {
                    artifact: DeploymentArtifactView { phase: "committed"@, ..found.artifact },
                    ..found
                },
            ),
            None => s.artifacts,
        }),
{
    let state = ChangeView::PutState(storage::deployed_state(id, project_id, service_id, revision, now));
    let finish = s.finish_change(id, "succeeded"@, None, "not_needed"@, log, now);
    let phase = s.phase_change(id, "committed"@);
    let added = ChangeView::AddRevision(
        StoredRevisionView { deployment_id: id, project_id, service_id, revision, created_at: now },
    );
    let first = seq![state];
    storage::lemma_apply_all_append(s, first + finish + phase, seq![added]);
    storage::lemma_apply_all_append(s, first + finish, phase);
    storage::lemma_apply_all_append(s, first, finish);
    lemma_apply_one(s, state);
    let a = s.apply(state);
    if finish.len() > 0 {
        lemma_apply_one(a, finish[0]);
        assert(finish =~= seq![finish[0]]);
    } else {
        assert(finish =~= Seq::<ChangeView>::empty());
    }
    let b = a.apply_all(finish);
    if phase.len() > 0 {
        lemma_apply_one(b, phase[0]);
        assert(phase =~= seq![phase[0]]);
    } else {
        assert(phase =~= Seq::<ChangeView>::empty());
    }
    lemma_apply_one(b.apply_all(phase), added);
}

/// After a successful deployment its service should run what was deployed, and what every other
/// service should run is untouched, also that of a service of the same name in another project.
pub proof fn law_success_touches_one_service(
    s: StorageView,
    id: Seq<char>,
    project_id: Seq<char>,
    service_id: Seq<char>,
    revision: ServiceRevisionView,
    log: Seq<char>,
    now: Seq<char>,
    other_project: Seq<char>,
    other_service: Seq<char>,
)
    ensures
        after_success(s, id, project_id, service_id, revision, log, now).state(
            project_id,
            service_id,
        ) == Some(storage::deployed_state(id, project_id, service_id, revision, now)),
        other_project != project_id || other_service != service_id ==> after_success(
            s,
            id,
            project_id,
            service_id,
            revision,
            log,
            now,
        ).state(other_project, other_service) == s.state(other_project, other_service),
{
    lemma_success(s, id, project_id, service_id, revision, log, now);
    let state = storage::deployed_state(id, project_id, service_id, revision, now);
    let other = seq![other_project, other_service];
    table::law_row_is_found::<ServiceState>(s.states, state, other);
    if other_project != project_id || other_service != service_id {
        let own = seq![project_id, service_id];
        assert(other[0] == other_project && other[1] == other_service);
        assert(own[0] == project_id && own[1] == service_id);
        assert(other != own);
    }
}

/// A recorded success is read back: the operation has succeeded, needs no rollback, and keeps of
/// its log what fits.
pub proof fn law_success_is_read_back(
    s: StorageView,
    id: Seq<char>,
    project_id: Seq<char>,
    service_id: Seq<char>,
    revision: ServiceRevisionView,
    log: Seq<char>,
    now: Seq<char>,
)
    requires
        s.deployment(id) is Some,
    ensures
        after_success(s, id, project_id, service_id, revision, log, now).deployment(id) == Some(
            DeploymentView {
                status: "succeeded"@,
                finished_at: Some(now),
                command_log: storage::last_bytes(log, s.max_log_bytes as nat),
                rollback_status: Some("not_needed"@),
                ..s.deployment(id)->0
            },
        ),
        storage::utf8_len(storage::last_bytes(log, s.max_log_bytes as nat)) <= s.max_log_bytes,
{
    lemma_success(s, id, project_id, service_id, revision, log, now);
    table::lemma_row_is_in_table::<Deployment>(s.deployments, seq![id]);
    let d = s.deployment(id)->0;
    let done = DeploymentView {
        status: "succeeded"@,
        finished_at: Some(now),
        command_log: storage::last_bytes(log, s.max_log_bytes as nat),
        rollback_status: Some("not_needed"@),
        ..d
    };
    assert(seq![d.id] == seq![id]);
    table::law_row_is_found::<Deployment>(s.deployments, done, seq![id]);
    storage::law_truncated_text_fits(log, s.max_log_bytes as nat);
}

/// A recorded failure is read back, and leaves what every service should run as it was.
pub proof fn law_failure_is_read_back(
    s: StorageView,
    id: Seq<char>,
    status: Seq<char>,
    error: Seq<char>,
    rollback: Seq<char>,
    log: Seq<char>,
    now: Seq<char>,
)
    requires
        s.deployment(id) is Some,
    ensures
        s.apply_all(s.finish_change(id, status, Some(error), rollback, log, now)).deployment(id)
            == Some(
            DeploymentView {
                status,
                finished_at: Some(now),
                command_log: storage::last_bytes(log, s.max_log_bytes as nat),
                error_message: Some(error),
                rollback_status: Some(rollback),
                ..s.deployment(id)->0
            },
        ),
        s.apply_all(s.finish_change(id, status, Some(error), rollback, log, now)).states
            == s.states,
        s.apply_all(s.finish_change(id, status, Some(error), rollback, log, now)).revisions
            == s.revisions,
{
    let changes = s.finish_change(id, status, Some(error), rollback, log, now);
    lemma_apply_one(s, changes[0]);
    assert(changes =~= seq![changes[0]]);
    table::lemma_row_is_in_table::<Deployment>(s.deployments, seq![id]);
    let d = s.deployment(id)->0;
    let done = DeploymentView {
        status,
        finished_at: Some(now),
        command_log: storage::last_bytes(log, s.max_log_bytes as nat),
        error_message: Some(error),
        rollback_status: Some(rollback),
        ..d
    };
    assert(seq![d.id] == seq![id]);
    table::law_row_is_found::<Deployment>(s.deployments, done, seq![id]);
}

/// After two successful deployments of a service, the version to go back to from the second is
/// the first.
pub proof fn law_previous_revision_is_the_last_success(
    s: StorageView,
    project_id: Seq<char>,
    service_id: Seq<char>,
    first: Seq<char>,
    first_revision: ServiceRevisionView,
    first_log: Seq<char>,
    first_time: Seq<char>,
    second: Seq<char>,
    second_revision: ServiceRevisionView,
    second_log: Seq<char>,
    second_time: Seq<char>,
)
    requires
        first != second,
    ensures
        storage::earlier_revision(
            after_success(
                after_success(
                    s,
                    first,
                    project_id,
                    service_id,
                    first_revision,
                    first_log,
                    first_time,
                ),
                second,
                project_id,
                service_id,
                second_revision,
                second_log,
                second_time,
            ).revisions,
            project_id,
            service_id,
            second,
        ) == Some(first_revision),
{
    let middle = after_success(
        s,
        first,
        project_id,
        service_id,
        first_revision,
        first_log,
        first_time,
    );
    let end = after_success(
        middle,
        second,
        project_id,
        service_id,
        second_revision,
        second_log,
        second_time,
    );
    lemma_success(s, first, project_id, service_id, first_revision, first_log, first_time);
    lemma_success(middle, second, project_id, service_id, second_revision, second_log, second_time);
    assert(end.revisions.drop_last() =~= middle.revisions);
    assert(middle.revisions.last().revision == first_revision);
    assert(storage::earlier_revision(middle.revisions, project_id, service_id, second) == Some(
        first_revision,
    ));
}

/// What a service can go back to does not depend on the deployments of other services.
pub proof fn law_revisions_are_isolated(
    s: StorageView,
    id: Seq<char>,
    project_id: Seq<char>,
    service_id: Seq<char>,
    revision: ServiceRevisionView,
    log: Seq<char>,
    now: Seq<char>,
    other_project: Seq<char>,
    other_service: Seq<char>,
    current: Seq<char>,
)
    requires
        other_project != project_id || other_service != service_id,
    ensures
        storage::earlier_revision(
            after_success(s, id, project_id, service_id, revision, log, now).revisions,
            other_project,
            other_service,
            current,
        ) == storage::earlier_revision(s.revisions, other_project, other_service, current),
{
    lemma_success(s, id, project_id, service_id, revision, log, now);
    let after = after_success(s, id, project_id, service_id, revision, log, now).revisions;
    assert(after.drop_last() =~= s.revisions);
}

pub(crate) proof fn lemma_removals(s: StorageView, ids: Seq<Seq<char>>, d: DeploymentView)
    ensures
        s.apply_all(storage::removals(ids)).deployments.contains(d) <==> s.deployments.contains(d)
            && !ids.contains(d.id),
        s.apply_all(storage::removals(ids)).states == s.states,
        s.apply_all(storage::removals(ids)).revisions == s.revisions,
        s.apply_all(storage::removals(ids)).history_limit == s.history_limit,
    decreases ids.len(),
{
    let changes = storage::removals(ids);
    if ids.len() > 0 {
        let front = ids.drop_last();
        assert(storage::removals(front) =~= changes.drop_last());
        assert(changes.last() == ChangeView::RemoveDeployment(ids.last()));
        lemma_removals(s, front, d);
        let middle = s.apply_all(storage::removals(front));
        table::lemma_without_key_items::<Deployment>(middle.deployments, seq![ids.last()], d);
        assert((seq![d.id] == seq![ids.last()]) == (d.id == ids.last())) by {
            assert(seq![d.id][0] == d.id);
            assert(seq![ids.last()][0] == ids.last());
        }
        assert(ids.contains(d.id) <==> front.contains(d.id) || d.id == ids.last()) by {
            assert(ids =~= front.push(ids.last()));
            if front.contains(d.id) {
                let i = choose|i: int| 0 <= i < front.len() && front[i] == d.id;
                assert(ids[i] == d.id);
            }
            assert(ids[ids.len() - 1] == ids.last());
            if ids.contains(d.id) {
                let i = choose|i: int| 0 <= i < ids.len() && ids[i] == d.id;
                if i < front.len() {
                    assert(front[i] == d.id);
                }
            }
        }
    }
}

/// Removing finished operations never takes away one that is waiting or under way, and changes
/// neither what a service should run nor what it can go back to.
pub(crate) proof fn lemma_only_finished_are_removed(
    s: StorageView,
    chosen: Seq<DeploymentView>,
    ids: Seq<Seq<char>>,
    d: DeploymentView,
)
    requires
        well_formed(s),
        s.deployments.contains(d),
        storage::is_active(d),
        ids == storage::deployment_ids(chosen),
        forall|i: int|
            0 <= i < chosen.len() ==> s.deployments.contains(#[trigger] chosen[i]) && !storage::is_active(
                chosen[i],
            ),
    ensures
        s.apply_all(storage::removals(ids)).deployments.contains(d),
{
    lemma_removals(s, ids, d);
    if ids.contains(d.id) {
        let i = choose|i: int| 0 <= i < ids.len() && ids[i] == d.id;
        let other = chosen[i];
        assert(other.id == d.id);
        let a = choose|a: int| 0 <= a < s.deployments.len() && s.deployments[a] == other;
        let b = choose|b: int| 0 <= b < s.deployments.len() && s.deployments[b] == d;
        table::lemma_table_row_is_found::<Deployment>(s.deployments, a);
        table::lemma_table_row_is_found::<Deployment>(s.deployments, b);
        assert(seq![other.id] == seq![d.id]);
    }
}

pub(crate) proof fn lemma_filter_items(
    rows: Seq<DeploymentView>,
    p: spec_fn(DeploymentView) -> bool,
    d: DeploymentView,
)
    ensures
        rows.filter(p).contains(d) <==> rows.contains(d) && p(d),
    decreases rows.len(),
{
    reveal(Seq::filter);
    if rows.len() > 0 {
        let front = rows.drop_last();
        lemma_filter_items(front, p, d);
        lemma_push_contains(front, rows.last(), d);
        lemma_push_contains(front.filter(p), rows.last(), d);
        assert(rows =~= front.push(rows.last()));
    }
}

proof fn lemma_push_contains(rows: Seq<DeploymentView>, last: DeploymentView, d: DeploymentView)
    ensures
        rows.push(last).contains(d) <==> rows.contains(d) || d == last,
{
    let all = rows.push(last);
    assert(all[all.len() - 1] == last);
    if rows.contains(d) {
        let i = choose|i: int| 0 <= i < rows.len() && rows[i] == d;
        assert(all[i] == d);
    }
    if all.contains(d) {
        let i = choose|i: int| 0 <= i < all.len() && all[i] == d;
        if i < rows.len() {
            assert(rows[i] == d);
        }
    }
}

pub(crate) proof fn lemma_finished_in_rank(s: StorageView, i: int)
    requires
        0 <= i < ordered::ranked::<Deployment>(
            s.deployments.filter(|d: DeploymentView| !storage::is_active(d)),
        ).len(),
    ensures
        s.deployments.contains(
            ordered::ranked::<Deployment>(
                s.deployments.filter(|d: DeploymentView| !storage::is_active(d)),
            )[i],
        ),
        !storage::is_active(
            ordered::ranked::<Deployment>(
                s.deployments.filter(|d: DeploymentView| !storage::is_active(d)),
            )[i],
        ),
{
    let p = |d: DeploymentView| !storage::is_active(d);
    let finished = s.deployments.filter(p);
    let sorted = ordered::ranked::<Deployment>(finished);
    ordered::law_ranked_is_sorted::<Deployment>(finished);
    broadcast use vstd::seq_lib::group_to_multiset_ensures;

    assert(sorted.contains(sorted[i]));
    assert(sorted.to_multiset().count(sorted[i]) > 0);
    assert(finished.contains(sorted[i]));
    lemma_filter_items(s.deployments, p, sorted[i]);
}

/// Recording an operation never drops another one that is waiting or under way.
pub proof fn law_history_keeps_active_operations(
    s: StorageView,
    new: DeploymentView,
    d: DeploymentView,
)
    requires
        well_formed(s),
        s.deployments.contains(d),
        storage::is_active(d),
        d.id != new.id,
    ensures
        s.apply_all(s.creation(new)).deployment(d.id) == Some(d),
{
    let created = s.created(new);
    let middle = s.apply_all(created);
    storage::lemma_apply_all_append(s, created, storage::removals(middle.expired()));
    law_all_changes_keep_rows_distinct(s, created);
    assert(created =~= seq![created[0]] + seq![created[1]]);
    storage::lemma_apply_all_append(s, seq![created[0]], seq![created[1]]);
    lemma_apply_one(s, created[0]);
    lemma_apply_one(s.apply(created[0]), created[1]);
    let b = choose|b: int| 0 <= b < s.deployments.len() && s.deployments[b] == d;
    table::lemma_table_row_is_found::<Deployment>(s.deployments, b);
    assert(seq![d.id][0] == d.id && seq![new.id][0] == new.id);
    table::law_row_is_found::<Deployment>(s.deployments, storage::fresh(new), seq![d.id]);
    assert(middle.deployment(d.id) == Some(d));
    table::lemma_row_is_in_table::<Deployment>(middle.deployments, seq![d.id]);
    let sorted = ordered::ranked::<Deployment>(
        middle.deployments.filter(|x: DeploymentView| !storage::is_active(x)),
    );
    let chosen = if sorted.len() <= middle.history_limit {
        Seq::empty()
    } else {
        sorted.skip(middle.history_limit as int)
    };
    assert(middle.expired() =~= storage::deployment_ids(chosen));
    assert forall|i: int| 0 <= i < chosen.len() implies middle.deployments.contains(
        #[trigger] chosen[i],
    ) && !storage::is_active(chosen[i]) by {
        lemma_finished_in_rank(middle, i + middle.history_limit);
    }
    lemma_only_finished_are_removed(middle, chosen, middle.expired(), d);
    let end = middle.apply_all(storage::removals(middle.expired()));
    law_all_changes_keep_rows_distinct(middle, storage::removals(middle.expired()));
    let e = choose|e: int| 0 <= e < end.deployments.len() && end.deployments[e] == d;
    table::lemma_table_row_is_found::<Deployment>(end.deployments, e);
}

/// Recording an operation leaves no more finished ones than the history holds.
pub proof fn law_history_is_bounded(s: StorageView, new: DeploymentView)
    requires
        well_formed(s),
    ensures
        s.apply_all(s.creation(new)).deployments.filter(
            |d: DeploymentView| !storage::is_active(d),
        ).len() <= s.history_limit,
{
    let created = s.created(new);
    let middle = s.apply_all(created);
    storage::lemma_apply_all_append(s, created, storage::removals(middle.expired()));
    law_all_changes_keep_rows_distinct(s, created);
    assert(created =~= seq![created[0]] + seq![created[1]]);
    storage::lemma_apply_all_append(s, seq![created[0]], seq![created[1]]);
    lemma_apply_one(s, created[0]);
    lemma_apply_one(s.apply(created[0]), created[1]);
    assert(middle.history_limit == s.history_limit);
    let end = middle.apply_all(storage::removals(middle.expired()));
    law_all_changes_keep_rows_distinct(middle, storage::removals(middle.expired()));
    let p = |d: DeploymentView| !storage::is_active(d);
    let sorted = ordered::ranked::<Deployment>(middle.deployments.filter(p));
    let limit = s.history_limit as int;
    let left = end.deployments.filter(p);
    let kept = if sorted.len() <= limit {
        sorted
    } else {
        sorted.take(limit)
    };
    // Every finished operation that is left is one of the newest.
    assert forall|i: int| 0 <= i < left.len() implies kept.contains(#[trigger] left[i]) by {
        let d = left[i];
        lemma_filter_items(end.deployments, p, d);
        assert(left.contains(d));
        lemma_removals(middle, middle.expired(), d);
        lemma_filter_items(middle.deployments, p, d);
        assert(middle.deployments.filter(p).contains(d));
        ordered::law_ranked_is_sorted::<Deployment>(middle.deployments.filter(p));
        broadcast use vstd::seq_lib::group_to_multiset_ensures;

        assert(middle.deployments.filter(p).to_multiset().count(d) > 0);
        assert(sorted.contains(d));
        let k = choose|k: int| 0 <= k < sorted.len() && sorted[k] == d;
        if sorted.len() > limit {
            if k >= limit {
                assert(middle.expired()[k - limit] == d.id);
                assert(middle.expired().contains(d.id));
            }
            assert(kept[k] == d);
        }
    }
    // They are all different.
    assert(left.no_duplicates()) by {
        lemma_filter_distinct(end.deployments, p);
    }
    left.unique_seq_to_set();
    kept.lemma_cardinality_of_set();
    assert(left.to_set().subset_of(kept.to_set())) by {
        assert forall|d: DeploymentView| left.to_set().contains(d) implies kept.to_set().contains(
            d,
        ) by {
            let i = choose|i: int| 0 <= i < left.len() && left[i] == d;
            assert(kept.contains(left[i]));
        }
    }
    vstd::set_lib::lemma_len_subset(left.to_set(), kept.to_set());
}

proof fn lemma_filter_distinct(rows: Seq<DeploymentView>, p: spec_fn(DeploymentView) -> bool)
    requires
        table::distinct_keys::<Deployment>(rows),
    ensures
        rows.filter(p).no_duplicates(),
    decreases rows.len(),
{
    reveal(Seq::filter);
    if rows.len() > 0 {
        let front = rows.drop_last();
        assert forall|i: int, j: int| 0 <= i < j < front.len() implies <Deployment as table::Keyed>::key(
            #[trigger] front[i],
        ) != <Deployment as table::Keyed>::key(#[trigger] front[j]) by {
            assert(<Deployment as table::Keyed>::key(rows[i])
                != <Deployment as table::Keyed>::key(rows[j]));
        }
        lemma_filter_distinct(front, p);
        let kept = front.filter(p);
        if p(rows.last()) {
            assert forall|i: int| 0 <= i < kept.len() implies kept[i] != rows.last() by {
                lemma_filter_items(front, p, kept[i]);
                assert(kept.contains(kept[i]));
                let k = choose|k: int| 0 <= k < front.len() && front[k] == kept[i];
                assert(<Deployment as table::Keyed>::key(rows[k])
                    != <Deployment as table::Keyed>::key(rows[rows.len() - 1]));
            }
        }
    }
}

/// Deleting old history takes away exactly the finished operations that began before the given
/// time, and nothing else, whatever the database makes of the times.
pub proof fn law_only_old_finished_operations_are_deleted(
    s: StorageView,
    cutoff: Seq<char>,
    times: Seq<(Seq<char>, Option<Seq<char>>)>,
    d: DeploymentView,
)
    requires
        well_formed(s),
        s.deployments.contains(d),
    ensures
        s.apply_all(storage::removals(s.old_ids(cutoff, times))).deployments.contains(d) <==> storage::is_active(d)
            || !storage::started_before(d, cutoff, times),
        s.apply_all(storage::removals(s.old_ids(cutoff, times))).states == s.states,
        s.apply_all(storage::removals(s.old_ids(cutoff, times))).revisions == s.revisions,
{
    let p = |x: DeploymentView| !storage::is_active(x) && storage::started_before(x, cutoff, times);
    let chosen = s.deployments.filter(p);
    let ids = s.old_ids(cutoff, times);
    lemma_removals(s, ids, d);
    let b = choose|b: int| 0 <= b < s.deployments.len() && s.deployments[b] == d;
    if p(d) {
        lemma_filter_items(s.deployments, p, d);
        let k = choose|k: int| 0 <= k < chosen.len() && chosen[k] == d;
        assert(ids[k] == d.id);
    } else if ids.contains(d.id) {
        let i = choose|i: int| 0 <= i < ids.len() && ids[i] == d.id;
        let other = chosen[i];
        assert(other.id == d.id);
        lemma_filter_items(s.deployments, p, other);
        assert(chosen.contains(other));
        let a = choose|a: int| 0 <= a < s.deployments.len() && s.deployments[a] == other;
        table::lemma_table_row_is_found::<Deployment>(s.deployments, a);
        table::lemma_table_row_is_found::<Deployment>(s.deployments, b);
        assert(seq![other.id] == seq![d.id]);
    }
}

/// Which operations are old depends on nothing but what the database makes of the times that it is
/// asked for.
pub proof fn law_only_the_asked_times_count(
    s: StorageView,
    cutoff: Seq<char>,
    a: Seq<(Seq<char>, Option<Seq<char>>)>,
    b: Seq<(Seq<char>, Option<Seq<char>>)>,
)
    requires
        forall|i: int|
            0 <= i < s.times_to_read(cutoff).len() ==> storage::time_read(
                a,
                #[trigger] s.times_to_read(cutoff)[i],
            ) == storage::time_read(b, s.times_to_read(cutoff)[i]),
    ensures
        s.old_ids(cutoff, a) == s.old_ids(cutoff, b),
{
    let asked = s.times_to_read(cutoff);
    let p = |d: DeploymentView| !storage::is_active(d) && storage::started_before(d, cutoff, a);
    let q = |d: DeploymentView| !storage::is_active(d) && storage::started_before(d, cutoff, b);
    assert(asked[0] == cutoff);
    assert forall|i: int| 0 <= i < s.deployments.len() implies p(#[trigger] s.deployments[i]) == q(
        s.deployments[i],
    ) by {
        assert(asked[i + 1] == s.deployments[i].started_at);
    }
    lemma_filter_agrees(s.deployments, p, q);
}

proof fn lemma_filter_agrees(
    rows: Seq<DeploymentView>,
    p: spec_fn(DeploymentView) -> bool,
    q: spec_fn(DeploymentView) -> bool,
)
    requires
        forall|i: int| 0 <= i < rows.len() ==> p(#[trigger] rows[i]) == q(rows[i]),
    ensures
        rows.filter(p) == rows.filter(q),
    decreases rows.len(),
{
    reveal(Seq::filter);
    if rows.len() > 0 {
        let front = rows.drop_last();
        assert forall|i: int| 0 <= i < front.len() implies p(#[trigger] front[i]) == q(front[i]) by {
            assert(front[i] == rows[i]);
        }
        lemma_filter_agrees(front, p, q);
        assert(rows[rows.len() - 1] == rows.last());
    }
}

/// An operation that was recorded is found, waiting to begin.
pub proof fn law_created_operation_is_found(s: StorageView, new: DeploymentView)
    requires
        well_formed(s),
        new.status == "queued"@,
    ensures
        s.apply_all(s.creation(new)).deployment(new.id) == Some(storage::fresh(new)),
        s.apply_all(s.creation(new)).states == s.states,
        s.apply_all(s.creation(new)).revisions == s.revisions,
{
    let created = s.created(new);
    let middle = s.apply_all(created);
    let d = storage::fresh(new);
    storage::lemma_apply_all_append(s, created, storage::removals(middle.expired()));
    law_all_changes_keep_rows_distinct(s, created);
    assert(created =~= seq![created[0]] + seq![created[1]]);
    storage::lemma_apply_all_append(s, seq![created[0]], seq![created[1]]);
    lemma_apply_one(s, created[0]);
    lemma_apply_one(s.apply(created[0]), created[1]);
    table::law_row_is_found::<Deployment>(s.deployments, d, seq![new.id]);
    assert(middle.deployment(new.id) == Some(d));
    table::lemma_row_is_in_table::<Deployment>(middle.deployments, seq![new.id]);
    let sorted = ordered::ranked::<Deployment>(
        middle.deployments.filter(|x: DeploymentView| !storage::is_active(x)),
    );
    let chosen = if sorted.len() <= middle.history_limit {
        Seq::empty()
    } else {
        sorted.skip(middle.history_limit as int)
    };
    assert(middle.expired() =~= storage::deployment_ids(chosen));
    assert forall|i: int| 0 <= i < chosen.len() implies middle.deployments.contains(
        #[trigger] chosen[i],
    ) && !storage::is_active(chosen[i]) by {
        lemma_finished_in_rank(middle, i + middle.history_limit);
    }
    lemma_only_finished_are_removed(middle, chosen, middle.expired(), d);
    lemma_removals(middle, middle.expired(), d);
    let end = middle.apply_all(storage::removals(middle.expired()));
    law_all_changes_keep_rows_distinct(middle, storage::removals(middle.expired()));
    let e = choose|e: int| 0 <= e < end.deployments.len() && end.deployments[e] == d;
    table::lemma_table_row_is_found::<Deployment>(end.deployments, e);
}

/// Whether a change leaves alone what services should run and what they can go back to.
pub open spec fn keeps_versions(change: ChangeView) -> bool {
    !(change is PutState) && !(change is AddRevision)
}

/// Changes to operations leave alone what services should run and what they can go back to.
pub proof fn law_operations_keep_versions(s: StorageView, changes: Seq<ChangeView>)
    requires
        forall|i: int| 0 <= i < changes.len() ==> keeps_versions(#[trigger] changes[i]),
    ensures
        s.apply_all(changes).states == s.states,
        s.apply_all(changes).revisions == s.revisions,
    decreases changes.len(),
{
    if changes.len() > 0 {
        let front = changes.drop_last();
        assert forall|i: int| 0 <= i < front.len() implies keeps_versions(#[trigger] front[i]) by {
            assert(keeps_versions(changes[i]));
        }
        law_operations_keep_versions(s, front);
        assert(keeps_versions(changes[changes.len() - 1]));
    }
}

} // verus!
