//! What is kept of the operations, for how long, and in which order they are listed.
use crate::ordered;
use crate::storage::{
    self, ChangeView, Deployment, DeploymentArtifactView, DeploymentSummaryView, DeploymentView,
    ServiceState, ServiceStateView, StorageView, StoredArtifact, StoredArtifactView,
    StoredRevisionView,
};
use crate::storage_laws;
use crate::table;
use vstd::prelude::*;

verus! {

/// The size of a text is the number of bytes of its UTF-8 form.
pub proof fn law_sizes_are_counted_in_bytes(s: Seq<char>)
    ensures
        storage::utf8_len(s) == vstd::utf8::encode_utf8(s).len(),
    decreases s.len(),
{
    if s.len() > 0 {
        law_sizes_are_counted_in_bytes(s.drop_first());
        lemma_width(s[0]);
    }
}

proof fn lemma_width(c: char)
    ensures
        storage::char_width(c) == vstd::utf8::encode_scalar(c as u32).len(),
{
    broadcast use vstd::utf8::char_is_scalar;

}

/// What is kept of a text that is too long is the longest ending of it that fits.
pub proof fn law_as_much_as_fits_is_kept(s: Seq<char>, max: nat)
    ensures
        ({
            let kept = storage::last_bytes(s, max);
            &&& kept.len() <= s.len()
            &&& kept == s.skip(s.len() - kept.len())
            &&& vstd::utf8::encode_utf8(kept).len() <= max
            &&& kept.len() < s.len() ==> vstd::utf8::encode_utf8(
                s.skip(s.len() - kept.len() - 1),
            ).len() > max
        }),
    decreases s.len(),
{
    let kept = storage::last_bytes(s, max);
    storage::law_truncated_text_fits(s, max);
    law_sizes_are_counted_in_bytes(kept);
    if kept.len() < s.len() {
        let rest = s.drop_first();
        law_as_much_as_fits_is_kept(rest, max);
        let more = s.skip(s.len() - kept.len() - 1);
        if kept.len() < rest.len() {
            assert(rest.skip(rest.len() - kept.len() - 1) =~= more);
        } else {
            assert(more =~= s);
            law_sizes_are_counted_in_bytes(s);
        }
    }
}

/// An operation is waiting or under way exactly where its status says so.
pub proof fn law_active_operations(d: DeploymentView)
    ensures
        storage::is_active(d) <==> d.status == "queued"@ || d.status == "running"@,
{
}

proof fn lemma_newest_first(rows: Seq<DeploymentView>, i: int, j: int)
    requires
        0 <= i < j < ordered::ranked::<Deployment>(rows).len(),
    ensures
        !ordered::precedes(
            ordered::ranked::<Deployment>(rows)[i].started_at,
            ordered::ranked::<Deployment>(rows)[j].started_at,
        ),
{
    let later = |a: DeploymentView, b: DeploymentView|
        ordered::precedes(b.started_at, a.started_at);
    assert forall|a: DeploymentView, b: DeploymentView| #[trigger] later(
        a,
        b,
    ) implies <Deployment as ordered::Ranked>::before(a, b)
        && !<Deployment as ordered::Ranked>::before(b, a) by {
        ordered::lemma_precedes_asymmetric(b.started_at, a.started_at);
    }
    assert forall|a: DeploymentView, b: DeploymentView, c: DeploymentView|
        !(#[trigger] later(b, a)) && !(#[trigger] later(c, b)) implies !later(c, a) by {
        ordered::lemma_precedes_ranks(a.started_at, b.started_at, c.started_at);
    }
    ordered::law_ranked_respects_coarser_orders::<Deployment>(rows, later);
    let sorted = ordered::ranked::<Deployment>(rows);
    assert(!later(sorted[j], sorted[i]));
}

proof fn lemma_same_rows(rows: Seq<DeploymentView>, d: DeploymentView)
    ensures
        ordered::ranked::<Deployment>(rows).contains(d) <==> rows.contains(d),
        ordered::ranked::<Deployment>(rows).len() == rows.len(),
{
    broadcast use vstd::seq_lib::group_to_multiset_ensures;

    ordered::law_ranked_is_sorted::<Deployment>(rows);
    assert(ordered::ranked::<Deployment>(rows).to_multiset().count(d) == rows.to_multiset().count(d));
}

/// The operations are listed with the newest first, as many as are asked for and the history holds;
/// where not all of them are listed, none that is left out is newer than one that is listed.
pub proof fn law_newest_operations_are_listed(
    s: StorageView,
    limit: u32,
    i: int,
    j: int,
    d: DeploymentView,
)
    requires
        0 <= i < j < s.newest(limit).len(),
        s.deployments.contains(d),
    ensures
        ({
            let list = s.newest(limit);
            let most = if limit < s.history_limit {
                limit as int
            } else {
                s.history_limit as int
            };
            let listed = DeploymentSummaryView {
                id: d.id,
                project_id: d.project_id,
                service_id: d.service_id,
                operation: d.operation,
                previous_version: d.previous_version,
                target_version: d.target_version,
                status: d.status,
                started_at: d.started_at,
                finished_at: d.finished_at,
                rollback_status: d.rollback_status,
            };
            &&& list.len() == (if s.deployments.len() < most {
                s.deployments.len() as int
            } else {
                most
            })
            &&& !ordered::precedes(list[i].started_at, list[j].started_at)
            &&& list.contains(listed) || !ordered::precedes(list[j].started_at, d.started_at)
        }),
{
    let sorted = ordered::ranked::<Deployment>(s.deployments);
    let list = s.newest(limit);
    lemma_same_rows(s.deployments, d);
    lemma_newest_first(s.deployments, i, j);
    assert(list[i] == storage::summary_of(sorted[i]));
    assert(list[j] == storage::summary_of(sorted[j]));
    let k = choose|k: int| 0 <= k < sorted.len() && sorted[k] == d;
    if k < list.len() {
        assert(list[k] == storage::summary_of(d));
    } else {
        lemma_newest_first(s.deployments, j, k);
    }
}

/// What is listed of an operation is what is recorded of it.
pub proof fn law_listed_operations_are_recorded(s: StorageView, limit: u32, i: int)
    requires
        0 <= i < s.newest(limit).len(),
    ensures
        exists|k: int|
            0 <= k < s.deployments.len() && s.newest(limit)[i] == (DeploymentSummaryView {
                id: (#[trigger] s.deployments[k]).id,
                project_id: s.deployments[k].project_id,
                service_id: s.deployments[k].service_id,
                operation: s.deployments[k].operation,
                previous_version: s.deployments[k].previous_version,
                target_version: s.deployments[k].target_version,
                status: s.deployments[k].status,
                started_at: s.deployments[k].started_at,
                finished_at: s.deployments[k].finished_at,
                rollback_status: s.deployments[k].rollback_status,
            }),
{
    let sorted = ordered::ranked::<Deployment>(s.deployments);
    lemma_same_rows(s.deployments, sorted[i]);
    assert(sorted.contains(sorted[i]));
    assert(s.newest(limit)[i] == storage::summary_of(sorted[i]));
    let k = choose|k: int| 0 <= k < s.deployments.len() && s.deployments[k] == sorted[i];
    assert(s.deployments[k] == sorted[i]);
}

/// An operation is dropped from the history only where as many finished ones as it holds are at
/// least as new: nothing that is dropped is newer than a finished one that is kept, and nothing is
/// dropped while all fit.
pub proof fn law_the_oldest_operations_are_dropped(
    s: StorageView,
    gone: DeploymentView,
    kept: DeploymentView,
)
    requires
        storage_laws::well_formed(s),
        s.deployments.contains(gone),
        s.expired().contains(gone.id),
        s.deployments.contains(kept),
        !storage::is_active(kept),
        !s.expired().contains(kept.id),
    ensures
        !storage::is_active(gone),
        !ordered::precedes(kept.started_at, gone.started_at),
        s.deployments.filter(|d: DeploymentView| !storage::is_active(d)).len() > s.history_limit,
{
    let p = |d: DeploymentView| !storage::is_active(d);
    let finished = s.deployments.filter(p);
    let sorted = ordered::ranked::<Deployment>(finished);
    let limit = s.history_limit as int;
    lemma_same_rows(finished, kept);
    assert(sorted.len() > limit);
    let chosen = sorted.skip(limit);
    let ids = storage::deployment_ids(chosen);
    let g = choose|g: int| 0 <= g < ids.len() && ids[g] == gone.id;
    assert(chosen[g] == sorted[limit + g]);
    storage_laws::lemma_finished_in_rank(s, limit + g);
    let other = sorted[limit + g];
    assert(other.id == gone.id);
    lemma_same_row(s, other, gone);
    storage_laws::lemma_filter_items(s.deployments, p, kept);
    let k = choose|k: int| 0 <= k < sorted.len() && sorted[k] == kept;
    if k >= limit {
        assert(ids[k - limit] == kept.id);
        assert(ids.contains(kept.id));
    }
    lemma_newest_first(finished, k, limit + g);
}

proof fn lemma_same_row(s: StorageView, a: DeploymentView, b: DeploymentView)
    requires
        storage_laws::well_formed(s),
        s.deployments.contains(a),
        s.deployments.contains(b),
        a.id == b.id,
    ensures
        a == b,
{
    let i = choose|i: int| 0 <= i < s.deployments.len() && s.deployments[i] == a;
    let j = choose|j: int| 0 <= j < s.deployments.len() && s.deployments[j] == b;
    table::lemma_table_row_is_found::<Deployment>(s.deployments, i);
    table::lemma_table_row_is_found::<Deployment>(s.deployments, j);
}

/// What is unfinished after a restart is listed with the oldest first: every operation that is
/// waiting or under way, with what is recorded of its image, and no other.
pub proof fn law_unfinished_operations_are_listed(
    s: StorageView,
    d: DeploymentView,
    artifact: DeploymentArtifactView,
)
    requires
        storage_laws::well_formed(s),
    ensures
        s.unfinished().contains((d, artifact)) <==> s.deployments.contains(d) && (d.status
            == "queued"@ || d.status == "running"@) && s.stored_artifact(d.id) is Some
            && s.stored_artifact(d.id)->0.artifact == artifact,
{
    let p = |x: DeploymentView| storage::is_active(x);
    let rows = s.deployments.filter(p);
    let list = ordered::ranked::<Deployment>(rows).reverse();
    lemma_same_rows(rows, d);
    storage_laws::lemma_filter_items(s.deployments, p, d);
    let sorted = ordered::ranked::<Deployment>(rows);
    assert(list.contains(d) <==> sorted.contains(d)) by {
        if sorted.contains(d) {
            let i = choose|i: int| 0 <= i < sorted.len() && sorted[i] == d;
            assert(list[sorted.len() - 1 - i] == d);
        }
        if list.contains(d) {
            let i = choose|i: int| 0 <= i < list.len() && list[i] == d;
            assert(sorted[sorted.len() - 1 - i] == d);
        }
    }
    lemma_with_artifacts(list, s.artifacts, d, artifact);
}

proof fn lemma_with_artifacts(
    list: Seq<DeploymentView>,
    artifacts: Seq<StoredArtifactView>,
    d: DeploymentView,
    artifact: DeploymentArtifactView,
)
    ensures
        storage::with_artifacts(list, artifacts).contains((d, artifact)) <==> list.contains(d)
            && table::row::<StoredArtifact>(artifacts, seq![d.id]) is Some && table::row::<
            StoredArtifact,
        >(artifacts, seq![d.id])->0.artifact == artifact,
    decreases list.len(),
{
    let all = storage::with_artifacts(list, artifacts);
    if list.len() > 0 {
        let front = list.drop_last();
        let rest = storage::with_artifacts(front, artifacts);
        lemma_with_artifacts(front, artifacts, d, artifact);
        if rest.contains((d, artifact)) {
            let i = choose|i: int| 0 <= i < rest.len() && rest[i] == (d, artifact);
            assert(all[i] == (d, artifact));
        }
        if front.contains(d) {
            let i = choose|i: int| 0 <= i < front.len() && front[i] == d;
            assert(list[i] == d);
        }
        if list.last() == d {
            assert(list[list.len() - 1] == d);
            if let Some(found) = table::row::<StoredArtifact>(artifacts, seq![d.id]) {
                assert(all.last() == (d, found.artifact));
            }
        }
        if list.contains(d) {
            let i = choose|i: int| 0 <= i < list.len() && list[i] == d;
            if i < front.len() {
                assert(front[i] == d);
            }
        }
        if all.contains((d, artifact)) {
            let i = choose|i: int| 0 <= i < all.len() && all[i] == (d, artifact);
            if i < rest.len() {
                assert(rest[i] == (d, artifact));
            }
        }
    }
}

/// Of two unfinished operations, the one that is listed first did not begin later.
pub proof fn law_unfinished_operations_are_in_order(s: StorageView, i: int, j: int)
    requires
        0 <= i < j < s.unfinished().len(),
    ensures
        ({
            let list = s.unfinished();
            let (first, _) = list[i];
            let (second, _) = list[j];
            !ordered::precedes(second.started_at, first.started_at)
        }),
{
    let rows = s.deployments.filter(|x: DeploymentView| storage::is_active(x));
    let sorted = ordered::ranked::<Deployment>(rows);
    let list = sorted.reverse();
    assert forall|a: int, b: int| 0 <= a < b < list.len() implies !ordered::precedes(
        (#[trigger] list[b]).started_at,
        (#[trigger] list[a]).started_at,
    ) by {
        lemma_newest_first(rows, list.len() - 1 - b, list.len() - 1 - a);
    }
    let (a, b) = lemma_artifact_positions(list, s.artifacts, i, j);
    assert(!ordered::precedes(list[b].started_at, list[a].started_at));
}

proof fn lemma_artifact_positions(
    list: Seq<DeploymentView>,
    artifacts: Seq<StoredArtifactView>,
    i: int,
    j: int,
) -> (r: (int, int))
    requires
        0 <= i < j < storage::with_artifacts(list, artifacts).len(),
    ensures
        0 <= r.0 < r.1 < list.len(),
        storage::with_artifacts(list, artifacts)[i].0 == list[r.0],
        storage::with_artifacts(list, artifacts)[j].0 == list[r.1],
    decreases list.len(),
{
    let front = list.drop_last();
    let rest = storage::with_artifacts(front, artifacts);
    if j < rest.len() {
        lemma_artifact_positions(front, artifacts, i, j)
    } else {
        let a = lemma_artifact_position(front, artifacts, i);
        (a, list.len() - 1)
    }
}

proof fn lemma_artifact_position(
    list: Seq<DeploymentView>,
    artifacts: Seq<StoredArtifactView>,
    i: int,
) -> (a: int)
    requires
        0 <= i < storage::with_artifacts(list, artifacts).len(),
    ensures
        0 <= a < list.len(),
        storage::with_artifacts(list, artifacts)[i].0 == list[a],
    decreases list.len(),
{
    let front = list.drop_last();
    let rest = storage::with_artifacts(front, artifacts);
    if i < rest.len() {
        lemma_artifact_position(front, artifacts, i)
    } else {
        list.len() - 1
    }
}

/// Whether an operation began before a time is decided by what the database makes of both times:
/// where it makes nothing of one of them, the operation did not.
pub proof fn law_age_is_what_the_database_says(
    d: DeploymentView,
    cutoff: Seq<char>,
    times: Seq<(Seq<char>, Option<Seq<char>>)>,
    started: Seq<char>,
    limit: Seq<char>,
)
    ensures
        ordered::value_of(times, d.started_at) == Some(Some(started)) && ordered::value_of(
            times,
            cutoff,
        ) == Some(Some(limit)) ==> (storage::started_before(d, cutoff, times)
            <==> ordered::precedes(started, limit)),
        ordered::value_of(times, d.started_at) is None || ordered::value_of(times, d.started_at)
            == Some(None::<Seq<char>>) || ordered::value_of(times, cutoff) is None
            || ordered::value_of(times, cutoff) == Some(None::<Seq<char>>)
            ==> !storage::started_before(d, cutoff, times),
{
}

/// The times that the database is asked for are the limit and those at which operations began.
pub proof fn law_all_times_are_asked_for(s: StorageView, cutoff: Seq<char>, i: int)
    requires
        0 <= i < s.deployments.len(),
    ensures
        s.times_to_read(cutoff).len() == s.deployments.len() + 1,
        s.times_to_read(cutoff)[0] == cutoff,
        s.times_to_read(cutoff)[i + 1] == s.deployments[i].started_at,
{
}

/// An operation that was recorded waits for its image: nothing is known of that yet.
pub proof fn law_new_operations_have_no_image(s: StorageView, new: DeploymentView)
    requires
        storage_laws::well_formed(s),
        new.status == "queued"@,
    ensures
        s.apply_all(s.creation(new)).stored_artifact(new.id) == Some(
            StoredArtifactView {
                deployment_id: new.id,
                artifact: DeploymentArtifactView {
                    phase: "queued"@,
                    target_image: None,
                    target_pinned_image: None,
                    target_digest: None,
                    target_image_id: None,
                },
            },
        ),
{
    let created = s.created(new);
    let middle = s.apply_all(created);
    let d = storage::fresh(new);
    let a = storage::fresh_artifact(new.id);
    storage::lemma_apply_all_append(s, created, storage::removals(middle.expired()));
    storage_laws::law_all_changes_keep_rows_distinct(s, created);
    assert(created =~= seq![created[0]] + seq![created[1]]);
    storage::lemma_apply_all_append(s, seq![created[0]], seq![created[1]]);
    storage_laws::lemma_apply_one(s, created[0]);
    storage_laws::lemma_apply_one(s.apply(created[0]), created[1]);
    table::law_row_is_found::<Deployment>(s.deployments, d, seq![new.id]);
    table::law_row_is_found::<StoredArtifact>(s.artifacts, a, seq![new.id]);
    table::lemma_row_is_in_table::<Deployment>(middle.deployments, seq![new.id]);
    let ids = middle.expired();
    assert(!ids.contains(new.id)) by {
        if ids.contains(new.id) {
            let sorted = ordered::ranked::<Deployment>(
                middle.deployments.filter(|x: DeploymentView| !storage::is_active(x)),
            );
            let limit = middle.history_limit as int;
            let g = choose|g: int| 0 <= g < ids.len() && ids[g] == new.id;
            assert(sorted.skip(limit)[g] == sorted[limit + g]);
            storage_laws::lemma_finished_in_rank(middle, limit + g);
            lemma_same_row(middle, sorted[limit + g], d);
        }
    }
    lemma_artifacts_left(middle, ids, new.id);
}

proof fn lemma_artifacts_left(s: StorageView, ids: Seq<Seq<char>>, id: Seq<char>)
    requires
        !ids.contains(id),
    ensures
        s.apply_all(storage::removals(ids)).stored_artifact(id) == s.stored_artifact(id),
    decreases ids.len(),
{
    let changes = storage::removals(ids);
    if ids.len() > 0 {
        let front = ids.drop_last();
        assert(storage::removals(front) =~= changes.drop_last());
        assert(changes.last() == ChangeView::RemoveDeployment(ids.last()));
        assert(!front.contains(id)) by {
            if front.contains(id) {
                let i = choose|i: int| 0 <= i < front.len() && front[i] == id;
                assert(ids[i] == id);
            }
        }
        lemma_artifacts_left(s, front, id);
        let middle = s.apply_all(storage::removals(front));
        assert(ids[ids.len() - 1] == ids.last());
        assert(seq![id][0] == id && seq![ids.last()][0] == ids.last());
        table::law_removed_key_is_gone::<StoredArtifact>(
            middle.artifacts,
            seq![ids.last()],
            seq![id],
        );
    }
}

/// The states of a project are those recorded of its services, in the order of their names.
pub proof fn law_states_are_listed_by_name(
    s: StorageView,
    project_id: Seq<char>,
    state: ServiceStateView,
    i: int,
    j: int,
)
    requires
        storage_laws::well_formed(s),
    ensures
        s.states_of(project_id).contains(state) <==> state.project_id == project_id && s.state(
            project_id,
            state.service_id,
        ) == Some(state),
        0 <= i < j < s.states_of(project_id).len() ==> !ordered::precedes(
            s.states_of(project_id)[j].service_id,
            s.states_of(project_id)[i].service_id,
        ),
{
    crate::operation_laws::lemma_states_of(s, project_id, state);
    if 0 <= i < j < s.states_of(project_id).len() {
        let first = |a: ServiceStateView, b: ServiceStateView|
            ordered::precedes(a.service_id, b.service_id);
        assert forall|a: ServiceStateView, b: ServiceStateView| #[trigger] first(
            a,
            b,
        ) implies <ServiceState as ordered::Ranked>::before(a, b)
            && !<ServiceState as ordered::Ranked>::before(b, a) by {
            ordered::lemma_precedes_asymmetric(a.service_id, b.service_id);
        }
        assert forall|a: ServiceStateView, b: ServiceStateView, c: ServiceStateView|
            !(#[trigger] first(b, a)) && !(#[trigger] first(c, b)) implies !first(c, a) by {
            ordered::lemma_precedes_ranks(c.service_id, b.service_id, a.service_id);
        }
        let rows = s.states.filter(|x: ServiceStateView| x.project_id == project_id);
        ordered::law_ranked_respects_coarser_orders::<ServiceState>(rows, first);
        let list = s.states_of(project_id);
        assert(!first(list[j], list[i]));
    }
}

/// What each change does to the tables: a row that is put is found, one that is removed is gone with
/// what was recorded of its image, a revision comes last, and nothing else changes.
pub proof fn law_changes_are_read_back(
    s: StorageView,
    d: DeploymentView,
    a: StoredArtifactView,
    state: ServiceStateView,
    revision: StoredRevisionView,
    id: Seq<char>,
    other: Seq<char>,
)
    requires
        other != id,
        d.id == id,
        a.deployment_id == id,
    ensures
        ({
            let put = s.apply(ChangeView::PutDeployment(d));
            &&& put.deployment(id) == Some(d) && put.deployment(other) == s.deployment(other)
            &&& put.artifacts == s.artifacts && put.states == s.states && put.revisions
                == s.revisions
        }),
        ({
            let put = s.apply(ChangeView::PutArtifact(a));
            &&& put.stored_artifact(id) == Some(a) && put.stored_artifact(other)
                == s.stored_artifact(other)
            &&& put.deployments == s.deployments && put.states == s.states && put.revisions
                == s.revisions
        }),
        ({
            let put = s.apply(ChangeView::PutState(state));
            &&& put.state(state.project_id, state.service_id) == Some(state)
            &&& put.deployments == s.deployments && put.artifacts == s.artifacts && put.revisions
                == s.revisions
        }),
        s.apply(ChangeView::AddRevision(revision)) == (StorageView {
            revisions: s.revisions.push(revision),
            ..s
        }),
        ({
            let gone = s.apply(ChangeView::RemoveDeployment(id));
            &&& gone.deployment(id) is None && gone.stored_artifact(id) is None
            &&& gone.deployment(other) == s.deployment(other) && gone.stored_artifact(other)
                == s.stored_artifact(other)
            &&& gone.states == s.states && gone.revisions == s.revisions
        }),
{
    assert(seq![id][0] == id && seq![other][0] == other);
    table::law_row_is_found::<Deployment>(s.deployments, d, seq![other]);
    table::law_row_is_found::<StoredArtifact>(s.artifacts, a, seq![other]);
    table::law_row_is_found::<ServiceState>(
        s.states,
        state,
        seq![state.project_id, state.service_id],
    );
    table::law_removed_key_is_gone::<Deployment>(s.deployments, seq![id], seq![other]);
    table::law_removed_key_is_gone::<StoredArtifact>(s.artifacts, seq![id], seq![other]);
}

/// Changes are made one after the other.
pub proof fn law_changes_follow_one_another(
    s: StorageView,
    changes: Seq<ChangeView>,
    change: ChangeView,
)
    ensures
        s.apply_all(seq![]) == s,
        s.apply_all(changes.push(change)) == s.apply_all(changes).apply(change),
{
    assert(changes.push(change).drop_last() =~= changes);
}

} // verus!
