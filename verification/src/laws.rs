use vstd::prelude::*;
use crate::entity::{Job, Render};
use crate::events::{
    JobCanceled, JobComplete, JobFailed, Payload, PopError, PopResponse, QueueError,
    RenderCancelRequested, RenderSubmitted, ServiceResponse,
};
use crate::repository::{
    cnt_rid, has_ident, has_rid, idx_rid, inc_cj, lemma_cnt_rid_bounds, lemma_idx_rid,
    lemma_rm_ident, lemma_rm_ident_absent, lemma_rm_rid, rm_ident,
};
use crate::service::{
    cancel_rel, job_canceled_rel, job_complete_rel, job_failed_rel, pop_selected, submit_rel,
    tables_ok,
};

verus! {

// ---------------------------------------------------------------------------
// The laws of the queue, proved once and for all over the handler relations
// that the service's contracts establish.
// ---------------------------------------------------------------------------

/// On every consistent state, each render's completion counter sits between
/// zero and its total.
pub proof fn lemma_completed_jobs_in_range(renders: Seq<Render>, jobs: Seq<Job>, i: int)
    requires
        tables_ok(renders, jobs),
        0 <= i < renders.len(),
    ensures
        0 <= renders[i].completed_jobs <= renders[i].total_jobs,
{
    lemma_cnt_rid_bounds(jobs, renders[i].id@);
    renders[i].lemma_reserved_bounds();
}

/// On every consistent state, a render that is not queue-drained keeps its
/// slice pointer inside `[0, slices)`.
pub proof fn lemma_pointer_slice_in_range(renders: Seq<Render>, jobs: Seq<Job>, i: int)
    requires
        tables_ok(renders, jobs),
        0 <= i < renders.len(),
        !renders[i].spec_drained(),
    ensures
        0 <= renders[i].pointer_slice < renders[i].slices,
{
}

/// On every consistent state, each render's total is the frame count times
/// the slice count.
pub proof fn lemma_total_jobs_formula(renders: Seq<Render>, jobs: Seq<Job>, i: int)
    requires
        tables_ok(renders, jobs),
        0 <= i < renders.len(),
    ensures
        renders[i].total_jobs == crate::entity::spec_total_jobs(
            renders[i].frame_start as int,
            renders[i].frame_end as int,
            renders[i].step as int,
            renders[i].slices as int,
        ),
{
}

/// Two tables with the same ids row for row give the same first index for
/// every id.
pub proof fn lemma_idx_rid_same_ids(s1: Seq<Render>, s2: Seq<Render>, id: Seq<char>)
    requires
        s1.len() == s2.len(),
        forall|i: int| 0 <= i < s1.len() ==> (#[trigger] s1[i]).id@ == s2[i].id@,
    ensures
        idx_rid(s1, id) == idx_rid(s2, id),
    decreases s1.len(),
{
    if s1.len() > 0 {
        assert forall|i: int| 0 <= i < s1.drop_last().len()
            implies (#[trigger] s1.drop_last()[i]).id@ == s2.drop_last()[i].id@ by {
            assert(s1.drop_last()[i] == s1[i]);
            assert(s2.drop_last()[i] == s2[i]);
        }
        lemma_idx_rid_same_ids(s1.drop_last(), s2.drop_last(), id);
    }
}

/// A pop announces `RenderRunning` exactly when it takes the very first
/// reservation of the selected render, and it leaves that render past its
/// first coordinate; since nothing else ever moves a pointer backwards,
/// `RenderRunning` goes out at most once per render lifecycle.
pub proof fn lemma_render_running_once(
    renders0: Seq<Render>,
    jobs0: Seq<Job>,
    i: int,
    worker_id: String,
    renders1: Seq<Render>,
    jobs1: Seq<Job>,
    res: Result<ServiceResponse<PopResponse, PopError>, QueueError>,
    out: Seq<Payload>,
)
    requires
        tables_ok(renders0, jobs0),
        0 <= i < renders0.len(),
        !renders0[i].spec_drained(),
        pop_selected(renders0, jobs0, i, worker_id, renders1, jobs1, res, out),
    ensures
        (exists|k: int| 0 <= k < out.len() && (#[trigger] out[k]).is_running_for(
            renders0[i].id@,
        )) <==> renders0[i].spec_first(),
        has_rid(renders1, renders0[i].id@),
        !renders1[idx_rid(renders1, renders0[i].id@)].spec_first(),
{
    let r = renders0[i];
    let rid = r.id@;
    let a = r.spec_advance();
    r.lemma_advance_reserved();
    lemma_idx_rid(renders0, rid);
    assert(idx_rid(renders0, rid) == i) by {
        let idx = idx_rid(renders0, rid);
        if idx < i {
            assert(renders0[idx].id@ == renders0[i].id@);
        }
    }
    assert(renders1 == renders0.update(i, (Render {
        pointer_frame: a.pointer_frame,
        pointer_slice: a.pointer_slice,
        ..r
    })));
    assert forall|k: int| 0 <= k < renders1.len() implies (#[trigger] renders1[k]).id@
        == renders0[k].id@ by {}
    lemma_idx_rid_same_ids(renders1, renders0, rid);
    assert(renders1[i] == a);
    a.lemma_reserved_bounds();
    if r.spec_first() {
        assert(out[0].is_running_for(rid));
    }
}

/// A terminal event leaves the handlers only together with the removal of
/// the render row: `job_complete` publishes `RenderComplete` exactly when it
/// deletes the render.
pub proof fn lemma_complete_terminal_iff_removed(
    renders0: Seq<Render>,
    jobs0: Seq<Job>,
    e: JobComplete,
    renders1: Seq<Render>,
    jobs1: Seq<Job>,
    out: Seq<Payload>,
)
    requires
        tables_ok(renders0, jobs0),
        job_complete_rel(renders0, jobs0, e, renders1, jobs1, out),
    ensures
        (exists|k: int| 0 <= k < out.len() && (#[trigger] out[k]).is_terminal_for(e.render_id@))
            <==> (has_rid(renders0, e.render_id@) && !has_rid(renders1, e.render_id@)),
{
    let rid = e.render_id@;
    let jobs_after = rm_ident(jobs0, rid, e.frame as int, e.slice as int);
    lemma_idx_rid(renders0, rid);
    if !has_ident(jobs0, rid, e.frame as int, e.slice as int) || !has_rid(renders0, rid) {
    } else {
        let s1 = inc_cj(renders0, rid);
        lemma_idx_rid_same_ids(s1, renders0, rid);
        let r1 = crate::repository::bump(renders0[idx_rid(renders0, rid)]);
        if cnt_rid(jobs_after, rid) == 0 && r1.spec_complete() {
            lemma_rm_rid(s1, rid);
            lemma_idx_rid(renders1, rid);
            assert(out[0].is_terminal_for(rid));
            assert(!has_rid(renders1, rid)) by {
                if has_rid(renders1, rid) {
                    assert(renders1[idx_rid(renders1, rid)].id@ == rid);
                }
            }
        } else {
            assert(has_rid(renders1, rid));
        }
    }
}

/// The same, for `job_failed`: `RenderFailed` or `RenderComplete` goes out
/// exactly when the render row is deleted.
pub proof fn lemma_failed_terminal_iff_removed(
    renders0: Seq<Render>,
    jobs0: Seq<Job>,
    e: JobFailed,
    renders1: Seq<Render>,
    jobs1: Seq<Job>,
    out: Seq<Payload>,
)
    requires
        tables_ok(renders0, jobs0),
        job_failed_rel(renders0, jobs0, e, renders1, jobs1, out),
    ensures
        (exists|k: int| 0 <= k < out.len() && (#[trigger] out[k]).is_terminal_for(e.render_id@))
            <==> (has_rid(renders0, e.render_id@) && !has_rid(renders1, e.render_id@)),
{
    let rid = e.render_id@;
    let jobs_after = rm_ident(jobs0, rid, e.frame as int, e.slice as int);
    lemma_idx_rid(renders0, rid);
    if !has_ident(jobs0, rid, e.frame as int, e.slice as int) || !has_rid(renders0, rid) {
    } else {
        let s1 = inc_cj(renders0, rid);
        lemma_idx_rid_same_ids(s1, renders0, rid);
        let r1 = crate::repository::bump(renders0[idx_rid(renders0, rid)]);
        if r1.frame_start == r1.frame_end || (cnt_rid(jobs_after, rid) == 0
            && r1.spec_complete()) {
            lemma_rm_rid(s1, rid);
            lemma_idx_rid(renders1, rid);
            assert(out[0].is_terminal_for(rid));
            assert(!has_rid(renders1, rid)) by {
                if has_rid(renders1, rid) {
                    assert(renders1[idx_rid(renders1, rid)].id@ == rid);
                }
            }
        } else {
            assert(has_rid(renders1, rid));
        }
    }
}

/// A cancellation always answers with the terminal `RenderCanceled` and
/// removes the row; it is idempotent on the store, though a duplicate
/// cancellation repeats the event.
pub proof fn lemma_cancel_terminal(
    renders0: Seq<Render>,
    jobs0: Seq<Job>,
    e: RenderCancelRequested,
    renders1: Seq<Render>,
    jobs1: Seq<Job>,
    out: Seq<Payload>,
)
    requires
        cancel_rel(renders0, jobs0, e, renders1, jobs1, out),
    ensures
        out.len() == 1 && out[0].is_terminal_for(e.id@),
        !has_rid(renders1, e.id@),
{
    lemma_rm_rid(renders0, e.id@);
    lemma_idx_rid(renders1, e.id@);
    if has_rid(renders1, e.id@) {
        assert(renders1[idx_rid(renders1, e.id@)].id@ == e.id@);
    }
}

/// Delivering the same `job_complete` twice moves the counters only once:
/// the second delivery finds no job row and leaves the store and the bus
/// untouched.
pub proof fn lemma_job_complete_idempotent(
    renders0: Seq<Render>,
    jobs0: Seq<Job>,
    e: JobComplete,
    renders1: Seq<Render>,
    jobs1: Seq<Job>,
    out1: Seq<Payload>,
    renders2: Seq<Render>,
    jobs2: Seq<Job>,
    out2: Seq<Payload>,
)
    requires
        job_complete_rel(renders0, jobs0, e, renders1, jobs1, out1),
        job_complete_rel(renders1, jobs1, e, renders2, jobs2, out2),
    ensures
        renders2 == renders1,
        jobs2 == jobs1,
        out2 == Seq::<Payload>::empty(),
{
    lemma_rm_ident(jobs0, e.render_id@, e.frame as int, e.slice as int);
    lemma_rm_ident_absent(jobs1, e.render_id@, e.frame as int, e.slice as int);
}

/// After a cancellation, a late `job_complete` for the canceled render
/// leaves the render table in the same terminal state and publishes
/// nothing.
pub proof fn lemma_cancel_blocks_late_complete(
    renders0: Seq<Render>,
    jobs0: Seq<Job>,
    e: RenderCancelRequested,
    renders1: Seq<Render>,
    jobs1: Seq<Job>,
    out1: Seq<Payload>,
    ec: JobComplete,
    renders2: Seq<Render>,
    jobs2: Seq<Job>,
    out2: Seq<Payload>,
)
    requires
        cancel_rel(renders0, jobs0, e, renders1, jobs1, out1),
        job_complete_rel(renders1, jobs1, ec, renders2, jobs2, out2),
        ec.render_id@ == e.id@,
    ensures
        renders2 == renders1,
        out2 == Seq::<Payload>::empty(),
{
    lemma_cancel_terminal(renders0, jobs0, e, renders1, jobs1, out1);
}

/// After a cancellation, a late `job_failed` for the canceled render leaves
/// the render table in the same terminal state and publishes nothing.
pub proof fn lemma_cancel_blocks_late_failed(
    renders0: Seq<Render>,
    jobs0: Seq<Job>,
    e: RenderCancelRequested,
    renders1: Seq<Render>,
    jobs1: Seq<Job>,
    out1: Seq<Payload>,
    ef: JobFailed,
    renders2: Seq<Render>,
    jobs2: Seq<Job>,
    out2: Seq<Payload>,
)
    requires
        cancel_rel(renders0, jobs0, e, renders1, jobs1, out1),
        job_failed_rel(renders1, jobs1, ef, renders2, jobs2, out2),
        ef.render_id@ == e.id@,
    ensures
        renders2 == renders1,
        out2 == Seq::<Payload>::empty(),
{
    lemma_cancel_terminal(renders0, jobs0, e, renders1, jobs1, out1);
}

/// No event handler ever announces `RenderRunning`: the announcement is
/// the pop's alone, which together with `lemma_render_running_once` bounds
/// it to one per render lifecycle.
pub proof fn lemma_event_handlers_never_emit_running(
    renders0: Seq<Render>,
    jobs0: Seq<Job>,
    renders1: Seq<Render>,
    jobs1: Seq<Job>,
    out: Seq<Payload>,
)
    requires
        ({
            ||| (exists|e: RenderSubmitted| submit_rel(renders0, jobs0, e, renders1, jobs1, out))
            ||| (exists|e: RenderCancelRequested| cancel_rel(
                renders0,
                jobs0,
                e,
                renders1,
                jobs1,
                out,
            ))
            ||| (exists|e: JobCanceled| job_canceled_rel(renders0, jobs0, e, renders1, jobs1, out))
            ||| (exists|e: JobComplete| job_complete_rel(renders0, jobs0, e, renders1, jobs1, out))
            ||| (exists|e: JobFailed| job_failed_rel(renders0, jobs0, e, renders1, jobs1, out))
        }),
    ensures
        forall|k: int, id: Seq<char>| 0 <= k < out.len() ==> !(#[trigger] out[k].is_running_for(
            id,
        )),
{
}

/// A successful pop hands out exactly the next coordinate of the selected
/// render's enumeration `(frame_start + k*step, s)` in lexicographic order
/// of `(k, s)`, and advances the render's reservation rank by one: the
/// reserved coordinates always form a prefix of that enumeration.
pub proof fn lemma_pop_reserves_in_order(
    renders0: Seq<Render>,
    jobs0: Seq<Job>,
    i: int,
    worker_id: String,
    renders1: Seq<Render>,
    jobs1: Seq<Job>,
    res: Result<ServiceResponse<PopResponse, PopError>, QueueError>,
    out: Seq<Payload>,
)
    requires
        tables_ok(renders0, jobs0),
        0 <= i < renders0.len(),
        !renders0[i].spec_drained(),
        pop_selected(renders0, jobs0, i, worker_id, renders1, jobs1, res, out),
    ensures
        res matches Ok(sr) ==> (sr matches ServiceResponse::Success(p) ==> (
        p.frame as int, p.slice as int) == renders0[i].coord_of_rank(renders0[i].reserved())),
        has_rid(renders1, renders0[i].id@),
        renders1[idx_rid(renders1, renders0[i].id@)].reserved() == renders0[i].reserved() + 1,
{
    let r = renders0[i];
    let rid = r.id@;
    let a = r.spec_advance();
    r.lemma_advance_reserved();
    r.lemma_pointer_is_rank_coord();
    lemma_idx_rid(renders0, rid);
    assert(idx_rid(renders0, rid) == i) by {
        let idx = idx_rid(renders0, rid);
        if idx < i {
            assert(renders0[idx].id@ == renders0[i].id@);
        }
    }
    assert(renders1 == renders0.update(i, (Render {
        pointer_frame: a.pointer_frame,
        pointer_slice: a.pointer_slice,
        ..r
    })));
    assert forall|k: int| 0 <= k < renders1.len() implies (#[trigger] renders1[k]).id@
        == renders0[k].id@ by {}
    lemma_idx_rid_same_ids(renders1, renders0, rid);
    assert(renders1[i] == a);
}

} // verus!
