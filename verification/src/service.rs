use vstd::prelude::*;
use crate::entity::{Job, Render, spec_total_jobs};
use crate::events::{
    GetScaleTargetResponse, JobCanceled, JobComplete, JobFailed, JobRunning, Payload, PopError,
    PopRequest, PopResponse, QueueError, RenderCancelRequested, RenderCanceled, RenderComplete,
    RenderFailed, RenderPending, RenderRunning, RenderSubmitted, ServiceResponse,
};
use crate::load_balance;
use crate::repository::{
    JobRepository, RenderRepository, bump, cnt_rid, has_ident, has_key, has_rid,
    idx_key, idx_rid, inc_cj, lemma_cnt_ident_le_cnt_rid, lemma_cnt_rid_bounds,
    lemma_cnt_rid_push, lemma_idx_key, lemma_idx_rid, lemma_rm_ident, lemma_rm_ident_absent,
    lemma_rm_rid,
    lemma_rm_rid_unique, rm_ident, rm_rid, set_pointer, table_has, upsert,
};

verus! {

// ---------------------------------------------------------------------------
// The store invariant. It ties each render's counters to the in-flight jobs:
// reservations never outrun the enumeration, and completions never outrun
// reservations, so `0 <= completed_jobs <= total_jobs` on every reachable
// state.
// ---------------------------------------------------------------------------

pub open spec fn tables_ok(renders: Seq<Render>, jobs: Seq<Job>) -> bool {
    &&& forall|i: int| 0 <= i < renders.len() ==> (#[trigger] renders[i]).wf()
    &&& forall|i: int| 0 <= i < renders.len() ==> (#[trigger] renders[i]).completed_jobs
        + cnt_rid(jobs, renders[i].id@) <= renders[i].reserved()
    &&& forall|i: int, j: int| 0 <= i < j < renders.len() ==> (#[trigger] renders[i]).id@ != (
    #[trigger] renders[j]).id@
    &&& jobs.len() <= i64::MAX
}

// ---------------------------------------------------------------------------
// What each handler does, as a relation between the tables before and after
// and the events published. The handlers' `ensures` say exactly these.
// ---------------------------------------------------------------------------

/// The render row constructed from a submission.
pub open spec fn submit_render_of(e: RenderSubmitted) -> Render {
    Render {
        user_id: e.user_id,
        id: e.id,
        file_id: e.file_id,
        file_version: e.file_version,
        frame_start: e.frame_start,
        frame_end: e.frame_end,
        step: e.step,
        slices: e.slices,
        pointer_frame: e.frame_start,
        pointer_slice: 0,
        total_jobs: spec_total_jobs(
            e.frame_start as int,
            e.frame_end as int,
            e.step as int,
            e.slices as int,
        ) as i32,
        completed_jobs: 0,
        subscription_item_id: e.subscription_item_id,
    }
}

/// A submission the arithmetic of `total_jobs` can take: the documented
/// range constraints, within machine bounds.
pub open spec fn submit_ok(e: RenderSubmitted) -> bool {
    &&& 1 <= e.step
    &&& 1 <= e.slices
    &&& e.frame_start <= e.frame_end
    &&& e.frame_end - e.frame_start <= i32::MAX
    &&& e.frame_end + e.step <= i32::MAX
    &&& spec_total_jobs(e.frame_start as int, e.frame_end as int, e.step as int, e.slices as int)
        <= i32::MAX
}

/// A duplicate submission is only harmless while nothing of the render is in
/// flight and no other user holds the same id; a resubmission that breaks
/// this resets counters under live jobs and corrupts them (a documented
/// hazard of the upsert).
pub open spec fn submit_compatible(renders: Seq<Render>, jobs: Seq<Job>, e: RenderSubmitted) -> bool {
    &&& cnt_rid(jobs, e.id@) == 0
    &&& forall|i: int| 0 <= i < renders.len() && (#[trigger] renders[i]).id@ == e.id@
        ==> renders[i].user_id@ == e.user_id@
}

pub open spec fn submit_rel(
    renders0: Seq<Render>,
    jobs0: Seq<Job>,
    e: RenderSubmitted,
    renders1: Seq<Render>,
    jobs1: Seq<Job>,
    out: Seq<Payload>,
) -> bool {
    &&& renders1 == upsert(renders0, submit_render_of(e))
    &&& jobs1 == jobs0
    &&& out == seq![Payload::RenderPending((RenderPending { id: e.id }))]
}

pub open spec fn cancel_rel(
    renders0: Seq<Render>,
    jobs0: Seq<Job>,
    e: RenderCancelRequested,
    renders1: Seq<Render>,
    jobs1: Seq<Job>,
    out: Seq<Payload>,
) -> bool {
    &&& renders1 == rm_rid(renders0, e.id@)
    &&& jobs1 == jobs0
    &&& out == seq![Payload::RenderCanceled((RenderCanceled { id: e.id }))]
}

pub open spec fn job_canceled_rel(
    renders0: Seq<Render>,
    jobs0: Seq<Job>,
    e: JobCanceled,
    renders1: Seq<Render>,
    jobs1: Seq<Job>,
    out: Seq<Payload>,
) -> bool {
    &&& renders1 == renders0
    &&& jobs1 == rm_ident(jobs0, e.render_id@, e.frame as int, e.slice as int)
    &&& out == Seq::<Payload>::empty()
}

pub open spec fn job_complete_rel(
    renders0: Seq<Render>,
    jobs0: Seq<Job>,
    e: JobComplete,
    renders1: Seq<Render>,
    jobs1: Seq<Job>,
    out: Seq<Payload>,
) -> bool {
    let rid = e.render_id@;
    let jobs_after = rm_ident(jobs0, rid, e.frame as int, e.slice as int);
    &&& jobs1 == jobs_after
    &&& if !has_ident(jobs0, rid, e.frame as int, e.slice as int) || !has_rid(renders0, rid) {
        // Duplicate delivery, or the render is already gone: no counter
        // moves and nothing is published.
        renders1 == renders0 && out == Seq::<Payload>::empty()
    } else {
        let r1 = bump(renders0[idx_rid(renders0, rid)]);
        if cnt_rid(jobs_after, rid) == 0 && r1.spec_complete() {
            renders1 == rm_rid(inc_cj(renders0, rid), rid) && out == seq![
                Payload::RenderComplete((RenderComplete { id: e.render_id })),
            ]
        } else {
            renders1 == inc_cj(renders0, rid) && out == Seq::<Payload>::empty()
        }
    }
}

pub open spec fn job_failed_rel(
    renders0: Seq<Render>,
    jobs0: Seq<Job>,
    e: JobFailed,
    renders1: Seq<Render>,
    jobs1: Seq<Job>,
    out: Seq<Payload>,
) -> bool {
    let rid = e.render_id@;
    let jobs_after = rm_ident(jobs0, rid, e.frame as int, e.slice as int);
    &&& jobs1 == jobs_after
    &&& if !has_ident(jobs0, rid, e.frame as int, e.slice as int) || !has_rid(renders0, rid) {
        renders1 == renders0 && out == Seq::<Payload>::empty()
    } else {
        let r1 = bump(renders0[idx_rid(renders0, rid)]);
        if r1.frame_start == r1.frame_end {
            // Stills policy: one failed slice fails the whole still.
            renders1 == rm_rid(inc_cj(renders0, rid), rid) && out == seq![
                Payload::RenderFailed((RenderFailed { id: e.render_id })),
            ]
        } else if cnt_rid(jobs_after, rid) == 0 && r1.spec_complete() {
            // Animations absorb failures and count them as completions.
            renders1 == rm_rid(inc_cj(renders0, rid), rid) && out == seq![
                Payload::RenderComplete((RenderComplete { id: e.render_id })),
            ]
        } else {
            renders1 == inc_cj(renders0, rid) && out == Seq::<Payload>::empty()
        }
    }
}

/// The job a successful pop hands out: the selected render's pointer
/// coordinate, stamped with the requesting worker.
pub open spec fn popped_job(r: Render, worker_id: String) -> Job {
    Job {
        user_id: r.user_id,
        render_id: r.id,
        frame: r.pointer_frame,
        slice: r.pointer_slice,
        file_id: r.file_id,
        file_version: r.file_version,
        total_slices: r.slices,
        worker_id: worker_id,
    }
}

/// The events a pop publishes: `RenderRunning` on the first reservation,
/// then `JobRunning` once the job row is stored.
pub open spec fn pop_events(r: Render, worker_id: String, stored: bool) -> Seq<Payload> {
    let base: Seq<Payload> = if r.spec_first() {
        seq![Payload::RenderRunning((RenderRunning { id: r.id }))]
    } else {
        Seq::empty()
    };
    if stored {
        base.push(
            Payload::JobRunning(
                (JobRunning {
                    user_id: r.user_id,
                    frame: r.pointer_frame,
                    slice: r.pointer_slice,
                    render_id: r.id,
                    worker_id: worker_id,
                }),
            ),
        )
    } else {
        base
    }
}

/// What a pop does once the load balancer has picked the render at index
/// `i`: the pointer advances and is persisted; if the coordinate is free a
/// job row is stored and the job is returned, otherwise the duplicate is
/// reported with the reservation already taken.
pub open spec fn pop_selected(
    renders0: Seq<Render>,
    jobs0: Seq<Job>,
    i: int,
    worker_id: String,
    renders1: Seq<Render>,
    jobs1: Seq<Job>,
    res: Result<ServiceResponse<PopResponse, PopError>, QueueError>,
    out: Seq<Payload>,
) -> bool {
    let r = renders0[i];
    let a = r.spec_advance();
    &&& renders1 == set_pointer(renders0, r.id@, a.pointer_frame, a.pointer_slice)
    &&& if has_ident(jobs0, r.id@, r.pointer_frame as int, r.pointer_slice as int) {
        &&& jobs1 == jobs0
        &&& res == Err::<ServiceResponse<PopResponse, PopError>, QueueError>(
            QueueError::DuplicateJob,
        )
        &&& out == pop_events(r, worker_id, false)
    } else {
        &&& jobs1 == jobs0.push(popped_job(r, worker_id))
        &&& res == Ok::<ServiceResponse<PopResponse, PopError>, QueueError>(
            ServiceResponse::Success(
                (PopResponse {
                    user_id: r.user_id,
                    render_id: r.id,
                    frame: r.pointer_frame,
                    slice: r.pointer_slice,
                    file_id: r.file_id,
                    file_version: r.file_version,
                    total_slices: r.slices,
                    worker_id: worker_id,
                    subscription_item_id: r.subscription_item_id,
                }),
            ),
        )
        &&& out == pop_events(r, worker_id, true)
    }
}

/// Everything a pop does. When every render is drained the call reports an
/// empty queue and changes nothing; otherwise some live render was selected
/// and `pop_selected` describes the outcome.
pub open spec fn pop_rel(
    renders0: Seq<Render>,
    jobs0: Seq<Job>,
    worker_id: String,
    renders1: Seq<Render>,
    jobs1: Seq<Job>,
    res: Result<ServiceResponse<PopResponse, PopError>, QueueError>,
    out: Seq<Payload>,
) -> bool {
    if forall|i: int| 0 <= i < renders0.len() ==> (#[trigger] renders0[i]).spec_drained() {
        &&& renders1 == renders0
        &&& jobs1 == jobs0
        &&& res == Ok::<ServiceResponse<PopResponse, PopError>, QueueError>(
            ServiceResponse::Failure(PopError::QueueEmpty),
        )
        &&& out == Seq::<Payload>::empty()
    } else {
        exists|i: int|
            0 <= i < renders0.len() && !renders0[i].spec_drained() && pop_selected(
                renders0,
                jobs0,
                i,
                worker_id,
                renders1,
                jobs1,
                res,
                out,
            )
    }
}

/// Sum of the remaining jobs over the queue.
pub open spec fn sum_remaining(s: Seq<Render>) -> int
    decreases s.len(),
{
    if s.len() <= 0 {
        0
    } else {
        sum_remaining(s.drop_last()) + s.last().spec_remaining()
    }
}

/// The event comes from the bus into the service; everything else is
/// acknowledged and dropped by the router.
pub open spec fn is_inbound(p: Payload) -> bool {
    ||| p is RenderSubmitted
    ||| p is RenderCancelRequested
    ||| p is JobComplete
    ||| p is JobFailed
    ||| p is JobCanceled
}

// ---------------------------------------------------------------------------
// Preservation lemmas for the store invariant.
// ---------------------------------------------------------------------------

/// Removing render rows keeps the tables consistent.
pub proof fn lemma_tables_ok_rm(renders: Seq<Render>, jobs: Seq<Job>, rid: Seq<char>)
    requires
        tables_ok(renders, jobs),
    ensures
        tables_ok(rm_rid(renders, rid), jobs),
{
    lemma_rm_rid(renders, rid);
    lemma_rm_rid_unique(renders, rid);
    let r1 = rm_rid(renders, rid);
    assert forall|k: int| 0 <= k < r1.len() implies (#[trigger] r1[k]).wf() && r1[k].completed_jobs
        + cnt_rid(jobs, r1[k].id@) <= r1[k].reserved() by {
        assert(table_has(renders, r1[k]));
        let j = choose|j: int| 0 <= j < renders.len() && renders[j] == r1[k];
        assert(renders[j].wf());
        assert(renders[j].completed_jobs + cnt_rid(jobs, renders[j].id@) <= renders[j].reserved());
    }
}

/// Shrinking the jobs table keeps the tables consistent.
pub proof fn lemma_tables_ok_jobs_shrink(renders: Seq<Render>, jobs0: Seq<Job>, jobs1: Seq<Job>)
    requires
        tables_ok(renders, jobs0),
        jobs1.len() <= jobs0.len(),
        forall|rid2: Seq<char>| #[trigger] cnt_rid(jobs1, rid2) <= cnt_rid(jobs0, rid2),
    ensures
        tables_ok(renders, jobs1),
{
    assert forall|i: int| 0 <= i < renders.len() implies (#[trigger] renders[i]).completed_jobs
        + cnt_rid(jobs1, renders[i].id@) <= renders[i].reserved() by {
        assert(cnt_rid(jobs1, renders[i].id@) <= cnt_rid(jobs0, renders[i].id@));
    }
}

/// The increment of `completed_jobs` is matched by the loss of at least one
/// job row of the same render, so the tables stay consistent.
pub proof fn lemma_tables_ok_inc(
    renders: Seq<Render>,
    jobs0: Seq<Job>,
    jobs1: Seq<Job>,
    rid: Seq<char>,
)
    requires
        tables_ok(renders, jobs0),
        jobs1.len() <= jobs0.len(),
        forall|rid2: Seq<char>| #[trigger] cnt_rid(jobs1, rid2) <= cnt_rid(jobs0, rid2),
        has_rid(renders, rid) ==> cnt_rid(jobs1, rid) + 1 <= cnt_rid(jobs0, rid),
    ensures
        tables_ok(inc_cj(renders, rid), jobs1),
{
    lemma_idx_rid(renders, rid);
    if has_rid(renders, rid) {
        let idx = idx_rid(renders, rid);
        let r1 = inc_cj(renders, rid);
        assert(renders[idx].id@ == rid);
        assert(r1 == renders.update(idx, bump(renders[idx])));
        lemma_cnt_rid_bounds(jobs1, rid);
        renders[idx].lemma_reserved_bounds();
        assert(renders[idx].completed_jobs + cnt_rid(jobs0, rid) <= renders[idx].reserved());
        assert(renders[idx].completed_jobs < i32::MAX);
        assert(bump(renders[idx]).reserved() == renders[idx].reserved());
        assert(bump(renders[idx]).wf());
        assert forall|i: int| 0 <= i < r1.len() implies (#[trigger] r1[i]).completed_jobs
            + cnt_rid(jobs1, r1[i].id@) <= r1[i].reserved() by {
            assert(cnt_rid(jobs1, renders[i].id@) <= cnt_rid(jobs0, renders[i].id@));
            if i == idx {
                assert(cnt_rid(jobs1, rid) + 1 <= cnt_rid(jobs0, rid));
            }
        }
    } else {
        lemma_tables_ok_jobs_shrink(renders, jobs0, jobs1);
    }
}

// ---------------------------------------------------------------------------
// The queue service.
// ---------------------------------------------------------------------------

/// The queue service: holds the two repositories. Inbound events and RPCs
/// mutate the stores and return the events to publish.
pub struct QueueServiceImpl<RR: RenderRepository, JR: JobRepository> {
    render: RR,
    job: JR,
}

impl<RR: RenderRepository, JR: JobRepository> QueueServiceImpl<RR, JR> {
    /// The render table.
    pub closed spec fn renders(&self) -> Seq<Render> {
        self.render.model()
    }

    /// The in-flight jobs table.
    pub closed spec fn jobs(&self) -> Seq<Job> {
        self.job.model()
    }

    /// The service invariant over both tables.
    pub open spec fn inv(&self) -> bool {
        tables_ok(self.renders(), self.jobs())
    }

    pub fn new(render: RR, job: JR) -> (s: Self)
        ensures
            s.renders() == render.model(),
            s.jobs() == job.model(),
    {
        QueueServiceImpl { render, job }
    }

    pub fn render_submitted(&mut self, event: RenderSubmitted) -> (out: Vec<Payload>)
        requires
            old(self).inv(),
            submit_ok(event),
        ensures
            submit_rel(
                old(self).renders(),
                old(self).jobs(),
                event,
                final(self).renders(),
                final(self).jobs(),
                out@,
            ),
            submit_compatible(old(self).renders(), old(self).jobs(), event) ==> final(self).inv(),
    {
        let render = Render::new(
            event.user_id,
            event.id.clone(),
            event.file_id,
            event.file_version,
            event.frame_start,
            event.frame_end,
            event.step,
            event.slices,
            event.subscription_item_id,
        );
        proof {
            assert(render == submit_render_of(event));
        }
        self.render.store(&render);
        let mut out: Vec<Payload> = Vec::new();
        out.push(Payload::RenderPending(RenderPending { id: event.id }));
        proof {
            assert(out@ =~= seq![Payload::RenderPending((RenderPending { id: event.id }))]);
            submit_render_of(event).lemma_reserved_bounds();
            if submit_compatible(old(self).renders(), old(self).jobs(), event) {
                self.lemma_submit_inv(old(self).renders(), old(self).jobs(), event);
            }
        }
        out
    }

    /// Upserting a compatible submission preserves the invariant.
    proof fn lemma_submit_inv(&self, renders0: Seq<Render>, jobs0: Seq<Job>, event: RenderSubmitted)
        requires
            tables_ok(renders0, jobs0),
            submit_ok(event),
            submit_compatible(renders0, jobs0, event),
            self.renders() == upsert(renders0, submit_render_of(event)),
            self.jobs() == jobs0,
            submit_render_of(event).wf(),
            submit_render_of(event).reserved() == 0,
        ensures
            self.inv(),
    {
        let r = submit_render_of(event);
        lemma_idx_key(renders0, r.user_id@, r.id@);
        lemma_idx_rid(renders0, r.id@);
        let s1 = self.renders();
        if has_key(renders0, r.user_id@, r.id@) {
            let idx = idx_key(renders0, r.user_id@, r.id@);
            assert(s1 == renders0.update(idx, r));
            assert forall|i: int, j: int| 0 <= i < j < s1.len() implies (#[trigger] s1[i]).id@ != (
            #[trigger] s1[j]).id@ by {
                assert(renders0[i].id@ != renders0[j].id@);
            }
        } else {
            assert(s1 == renders0.push(r));
            assert forall|i: int, j: int| 0 <= i < j < s1.len() implies (#[trigger] s1[i]).id@ != (
            #[trigger] s1[j]).id@ by {
                if j == s1.len() - 1 {
                    if renders0[i].id@ == r.id@ {
                        assert(renders0[i].user_id@ == event.user_id@);
                        assert(has_key(renders0, r.user_id@, r.id@));
                    }
                }
            }
        }
    }

    pub fn render_cancel_requested(&mut self, event: RenderCancelRequested) -> (out: Vec<Payload>)
        requires
            old(self).inv(),
        ensures
            final(self).inv(),
            cancel_rel(
                old(self).renders(),
                old(self).jobs(),
                event,
                final(self).renders(),
                final(self).jobs(),
                out@,
            ),
    {
        self.render.delete(&event.id);
        let mut out: Vec<Payload> = Vec::new();
        out.push(Payload::RenderCanceled(RenderCanceled { id: event.id }));
        proof {
            assert(out@ =~= seq![Payload::RenderCanceled((RenderCanceled { id: event.id }))]);
            lemma_tables_ok_rm(old(self).renders(), old(self).jobs(), event.id@);
        }
        out
    }

    pub fn job_canceled(&mut self, event: JobCanceled) -> (out: Vec<Payload>)
        requires
            old(self).inv(),
        ensures
            final(self).inv(),
            job_canceled_rel(
                old(self).renders(),
                old(self).jobs(),
                event,
                final(self).renders(),
                final(self).jobs(),
                out@,
            ),
    {
        self.job.delete(&event.render_id, event.frame, event.slice);
        proof {
            lemma_rm_ident(old(self).jobs(), event.render_id@, event.frame as int,
                event.slice as int);
            lemma_cnt_ident_le_cnt_rid(old(self).jobs(), event.render_id@, event.frame as int,
                event.slice as int);
            lemma_tables_ok_jobs_shrink(old(self).renders(), old(self).jobs(), self.jobs());
        }
        Vec::new()
    }

    pub fn job_complete(&mut self, event: JobComplete) -> (out: Vec<Payload>)
        requires
            old(self).inv(),
        ensures
            final(self).inv(),
            job_complete_rel(
                old(self).renders(),
                old(self).jobs(),
                event,
                final(self).renders(),
                final(self).jobs(),
                out@,
            ),
    {
        let ghost renders0 = old(self).renders();
        let ghost jobs0 = old(self).jobs();
        let ghost rid = event.render_id@;
        let ghost f = event.frame as int;
        let ghost sl = event.slice as int;
        proof {
            lemma_rm_ident(jobs0, rid, f, sl);
            lemma_cnt_ident_le_cnt_rid(jobs0, rid, f, sl);
            lemma_idx_rid(renders0, rid);
            lemma_cnt_rid_bounds(jobs0, rid);
        }
        let deleted = self.job.delete(&event.render_id, event.frame, event.slice);
        if !deleted {
            proof {
                lemma_tables_ok_jobs_shrink(renders0, jobs0, self.jobs());
                lemma_rm_ident_absent(jobs0, rid, f, sl);
            }
            return Vec::new();
        }
        proof {
            if has_rid(renders0, rid) {
                renders0[idx_rid(renders0, rid)].lemma_reserved_bounds();
            }
        }
        let render = match self.render.increment_completed_jobs(&event.render_id) {
            Some(render) => render,
            None => {
                proof {
                    lemma_tables_ok_jobs_shrink(renders0, jobs0, self.jobs());
                }
                return Vec::new();
            },
        };
        proof {
            lemma_tables_ok_inc(renders0, jobs0, self.jobs(), rid);
        }
        let inprogress_jobs = self.job.count(&event.render_id);
        if inprogress_jobs == 0 && render.is_complete() {
            self.render.delete(&event.render_id);
            proof {
                lemma_tables_ok_rm(inc_cj(renders0, rid), self.jobs(), rid);
            }
            let mut out: Vec<Payload> = Vec::new();
            out.push(Payload::RenderComplete(RenderComplete { id: event.render_id }));
            proof {
                assert(out@ =~= seq![
                    Payload::RenderComplete((RenderComplete { id: event.render_id })),
                ]);
            }
            return out;
        }
        Vec::new()
    }

    pub fn job_failed(&mut self, event: JobFailed) -> (out: Vec<Payload>)
        requires
            old(self).inv(),
        ensures
            final(self).inv(),
            job_failed_rel(
                old(self).renders(),
                old(self).jobs(),
                event,
                final(self).renders(),
                final(self).jobs(),
                out@,
            ),
    {
        let ghost renders0 = old(self).renders();
        let ghost jobs0 = old(self).jobs();
        let ghost rid = event.render_id@;
        let ghost f = event.frame as int;
        let ghost sl = event.slice as int;
        proof {
            lemma_rm_ident(jobs0, rid, f, sl);
            lemma_cnt_ident_le_cnt_rid(jobs0, rid, f, sl);
            lemma_idx_rid(renders0, rid);
            lemma_cnt_rid_bounds(jobs0, rid);
        }
        let deleted = self.job.delete(&event.render_id, event.frame, event.slice);
        if !deleted {
            proof {
                lemma_tables_ok_jobs_shrink(renders0, jobs0, self.jobs());
                lemma_rm_ident_absent(jobs0, rid, f, sl);
            }
            return Vec::new();
        }
        proof {
            if has_rid(renders0, rid) {
                renders0[idx_rid(renders0, rid)].lemma_reserved_bounds();
            }
        }
        let render = match self.render.increment_completed_jobs(&event.render_id) {
            Some(render) => render,
            None => {
                proof {
                    lemma_tables_ok_jobs_shrink(renders0, jobs0, self.jobs());
                }
                return Vec::new();
            },
        };
        proof {
            lemma_tables_ok_inc(renders0, jobs0, self.jobs(), rid);
        }
        if render.frame_start == render.frame_end {
            self.render.delete(&event.render_id);
            proof {
                lemma_tables_ok_rm(inc_cj(renders0, rid), self.jobs(), rid);
            }
            let mut out: Vec<Payload> = Vec::new();
            out.push(Payload::RenderFailed(RenderFailed { id: event.render_id }));
            proof {
                assert(out@ =~= seq![
                    Payload::RenderFailed((RenderFailed { id: event.render_id })),
                ]);
            }
            return out;
        }
        let inprogress_jobs = self.job.count(&event.render_id);
        if inprogress_jobs == 0 && render.is_complete() {
            self.render.delete(&event.render_id);
            proof {
                lemma_tables_ok_rm(inc_cj(renders0, rid), self.jobs(), rid);
            }
            let mut out: Vec<Payload> = Vec::new();
            out.push(Payload::RenderComplete(RenderComplete { id: event.render_id }));
            proof {
                assert(out@ =~= seq![
                    Payload::RenderComplete((RenderComplete { id: event.render_id })),
                ]);
            }
            return out;
        }
        Vec::new()
    }

    pub fn pop(&mut self, req: PopRequest) -> (res: (
        Result<ServiceResponse<PopResponse, PopError>, QueueError>,
        Vec<Payload>,
    ))
        requires
            old(self).inv(),
            old(self).jobs().len() < i64::MAX,
        ensures
            final(self).inv(),
            pop_rel(
                old(self).renders(),
                old(self).jobs(),
                req.worker_id,
                final(self).renders(),
                final(self).jobs(),
                res.0,
                res.1@,
            ),
    {
        let ghost renders0 = old(self).renders();
        let ghost jobs0 = old(self).jobs();
        let queue = self.render.load_queue();

        let mut render = match load_balance::select_render(queue) {
            Some(render) => render,
            None => {
                let empty_out: Vec<Payload> = Vec::new();
                let reply: Result<ServiceResponse<PopResponse, PopError>, QueueError> = Ok(
                    ServiceResponse::Failure(PopError::QueueEmpty),
                );
                proof {
                    assert(empty_out@ =~= Seq::<Payload>::empty());
                    assert(pop_rel(renders0, jobs0, req.worker_id, self.renders(), self.jobs(),
                        reply, empty_out@));
                }
                return (reply, empty_out);
            },
        };
        let ghost i = choose|i: int| 0 <= i < renders0.len() && renders0[i] == render;
        proof {
            assert(renders0[i].wf());
            lemma_idx_rid(renders0, render.id@);
            assert(idx_rid(renders0, render.id@) == i) by {
                let idx = idx_rid(renders0, render.id@);
                if idx < i {
                    assert(renders0[idx].id@ == renders0[i].id@);
                }
            }
        }

        if render.is_queue_drained() {
            // Unreachable: the load balancer only hands out live renders.
            return (Ok(ServiceResponse::Failure(PopError::QueueEmpty)), Vec::new());
        }

        let job = match render.get_job(req.worker_id.clone()) {
            Some(job) => job,
            None => {
                // Unreachable for a live render; kept as the corruption
                // escape hatch: drop the row and fail the call.
                self.render.delete(&render.id);
                return (Err(QueueError::CorruptRender), Vec::new());
            },
        };

        let mut out: Vec<Payload> = Vec::new();
        if render.is_first() {
            out.push(Payload::RenderRunning(RenderRunning { id: render.id.clone() }));
        }
        proof {
            assert(out@ =~= pop_events(renders0[i], req.worker_id, false));
        }

        let ghost r0 = renders0[i];
        render.advance_pointer();
        self.render.update_pointer(&render);

        match self.job.store(&job) {
            Ok(_u) => {},
            Err(_e) => {
                proof {
                    self.lemma_pop_inv(renders0, jobs0, i, false, req.worker_id);
                    assert(pop_rel(renders0, jobs0, req.worker_id, self.renders(), self.jobs(),
                        Err::<ServiceResponse<PopResponse, PopError>, QueueError>(
                            QueueError::DuplicateJob,
                        ), out@)) by {
                        assert(pop_selected(
                            renders0,
                            jobs0,
                            i,
                            req.worker_id,
                            self.renders(),
                            self.jobs(),
                            Err::<ServiceResponse<PopResponse, PopError>, QueueError>(
                                QueueError::DuplicateJob,
                            ),
                            out@,
                        ));
                    }
                }
                return (Err(QueueError::DuplicateJob), out);
            },
        }
        proof {
            self.lemma_pop_inv(renders0, jobs0, i, true, req.worker_id);
        }

        out.push(
            Payload::JobRunning(
                JobRunning {
                    user_id: job.user_id.clone(),
                    frame: job.frame,
                    slice: job.slice,
                    render_id: render.id.clone(),
                    worker_id: req.worker_id,
                },
            ),
        );
        proof {
            assert(out@ =~= pop_events(r0, req.worker_id, true));
        }

        let resp = PopResponse {
            user_id: job.user_id,
            render_id: job.render_id,
            frame: job.frame,
            slice: job.slice,
            file_id: job.file_id,
            file_version: job.file_version,
            total_slices: job.total_slices,
            worker_id: job.worker_id,
            subscription_item_id: render.subscription_item_id,
        };

        proof {
            assert(pop_rel(renders0, jobs0, req.worker_id, self.renders(), self.jobs(), Ok::<
                ServiceResponse<PopResponse, PopError>,
                QueueError,
            >(ServiceResponse::Success(resp)), out@)) by {
                assert(pop_selected(
                    renders0,
                    jobs0,
                    i,
                    req.worker_id,
                    self.renders(),
                    self.jobs(),
                    Ok::<ServiceResponse<PopResponse, PopError>, QueueError>(
                        ServiceResponse::Success(resp),
                    ),
                    out@,
                ));
            }
        }
        (Ok(ServiceResponse::Success(resp)), out)
    }

    /// The pointer advance plus at most one new job row preserve the
    /// invariant.
    proof fn lemma_pop_inv(
        &self,
        renders0: Seq<Render>,
        jobs0: Seq<Job>,
        i: int,
        stored: bool,
        worker_id: String,
    )
        requires
            tables_ok(renders0, jobs0),
            jobs0.len() < i64::MAX,
            0 <= i < renders0.len(),
            !renders0[i].spec_drained(),
            idx_rid(renders0, renders0[i].id@) == i,
            self.renders() == set_pointer(
                renders0,
                renders0[i].id@,
                renders0[i].spec_advance().pointer_frame,
                renders0[i].spec_advance().pointer_slice,
            ),
            self.jobs() == if stored {
                jobs0.push(popped_job(renders0[i], worker_id))
            } else {
                jobs0
            },
        ensures
            self.inv(),
    {
        let r = renders0[i];
        let a = r.spec_advance();
        r.lemma_advance_reserved();
        assert(self.renders() == renders0.update(i, (Render {
            pointer_frame: a.pointer_frame,
            pointer_slice: a.pointer_slice,
            ..r
        })));
        assert((Render { pointer_frame: a.pointer_frame, pointer_slice: a.pointer_slice, ..r })
            == a);
        let s1 = self.renders();
        assert forall|k: int| 0 <= k < s1.len() implies (#[trigger] s1[k]).wf()
            && s1[k].completed_jobs + cnt_rid(self.jobs(), s1[k].id@) <= s1[k].reserved() by {
            if stored {
                lemma_cnt_rid_push(jobs0, popped_job(r, worker_id), s1[k].id@);
            }
            if k != i {
                assert(renders0[k].id@ != r.id@);
            }
        }
        assert forall|k: int, j: int| 0 <= k < j < s1.len() implies (#[trigger] s1[k]).id@ != (
        #[trigger] s1[j]).id@ by {
            assert(renders0[k].id@ != renders0[j].id@);
        }
    }

    pub fn get_scale_target(&self) -> (resp: GetScaleTargetResponse)
        requires
            self.inv(),
            sum_remaining(self.renders()) <= usize::MAX,
        ensures
            resp.target == sum_remaining(self.renders()),
    {
        let renders = self.render.load_queue();
        proof {
            assert forall|k: int| 0 <= k < renders@.len() implies 0 <= (
            #[trigger] renders@[k]).spec_remaining() by {
                lemma_cnt_rid_bounds(self.jobs(), renders@[k].id@);
                renders@[k].lemma_reserved_bounds();
            }
        }

        let mut target: usize = 0;
        let mut i: usize = 0;
        while i < renders.len()
            invariant
                i <= renders.len(),
                target == sum_remaining(renders@.take(i as int)),
                sum_remaining(renders@) <= usize::MAX,
                forall|k: int| 0 <= k < renders@.len() ==> 0 <= (
                #[trigger] renders@[k]).spec_remaining(),
                forall|k: int| 0 <= k < renders@.len() ==> (#[trigger] renders@[k]).wf()
                    && renders@[k].completed_jobs <= renders@[k].total_jobs,
            decreases renders.len() - i,
        {
            proof {
                assert(renders@.take(i as int + 1).drop_last() =~= renders@.take(i as int));
                assert(renders@.take(i as int + 1).last() == renders@[i as int]);
                lemma_sum_take_bound(renders@, i as int + 1);
            }
            let remaining = renders[i].total_jobs - renders[i].completed_jobs;
            target = target + (remaining as usize);
            i = i + 1;
        }
        proof {
            assert(renders@.take(renders@.len() as int) =~= renders@);
        }
        GetScaleTargetResponse { target }
    }

    pub fn route(&mut self, event: Payload) -> (out: Vec<Payload>)
        requires
            old(self).inv(),
            event matches Payload::RenderSubmitted(e) ==> submit_ok(e),
        ensures
            event matches Payload::RenderSubmitted(e) ==> submit_rel(
                old(self).renders(),
                old(self).jobs(),
                e,
                final(self).renders(),
                final(self).jobs(),
                out@,
            ) && (submit_compatible(old(self).renders(), old(self).jobs(), e)
                ==> final(self).inv()),
            event matches Payload::RenderCancelRequested(e) ==> final(self).inv() && cancel_rel(
                old(self).renders(),
                old(self).jobs(),
                e,
                final(self).renders(),
                final(self).jobs(),
                out@,
            ),
            event matches Payload::JobComplete(e) ==> final(self).inv() && job_complete_rel(
                old(self).renders(),
                old(self).jobs(),
                e,
                final(self).renders(),
                final(self).jobs(),
                out@,
            ),
            event matches Payload::JobFailed(e) ==> final(self).inv() && job_failed_rel(
                old(self).renders(),
                old(self).jobs(),
                e,
                final(self).renders(),
                final(self).jobs(),
                out@,
            ),
            event matches Payload::JobCanceled(e) ==> final(self).inv() && job_canceled_rel(
                old(self).renders(),
                old(self).jobs(),
                e,
                final(self).renders(),
                final(self).jobs(),
                out@,
            ),
            !is_inbound(event) ==> final(self).inv()
                && final(self).renders() == old(self).renders()
                && final(self).jobs() == old(self).jobs()
                && out@ == Seq::<Payload>::empty(),
    {
        match event {
            Payload::RenderSubmitted(e) => self.render_submitted(e),
            Payload::RenderCancelRequested(e) => self.render_cancel_requested(e),
            Payload::JobComplete(e) => self.job_complete(e),
            Payload::JobFailed(e) => self.job_failed(e),
            Payload::JobCanceled(e) => self.job_canceled(e),
            _ => Vec::new(),
        }
    }
}

/// Partial sums of the remaining-jobs column never pass the full sum when
/// every term is non-negative.
pub proof fn lemma_sum_take_bound(s: Seq<Render>, i: int)
    requires
        0 <= i <= s.len(),
        forall|k: int| 0 <= k < s.len() ==> 0 <= (#[trigger] s[k]).spec_remaining(),
    ensures
        0 <= sum_remaining(s.take(i)) <= sum_remaining(s),
    decreases s.len() - i,
{
    if i == s.len() {
        assert(s.take(i) =~= s);
        lemma_sum_nonneg(s);
    } else {
        assert(s.take(i + 1).drop_last() =~= s.take(i));
        assert(s.take(i + 1).last() == s[i]);
        lemma_sum_take_bound(s, i + 1);
        assert forall|k: int| 0 <= k < s.take(i).len() implies 0 <= (
        #[trigger] s.take(i)[k]).spec_remaining() by {
            assert(s.take(i)[k] == s[k]);
        }
        lemma_sum_nonneg(s.take(i));
    }
}

/// A sum of non-negative terms is non-negative.
pub proof fn lemma_sum_nonneg(s: Seq<Render>)
    requires
        forall|k: int| 0 <= k < s.len() ==> 0 <= (#[trigger] s[k]).spec_remaining(),
    ensures
        0 <= sum_remaining(s),
    decreases s.len(),
{
    if s.len() > 0 {
        lemma_sum_nonneg(s.drop_last());
    }
}

} // verus!
