use render_queue::events::{
    JobComplete, JobFailed, Payload, PopError, PopRequest, PopResponse, QueueError,
    RenderCancelRequested, RenderSubmitted, ServiceResponse,
};
use render_queue::service::QueueServiceImpl;
use render_queue::store::{MemJobRepository, MemRenderRepository};

type Service = QueueServiceImpl<MemRenderRepository, MemJobRepository>;

fn service() -> Service {
    QueueServiceImpl::new(MemRenderRepository::new(), MemJobRepository::new())
}

fn submitted(id: &str, frame_start: i32, frame_end: i32, step: i32, slices: i32) -> RenderSubmitted {
    RenderSubmitted {
        user_id: "user-1".to_string(),
        id: id.to_string(),
        file_id: "file-1".to_string(),
        file_version: 1,
        frame_start,
        frame_end,
        step,
        slices,
        subscription_item_id: "sub-1".to_string(),
    }
}

fn pop_ok(svc: &mut Service) -> (PopResponse, Vec<Payload>) {
    let (res, events) = svc.pop(PopRequest { worker_id: "worker-1".to_string() });
    match res {
        Ok(ServiceResponse::Success(p)) => (p, events),
        Ok(ServiceResponse::Failure(PopError::QueueEmpty)) => panic!("queue unexpectedly empty"),
        Err(_) => panic!("pop failed"),
    }
}

fn pop_empty(svc: &mut Service) {
    let (res, events) = svc.pop(PopRequest { worker_id: "worker-1".to_string() });
    assert!(matches!(res, Ok(ServiceResponse::Failure(PopError::QueueEmpty))));
    assert!(events.is_empty());
}

fn has_event(events: &[Payload], pred: impl Fn(&Payload) -> bool) -> bool {
    events.iter().any(pred)
}

#[test]
fn submit_and_drain_animation() {
    let mut svc = service();
    let out = svc.render_submitted(submitted("R", 1, 3, 1, 2));
    assert_eq!(out.len(), 1);
    assert!(matches!(&out[0], Payload::RenderPending(p) if p.id == "R"));

    let expected = [(1, 0), (1, 1), (2, 0), (2, 1), (3, 0), (3, 1)];
    for (n, (frame, slice)) in expected.iter().enumerate() {
        let (resp, events) = pop_ok(&mut svc);
        assert_eq!((resp.frame, resp.slice), (*frame, *slice));
        assert_eq!(resp.render_id, "R");
        assert_eq!(resp.total_slices, 2);
        assert_eq!(resp.subscription_item_id, "sub-1");
        let running = has_event(&events, |e| {
            matches!(e, Payload::RenderRunning(r) if r.id == "R")
        });
        assert_eq!(running, n == 0, "RenderRunning only on the first pop");
        assert!(has_event(&events, |e| {
            matches!(e, Payload::JobRunning(j) if j.render_id == "R" && j.frame == *frame && j.slice == *slice)
        }));
    }

    pop_empty(&mut svc);

    for (n, (frame, slice)) in expected.iter().enumerate() {
        let out = svc.job_complete(JobComplete {
            render_id: "R".to_string(),
            frame: *frame,
            slice: *slice,
        });
        let complete = has_event(&out, |e| {
            matches!(e, Payload::RenderComplete(c) if c.id == "R")
        });
        assert_eq!(complete, n == expected.len() - 1, "RenderComplete only after the last job");
    }

    pop_empty(&mut svc);
    assert_eq!(svc.get_scale_target().target, 0);
}

#[test]
fn cancel_mid_flight() {
    let mut svc = service();
    svc.render_submitted(submitted("R", 1, 2, 1, 2));
    pop_ok(&mut svc);
    pop_ok(&mut svc);

    let out = svc.render_cancel_requested(RenderCancelRequested { id: "R".to_string() });
    assert_eq!(out.len(), 1);
    assert!(matches!(&out[0], Payload::RenderCanceled(c) if c.id == "R"));
    assert_eq!(svc.get_scale_target().target, 0);

    // Late completion of an in-flight job of the canceled render: no event.
    let out = svc.job_complete(JobComplete { render_id: "R".to_string(), frame: 1, slice: 0 });
    assert!(out.is_empty());
    let out = svc.job_failed(JobFailed { render_id: "R".to_string(), frame: 1, slice: 1 });
    assert!(out.is_empty());
}

#[test]
fn still_failure_is_terminal() {
    let mut svc = service();
    svc.render_submitted(submitted("R", 5, 5, 1, 3));

    let (resp, _) = pop_ok(&mut svc);
    assert_eq!((resp.frame, resp.slice), (5, 0));

    // Two slices are still reservable, yet one failure fails the still.
    let out = svc.job_failed(JobFailed { render_id: "R".to_string(), frame: 5, slice: 0 });
    assert_eq!(out.len(), 1);
    assert!(matches!(&out[0], Payload::RenderFailed(f) if f.id == "R"));
    assert_eq!(svc.get_scale_target().target, 0);
    pop_empty(&mut svc);
}

#[test]
fn still_with_multiple_slices_in_flight_fails_whole() {
    let mut svc = service();
    svc.render_submitted(submitted("R", 5, 5, 1, 3));
    pop_ok(&mut svc);
    pop_ok(&mut svc);

    let out = svc.job_failed(JobFailed { render_id: "R".to_string(), frame: 5, slice: 1 });
    assert!(matches!(&out[0], Payload::RenderFailed(f) if f.id == "R"));

    // The other in-flight job arrives late: the render is gone, no event.
    let out = svc.job_complete(JobComplete { render_id: "R".to_string(), frame: 5, slice: 0 });
    assert!(out.is_empty());
}

#[test]
fn single_job_still_completes() {
    let mut svc = service();
    svc.render_submitted(submitted("R", 5, 5, 1, 1));

    let (resp, events) = pop_ok(&mut svc);
    assert_eq!((resp.frame, resp.slice), (5, 0));
    assert!(has_event(&events, |e| matches!(e, Payload::RenderRunning(r) if r.id == "R")));
    pop_empty(&mut svc);

    let out = svc.job_complete(JobComplete { render_id: "R".to_string(), frame: 5, slice: 0 });
    assert!(matches!(&out[0], Payload::RenderComplete(c) if c.id == "R"));
}

#[test]
fn single_job_still_fails() {
    let mut svc = service();
    svc.render_submitted(submitted("R", 5, 5, 1, 1));
    pop_ok(&mut svc);
    let out = svc.job_failed(JobFailed { render_id: "R".to_string(), frame: 5, slice: 0 });
    assert!(matches!(&out[0], Payload::RenderFailed(f) if f.id == "R"));
}

#[test]
fn empty_queue_pops_empty_and_scales_to_zero() {
    let mut svc = service();
    pop_empty(&mut svc);
    assert_eq!(svc.get_scale_target().target, 0);
}

#[test]
fn duplicate_job_complete_counts_once() {
    let mut svc = service();
    svc.render_submitted(submitted("R", 1, 2, 1, 1));
    pop_ok(&mut svc);

    let out = svc.job_complete(JobComplete { render_id: "R".to_string(), frame: 1, slice: 0 });
    assert!(out.is_empty());
    assert_eq!(svc.get_scale_target().target, 1);

    // Redelivery of the same terminal event: the counter must not move.
    let out = svc.job_complete(JobComplete { render_id: "R".to_string(), frame: 1, slice: 0 });
    assert!(out.is_empty());
    assert_eq!(svc.get_scale_target().target, 1);
}

#[test]
fn scale_target_sums_remaining_jobs() {
    let mut svc = service();
    // A: 6 jobs, 2 finished -> 4 remaining.
    svc.render_submitted(submitted("A", 1, 3, 1, 2));
    // B: 7 jobs, none finished -> 7 remaining.
    svc.render_submitted(submitted("B", 1, 7, 1, 1));
    svc.job_canceled(render_queue::events::JobCanceled {
        render_id: "Z".to_string(),
        frame: 0,
        slice: 0,
    });

    let mut done = 0;
    while done < 2 {
        let (resp, _) = pop_ok(&mut svc);
        if resp.render_id == "A" {
            svc.job_complete(JobComplete {
                render_id: "A".to_string(),
                frame: resp.frame,
                slice: resp.slice,
            });
            done += 1;
        } else {
            svc.job_canceled(render_queue::events::JobCanceled {
                render_id: "B".to_string(),
                frame: resp.frame,
                slice: resp.slice,
            });
        }
    }
    // B's pointer may have moved, but its counters did not.
    let target = svc.get_scale_target().target;
    assert_eq!(target, 11);
}

#[test]
fn load_balance_covers_all_renders() {
    let mut svc = service();
    svc.render_submitted(submitted("A", 0, 9999, 1, 1));
    svc.render_submitted(submitted("B", 0, 9999, 1, 1));

    let mut count_a = 0usize;
    let mut count_b = 0usize;
    for _ in 0..10_000 {
        let (resp, _) = pop_ok(&mut svc);
        if resp.render_id == "A" {
            count_a += 1;
        } else {
            assert_eq!(resp.render_id, "B");
            count_b += 1;
        }
    }
    assert_eq!(count_a + count_b, 10_000);
    // Uniform selection with a wide tolerance.
    assert!(count_a > 2_000, "render A starved: {count_a}");
    assert!(count_b > 2_000, "render B starved: {count_b}");
}

#[test]
fn duplicate_submit_resets_counters_and_pointer() {
    let mut svc = service();
    svc.render_submitted(submitted("R", 1, 2, 1, 1));
    let (resp, _) = pop_ok(&mut svc);
    assert_eq!((resp.frame, resp.slice), (1, 0));
    svc.job_complete(JobComplete { render_id: "R".to_string(), frame: 1, slice: 0 });
    assert_eq!(svc.get_scale_target().target, 1);

    // Same (user_id, id): the second submission upserts and resets.
    let out = svc.render_submitted(submitted("R", 1, 2, 1, 1));
    assert!(matches!(&out[0], Payload::RenderPending(p) if p.id == "R"));
    assert_eq!(svc.get_scale_target().target, 2);
    let (resp, _) = pop_ok(&mut svc);
    assert_eq!((resp.frame, resp.slice), (1, 0));
}

#[test]
fn pop_reports_duplicate_reservation() {
    let mut svc = service();
    svc.render_submitted(submitted("R", 1, 2, 1, 1));
    pop_ok(&mut svc);
    // Resubmission while the first job is still in flight rewinds the
    // pointer; the next pop lands on the occupied coordinate.
    svc.render_submitted(submitted("R", 1, 2, 1, 1));
    let (res, _) = svc.pop(PopRequest { worker_id: "worker-1".to_string() });
    assert!(matches!(res, Err(QueueError::DuplicateJob)));
}

#[test]
fn route_dispatches_inbound_and_ignores_outbound() {
    let mut svc = service();
    let out = svc.route(Payload::RenderSubmitted(submitted("R", 1, 1, 1, 1)));
    assert!(matches!(&out[0], Payload::RenderPending(p) if p.id == "R"));

    // An outbound variant on the inbound subject is silently acknowledged.
    let out = svc.route(Payload::RenderPending(render_queue::events::RenderPending {
        id: "R".to_string(),
    }));
    assert!(out.is_empty());

    let (resp, _) = pop_ok(&mut svc);
    let out = svc.route(Payload::JobComplete(JobComplete {
        render_id: "R".to_string(),
        frame: resp.frame,
        slice: resp.slice,
    }));
    assert!(matches!(&out[0], Payload::RenderComplete(c) if c.id == "R"));

    let out = svc.route(Payload::RenderCancelRequested(RenderCancelRequested {
        id: "gone".to_string(),
    }));
    assert!(matches!(&out[0], Payload::RenderCanceled(c) if c.id == "gone"));
}

#[test]
fn job_canceled_leaves_counters_alone() {
    let mut svc = service();
    svc.render_submitted(submitted("R", 1, 2, 1, 1));
    let (resp, _) = pop_ok(&mut svc);
    let out = svc.job_canceled(render_queue::events::JobCanceled {
        render_id: "R".to_string(),
        frame: resp.frame,
        slice: resp.slice,
    });
    assert!(out.is_empty());
    assert_eq!(svc.get_scale_target().target, 2);
}
