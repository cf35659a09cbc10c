use render_queue::entity::Render;

fn still(slices: i32) -> Render {
    Render::new(
        "user-1".to_string(),
        "render-1".to_string(),
        "file-1".to_string(),
        7,
        5,
        5,
        1,
        slices,
        "sub-1".to_string(),
    )
}

#[test]
fn total_jobs_counts_frames_times_slices() {
    assert_eq!(Render::total_jobs(1, 3, 1, 2), 6);
    assert_eq!(Render::total_jobs(0, 10, 2, 3), 18);
    assert_eq!(Render::total_jobs(5, 5, 1, 3), 3);
    assert_eq!(Render::total_jobs(0, 0, 1, 1), 1);
}

#[test]
fn total_jobs_truncates_partial_trailing_frame() {
    // (5 - 0) / 2 truncates: frames 0, 2, 4 only.
    assert_eq!(Render::total_jobs(0, 5, 2, 1), 3);
}

#[test]
fn new_render_starts_at_first_coordinate() {
    let r = still(1);
    assert_eq!(r.pointer_frame, 5);
    assert_eq!(r.pointer_slice, 0);
    assert_eq!(r.total_jobs, 1);
    assert_eq!(r.completed_jobs, 0);
    assert!(r.is_first());
    assert!(!r.is_queue_drained());
    assert!(!r.is_complete());
}

#[test]
fn advance_pointer_walks_slices_then_frames() {
    let mut r = Render::new(
        "u".to_string(),
        "r".to_string(),
        "f".to_string(),
        1,
        1,
        2,
        1,
        2,
        "s".to_string(),
    );
    assert_eq!((r.pointer_frame, r.pointer_slice), (1, 0));
    r.advance_pointer();
    assert_eq!((r.pointer_frame, r.pointer_slice), (1, 1));
    r.advance_pointer();
    assert_eq!((r.pointer_frame, r.pointer_slice), (2, 0));
    r.advance_pointer();
    assert_eq!((r.pointer_frame, r.pointer_slice), (2, 1));
    r.advance_pointer();
    assert!(r.is_queue_drained());
    assert_eq!(r.pointer_slice, 0);
}

#[test]
fn advance_pointer_respects_step() {
    let mut r = Render::new(
        "u".to_string(),
        "r".to_string(),
        "f".to_string(),
        1,
        10,
        14,
        2,
        1,
        "s".to_string(),
    );
    assert_eq!(r.total_jobs, 3);
    r.advance_pointer();
    assert_eq!((r.pointer_frame, r.pointer_slice), (12, 0));
    r.advance_pointer();
    assert_eq!((r.pointer_frame, r.pointer_slice), (14, 0));
    r.advance_pointer();
    assert!(r.is_queue_drained());
}

#[test]
fn get_job_returns_pointer_coordinate() {
    let r = still(3);
    let job = r.get_job("worker-9".to_string()).expect("live render must yield a job");
    assert_eq!(job.render_id, "render-1");
    assert_eq!(job.user_id, "user-1");
    assert_eq!(job.frame, 5);
    assert_eq!(job.slice, 0);
    assert_eq!(job.total_slices, 3);
    assert_eq!(job.file_version, 7);
    assert_eq!(job.worker_id, "worker-9");
}

#[test]
fn get_job_returns_none_when_drained() {
    let mut r = still(1);
    r.advance_pointer();
    assert!(r.is_queue_drained());
    assert!(r.get_job("w".to_string()).is_none());
}

#[test]
fn is_complete_tracks_counter() {
    let mut r = still(2);
    assert!(!r.is_complete());
    r.completed_jobs = 2;
    assert!(r.is_complete());
}
