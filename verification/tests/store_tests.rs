use render_queue::config::Config;
use render_queue::entity::{Job, Render};
use render_queue::load_balance::select_render;
use render_queue::repository::{JobRepository, RenderRepository, RepoError};
use render_queue::store::{MemJobRepository, MemRenderRepository};

fn render(id: &str, frame_start: i32, frame_end: i32) -> Render {
    Render::new(
        "user-1".to_string(),
        id.to_string(),
        "file-1".to_string(),
        1,
        frame_start,
        frame_end,
        1,
        1,
        "sub-1".to_string(),
    )
}

fn job(render_id: &str, frame: i32, slice: i32) -> Job {
    Job {
        user_id: "user-1".to_string(),
        render_id: render_id.to_string(),
        frame,
        slice,
        file_id: "file-1".to_string(),
        file_version: 1,
        total_slices: 1,
        worker_id: "worker-1".to_string(),
    }
}

#[test]
fn render_store_upserts_by_key() {
    let mut repo = MemRenderRepository::new();
    repo.store(&render("A", 1, 5));
    repo.store(&render("B", 1, 2));
    assert_eq!(repo.load_queue().len(), 2);

    // Same (user_id, id): every column is overwritten, nothing is added.
    let mut advanced = render("A", 1, 5);
    advanced.advance_pointer();
    repo.store(&advanced);
    assert_eq!(repo.load_queue().len(), 2);
    let got = repo.load(&"A".to_string()).expect("row A must exist");
    assert_eq!(got.pointer_frame, 2);
}

#[test]
fn render_load_missing_returns_none() {
    let repo = MemRenderRepository::new();
    assert!(repo.load(&"nope".to_string()).is_none());
}

#[test]
fn increment_returns_updated_row_or_none() {
    let mut repo = MemRenderRepository::new();
    repo.store(&render("A", 1, 3));
    let updated = repo.increment_completed_jobs(&"A".to_string()).expect("row A exists");
    assert_eq!(updated.completed_jobs, 1);
    let updated = repo.increment_completed_jobs(&"A".to_string()).expect("row A exists");
    assert_eq!(updated.completed_jobs, 2);

    // The compensating branch: a concurrently deleted render yields None.
    assert!(repo.increment_completed_jobs(&"gone".to_string()).is_none());
}

#[test]
fn render_delete_is_idempotent() {
    let mut repo = MemRenderRepository::new();
    repo.store(&render("A", 1, 3));
    repo.delete(&"A".to_string());
    assert!(repo.load(&"A".to_string()).is_none());
    repo.delete(&"A".to_string());
    assert!(repo.load_queue().is_empty());
}

#[test]
fn update_pointer_persists_only_pointer_columns() {
    let mut repo = MemRenderRepository::new();
    repo.store(&render("A", 1, 3));
    let mut r = render("A", 1, 3);
    r.advance_pointer();
    r.completed_jobs = 99;
    repo.update_pointer(&r);
    let got = repo.load(&"A".to_string()).unwrap();
    assert_eq!(got.pointer_frame, 2);
    assert_eq!(got.pointer_slice, 0);
    assert_eq!(got.completed_jobs, 0, "update_pointer must not touch counters");
}

#[test]
fn job_store_rejects_duplicate_identity() {
    let mut repo = MemJobRepository::new();
    assert!(repo.store(&job("R", 1, 0)).is_ok());
    let err = repo.store(&job("R", 1, 0));
    assert!(matches!(err, Err(RepoError::DuplicateJob)));
    assert_eq!(repo.count(&"R".to_string()), 1);
}

#[test]
fn job_delete_reports_whether_a_row_was_there() {
    let mut repo = MemJobRepository::new();
    repo.store(&job("R", 1, 0)).unwrap();
    assert!(repo.delete(&"R".to_string(), 1, 0));
    assert!(!repo.delete(&"R".to_string(), 1, 0));
    assert_eq!(repo.count(&"R".to_string()), 0);
}

#[test]
fn job_count_is_per_render() {
    let mut repo = MemJobRepository::new();
    repo.store(&job("R", 1, 0)).unwrap();
    repo.store(&job("R", 1, 1)).unwrap();
    repo.store(&job("S", 1, 0)).unwrap();
    assert_eq!(repo.count(&"R".to_string()), 2);
    assert_eq!(repo.count(&"S".to_string()), 1);
    assert_eq!(repo.count(&"T".to_string()), 0);
}

#[test]
fn select_render_skips_drained_renders() {
    // The random pick must land on the only live render: this fails if the
    // picked index were not a valid index of the filtered set.
    let mut drained = render("D", 1, 1);
    drained.advance_pointer();
    assert!(drained.is_queue_drained());
    let live = render("L", 1, 5);
    let picked = select_render(vec![drained, live]).expect("one render is live");
    assert_eq!(picked.id, "L");
}

#[test]
fn select_render_empty_or_all_drained_is_none() {
    assert!(select_render(Vec::new()).is_none());
    let mut d1 = render("A", 1, 1);
    d1.advance_pointer();
    let mut d2 = render("B", 1, 1);
    d2.advance_pointer();
    assert!(select_render(vec![d1, d2]).is_none());
}

#[test]
fn config_defaults() {
    let c = Config::with_defaults("postgres://localhost/db".to_string());
    assert_eq!(c.database_url, "postgres://localhost/db");
    assert_eq!(c.env, "");
    assert_eq!(c.nats_url, "nats://localhost:4222");
}

#[test]
fn config_new_keeps_values() {
    let c = Config::new(
        "db-url".to_string(),
        "prod".to_string(),
        "nats://bus:4222".to_string(),
    );
    assert_eq!(c.database_url, "db-url");
    assert_eq!(c.env, "prod");
    assert_eq!(c.nats_url, "nats://bus:4222");
}
