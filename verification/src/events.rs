use vstd::prelude::*;

verus! {

// Inbound event bodies.

pub struct RenderSubmitted {
    pub user_id: String,
    pub id: String,
    pub file_id: String,
    pub file_version: i32,
    pub frame_start: i32,
    pub frame_end: i32,
    pub step: i32,
    pub slices: i32,
    pub subscription_item_id: String,
}

pub struct RenderCancelRequested {
    pub id: String,
}

pub struct JobComplete {
    pub render_id: String,
    pub frame: i32,
    pub slice: i32,
}

pub struct JobFailed {
    pub render_id: String,
    pub frame: i32,
    pub slice: i32,
}

pub struct JobCanceled {
    pub render_id: String,
    pub frame: i32,
    pub slice: i32,
}

// Outbound event bodies.

pub struct RenderPending {
    pub id: String,
}

pub struct RenderRunning {
    pub id: String,
}

pub struct RenderComplete {
    pub id: String,
}

pub struct RenderFailed {
    pub id: String,
}

pub struct RenderCanceled {
    pub id: String,
}

pub struct JobRunning {
    pub user_id: String,
    pub frame: i32,
    pub slice: i32,
    pub render_id: String,
    pub worker_id: String,
}

/// Every event that travels over the bus, inbound and outbound.
pub enum Payload {
    RenderSubmitted(RenderSubmitted),
    RenderCancelRequested(RenderCancelRequested),
    JobComplete(JobComplete),
    JobFailed(JobFailed),
    JobCanceled(JobCanceled),
    RenderPending(RenderPending),
    RenderRunning(RenderRunning),
    RenderComplete(RenderComplete),
    RenderFailed(RenderFailed),
    RenderCanceled(RenderCanceled),
    JobRunning(JobRunning),
}

impl Payload {
    /// The event announces that the render with this id started running.
    pub open spec fn is_running_for(self, id: Seq<char>) -> bool {
        self matches Payload::RenderRunning(x) && x.id@ == id
    }

    /// The event is one of the three terminal lifecycle events for this id.
    pub open spec fn is_terminal_for(self, id: Seq<char>) -> bool {
        ||| self matches Payload::RenderComplete(x) && x.id@ == id
        ||| self matches Payload::RenderFailed(x) && x.id@ == id
        ||| self matches Payload::RenderCanceled(x) && x.id@ == id
    }
}

// RPC surface.

pub struct PopRequest {
    pub worker_id: String,
}

pub struct PopResponse {
    pub user_id: String,
    pub render_id: String,
    pub frame: i32,
    pub slice: i32,
    pub file_id: String,
    pub file_version: i32,
    pub total_slices: i32,
    pub worker_id: String,
    pub subscription_item_id: String,
}

/// Application-level reply of an RPC: either the payload or a benign error.
pub enum ServiceResponse<T, E> {
    Success(T),
    Failure(E),
}

#[derive(Debug, PartialEq, Eq)]
pub enum PopError {
    QueueEmpty,
}

/// Faults of the queue itself, surfaced to the worker so that it retries.
#[derive(Debug, PartialEq, Eq)]
pub enum QueueError {
    /// The selected render could not produce a job; its row is corrupt.
    CorruptRender,
    /// The reserved coordinate already has an in-flight job row.
    DuplicateJob,
}

pub struct GetScaleTargetResponse {
    pub target: usize,
}

} // verus!
