use vstd::prelude::*;
use vstd::arithmetic::div_mod::{
    lemma_fundamental_div_mod, lemma_fundamental_div_mod_converse_div, lemma_div_is_ordered,
};

verus! {

/// One submitted render: a range of frames, each cut into `slices` slices,
/// with a reservation pointer and completion counters.
pub struct Render {
    // Identity
    pub user_id: String,
    pub id: String,

    // Source file
    pub file_id: String,
    pub file_version: i32,

    // Range
    pub frame_start: i32,
    pub frame_end: i32,
    pub step: i32,
    pub slices: i32,

    // Next coordinate to reserve
    pub pointer_frame: i32,
    pub pointer_slice: i32,

    // Completion counters
    pub total_jobs: i32,
    pub completed_jobs: i32,

    // Billing
    pub subscription_item_id: String,
}

/// One in-flight work unit, identified by `(render_id, frame, slice)`.
pub struct Job {
    pub user_id: String,
    pub render_id: String,
    pub frame: i32,
    pub slice: i32,

    pub file_id: String,
    pub file_version: i32,
    pub total_slices: i32,
    pub worker_id: String,
}

/// Number of frames in the range: `1 + (frame_end - frame_start) / step`,
/// truncating division (operands are non-negative wherever this is applied).
pub open spec fn spec_frames(frame_start: int, frame_end: int, step: int) -> int {
    1 + (frame_end - frame_start) / step
}

/// Total number of jobs of a render: frames times slices per frame.
pub open spec fn spec_total_jobs(frame_start: int, frame_end: int, step: int, slices: int) -> int {
    spec_frames(frame_start, frame_end, step) * slices
}

impl Render {
    /// No coordinate remains to reserve.
    pub open spec fn spec_drained(self) -> bool {
        self.pointer_frame > self.frame_end
    }

    /// Every job of the render has seen a terminal event.
    pub open spec fn spec_complete(self) -> bool {
        self.completed_jobs >= self.total_jobs
    }

    /// The pointer still sits on the initial coordinate: nothing reserved yet.
    pub open spec fn spec_first(self) -> bool {
        self.pointer_frame == self.frame_start && self.pointer_slice == 0
    }

    /// Jobs not yet finished.
    pub open spec fn spec_remaining(self) -> int {
        self.total_jobs - self.completed_jobs
    }

    /// How many coordinates have been reserved so far: the rank of the pointer
    /// in the lexicographic enumeration of `(frame, slice)` pairs.
    pub open spec fn reserved(self) -> int {
        ((self.pointer_frame - self.frame_start) / (self.step as int)) * self.slices
            + self.pointer_slice
    }

    /// Well-formedness: range constraints, the pointer on the frame grid and
    /// within one step past the end, slice within bounds, counters consistent.
    pub open spec fn wf(self) -> bool {
        &&& 1 <= self.step
        &&& 1 <= self.slices
        &&& self.frame_start <= self.frame_end
        &&& self.frame_end + self.step <= i32::MAX
        &&& self.frame_start <= self.pointer_frame <= self.frame_end + self.step
        &&& (self.pointer_frame - self.frame_start) % (self.step as int) == 0
        &&& 0 <= self.pointer_slice < self.slices
        &&& self.spec_drained() ==> self.pointer_slice == 0
        &&& self.total_jobs == spec_total_jobs(
            self.frame_start as int,
            self.frame_end as int,
            self.step as int,
            self.slices as int,
        )
        &&& 0 <= self.completed_jobs
    }

    /// The pointer after one reservation: next slice, or first slice of the
    /// next frame on the grid.
    pub open spec fn spec_advance(self) -> Render {
        if self.pointer_slice + 1 >= self.slices {
            Render {
                pointer_slice: 0,
                pointer_frame: (self.pointer_frame + self.step) as i32,
                ..self
            }
        } else {
            Render { pointer_slice: (self.pointer_slice + 1) as i32, ..self }
        }
    }

    /// The coordinate of rank `k` in the lexicographic enumeration of the
    /// render's `(frame, slice)` pairs.
    pub open spec fn coord_of_rank(self, k: int) -> (int, int) {
        (self.frame_start + (k / (self.slices as int)) * self.step, k % (self.slices as int))
    }

    pub fn new(
        user_id: String,
        id: String,
        file_id: String,
        file_version: i32,
        frame_start: i32,
        frame_end: i32,
        step: i32,
        slices: i32,
        subscription_item_id: String,
    ) -> (r: Render)
        requires
            1 <= step,
            1 <= slices,
            frame_start <= frame_end,
            frame_end - frame_start <= i32::MAX,
            frame_end + step <= i32::MAX,
            spec_total_jobs(frame_start as int, frame_end as int, step as int, slices as int)
                <= i32::MAX,
        ensures
            r.wf(),
            r.user_id == user_id,
            r.id == id,
            r.file_id == file_id,
            r.file_version == file_version,
            r.frame_start == frame_start,
            r.frame_end == frame_end,
            r.step == step,
            r.slices == slices,
            r.pointer_frame == frame_start,
            r.pointer_slice == 0,
            r.total_jobs == spec_total_jobs(
                frame_start as int,
                frame_end as int,
                step as int,
                slices as int,
            ),
            r.completed_jobs == 0,
            r.subscription_item_id == subscription_item_id,
            r.spec_first(),
            !r.spec_drained(),
    {
        let total: i32 = Self::total_jobs(frame_start, frame_end, step, slices);
        let r = Render {
            user_id,
            id,
            file_id,
            file_version,
            frame_start,
            frame_end,
            step,
            slices,
            pointer_frame: frame_start,
            pointer_slice: 0,
            total_jobs: total,
            completed_jobs: 0,
            subscription_item_id,
        };
        proof {
            vstd::arithmetic::div_mod::lemma_mod_multiples_basic(0, step as int);
            assert((r.pointer_frame - r.frame_start) % (r.step as int) == 0);
        }
        r
    }

    pub fn total_jobs(frame_start: i32, frame_end: i32, step: i32, slices: i32) -> (t: i32)
        requires
            1 <= step,
            1 <= slices,
            frame_start <= frame_end,
            frame_end - frame_start <= i32::MAX,
            spec_total_jobs(frame_start as int, frame_end as int, step as int, slices as int)
                <= i32::MAX,
        ensures
            t == spec_total_jobs(frame_start as int, frame_end as int, step as int, slices as int),
            1 <= t,
    {
        proof {
            let q = (frame_end - frame_start) as int / (step as int);
            lemma_div_is_ordered(0, (frame_end - frame_start) as int, step as int);
            assert((1 + q) * (slices as int) >= 1 + q) by (nonlinear_arith)
                requires q >= 0, slices >= 1;
            assert((1 + q) * (slices as int) >= 1) by (nonlinear_arith)
                requires q >= 0, slices >= 1;
        }
        let frames: i32 = 1 + (frame_end - frame_start) / step;
        frames * slices
    }

    pub fn get_job(&self, worker_id: String) -> (j: Option<Job>)
        ensures
            self.spec_drained() ==> j is None,
            !self.spec_drained() ==> j == Some(
                (Job {
                    user_id: self.user_id,
                    render_id: self.id,
                    frame: self.pointer_frame,
                    slice: self.pointer_slice,
                    file_id: self.file_id,
                    file_version: self.file_version,
                    total_slices: self.slices,
                    worker_id: worker_id,
                }),
            ),
    {
        if self.is_queue_drained() {
            return None;
        }

        Some(
            Job {
                user_id: self.user_id.clone(),
                render_id: self.id.clone(),
                frame: self.pointer_frame,
                slice: self.pointer_slice,

                file_id: self.file_id.clone(),
                file_version: self.file_version,
                total_slices: self.slices,
                worker_id,
            },
        )
    }

    pub fn advance_pointer(&mut self)
        requires
            old(self).wf(),
            !old(self).spec_drained(),
        ensures
            *final(self) == old(self).spec_advance(),
            final(self).wf(),
            final(self).reserved() == old(self).reserved() + 1,
            !final(self).spec_first(),
    {
        proof {
            old(self).lemma_advance_reserved();
        }
        self.pointer_slice = self.pointer_slice + 1;
        if self.pointer_slice >= self.slices {
            self.pointer_slice = 0;
            self.pointer_frame = self.pointer_frame + self.step;
        }
        proof {
            self.lemma_reserved_bounds();
        }
    }

    pub fn is_queue_drained(&self) -> (b: bool)
        ensures
            b == self.spec_drained(),
    {
        self.pointer_frame > self.frame_end
    }

    pub fn is_complete(&self) -> (b: bool)
        ensures
            b == self.spec_complete(),
    {
        self.completed_jobs >= self.total_jobs
    }

    pub fn is_first(&self) -> (b: bool)
        ensures
            b == self.spec_first(),
    {
        self.pointer_frame == self.frame_start && self.pointer_slice == 0
    }

    /// The reservation rank of a well-formed render lies between 0 and
    /// `total_jobs`; it reaches `total_jobs` exactly when the queue is
    /// drained, and 0 exactly when nothing has been reserved.
    pub proof fn lemma_reserved_bounds(self)
        requires
            self.wf(),
        ensures
            0 <= self.reserved() <= self.total_jobs,
            self.spec_drained() <==> self.reserved() == self.total_jobs,
            self.spec_first() <==> self.reserved() == 0,
    {
        let fs = self.frame_start as int;
        let fe = self.frame_end as int;
        let st = self.step as int;
        let sl = self.slices as int;
        let pf = self.pointer_frame as int;
        let ps = self.pointer_slice as int;
        let k = (pf - fs) / st;
        let q = (fe - fs) / st;

        lemma_fundamental_div_mod(pf - fs, st);
        lemma_fundamental_div_mod(fe - fs, st);
        assert(pf - fs == k * st);
        assert(k >= 0) by (nonlinear_arith)
            requires k * st == pf - fs, pf - fs >= 0, st >= 1;

        if pf <= fe {
            lemma_div_is_ordered(pf - fs, fe - fs, st);
            assert(k <= q);
            assert(k * sl + ps < (1 + q) * sl) by (nonlinear_arith)
                requires k <= q, 0 <= ps < sl, 0 <= k;
            assert(k * sl >= 0) by (nonlinear_arith)
                requires k >= 0, sl >= 1;
        } else {
            // Drained: the pointer sits exactly one frame past the last
            // on-grid frame, so the rank equals the total.
            let rem = (fe - fs) % st;
            assert(fe - fs == q * st + rem);
            assert(k > q) by (nonlinear_arith)
                requires k * st == pf - fs, pf - fs > q * st + rem, rem >= 0, st >= 1;
            assert(k < q + 2) by (nonlinear_arith)
                requires k * st == pf - fs, pf - fs <= fe - fs + st, fe - fs == q * st + rem,
                    rem < st, st >= 1;
            assert(k == q + 1);
            assert(k * sl == (1 + q) * sl) by (nonlinear_arith)
                requires k == q + 1;
            assert(k * sl >= 0) by (nonlinear_arith)
                requires k >= 0, sl >= 1;
        }

        if self.spec_first() {
            assert(k == 0) by (nonlinear_arith)
                requires k * st == pf - fs, pf == fs, st >= 1;
            assert(k * sl == 0) by (nonlinear_arith)
                requires k == 0;
        }
        if self.reserved() == 0 {
            vstd::arithmetic::div_mod::lemma_div_pos_is_pos(fe - fs, st);
            assert((1 + q) * sl >= 1) by (nonlinear_arith)
                requires q >= 0, sl >= 1;
            assert(pf <= fe);
            assert(k * sl >= 0 && ps >= 0);
            assert(k * sl == 0) by (nonlinear_arith)
                requires k * sl + ps == 0, k * sl >= 0, ps >= 0;
            assert(k == 0) by (nonlinear_arith)
                requires k * sl == 0, sl >= 1, k >= 0;
            assert(pf - fs == 0) by (nonlinear_arith)
                requires pf - fs == k * st, k == 0;
        }
    }

    /// The enumeration of a render's coordinates is strictly increasing in
    /// lexicographic order: a later rank lies on a later frame, or on the
    /// same frame at a later slice. The reserved coordinates, ranks `0` up
    /// to `reserved()`, therefore form an ordered prefix of it.
    pub proof fn lemma_rank_order_lexicographic(self, k1: int, k2: int)
        requires
            self.wf(),
            0 <= k1 < k2,
        ensures
            ({
                let c1 = self.coord_of_rank(k1);
                let c2 = self.coord_of_rank(k2);
                c1.0 < c2.0 || (c1.0 == c2.0 && c1.1 < c2.1)
            }),
    {
        let st = self.step as int;
        let sl = self.slices as int;
        let q1 = k1 / sl;
        let q2 = k2 / sl;
        lemma_fundamental_div_mod(k1, sl);
        lemma_fundamental_div_mod(k2, sl);
        lemma_div_is_ordered(k1, k2, sl);
        vstd::arithmetic::div_mod::lemma_mod_pos_bound(k1, sl);
        vstd::arithmetic::div_mod::lemma_mod_pos_bound(k2, sl);
        if q1 == q2 {
            assert(k1 % sl < k2 % sl) by (nonlinear_arith)
                requires
                    k1 == q1 * sl + k1 % sl,
                    k2 == q2 * sl + k2 % sl,
                    q1 == q2,
                    k1 < k2;
        } else {
            assert(q1 * st < q2 * st) by (nonlinear_arith)
                requires q1 < q2, st >= 1;
        }
    }

    /// The pointer sits exactly at the coordinate of the render's current
    /// reservation rank in the lexicographic enumeration of `(frame, slice)`
    /// pairs.
    pub proof fn lemma_pointer_is_rank_coord(self)
        requires
            self.wf(),
        ensures
            self.coord_of_rank(self.reserved()) == (
                self.pointer_frame as int,
                self.pointer_slice as int,
            ),
    {
        let fs = self.frame_start as int;
        let st = self.step as int;
        let sl = self.slices as int;
        let pf = self.pointer_frame as int;
        let ps = self.pointer_slice as int;
        let k = (pf - fs) / st;
        let n = self.reserved();

        lemma_fundamental_div_mod(pf - fs, st);
        assert(pf - fs == k * st);
        assert(k >= 0) by (nonlinear_arith)
            requires k * st == pf - fs, pf - fs >= 0, st >= 1;
        lemma_fundamental_div_mod_converse_div(n, sl, k, ps);
        vstd::arithmetic::div_mod::lemma_fundamental_div_mod_converse_mod(n, sl, k, ps);
        assert((n / sl) * st == k * st) by (nonlinear_arith)
            requires n / sl == k;
    }

    /// Advancing the pointer raises the reservation rank by exactly one and
    /// keeps the render well-formed.
    pub proof fn lemma_advance_reserved(self)
        requires
            self.wf(),
            !self.spec_drained(),
        ensures
            self.spec_advance().wf(),
            self.spec_advance().reserved() == self.reserved() + 1,
            !self.spec_advance().spec_first(),
    {
        let fs = self.frame_start as int;
        let fe = self.frame_end as int;
        let st = self.step as int;
        let sl = self.slices as int;
        let pf = self.pointer_frame as int;
        let ps = self.pointer_slice as int;
        let k = (pf - fs) / st;

        lemma_fundamental_div_mod(pf - fs, st);
        assert(pf - fs == k * st);
        assert(k >= 0) by (nonlinear_arith)
            requires k * st == pf - fs, pf - fs >= 0, st >= 1;

        if ps + 1 >= sl {
            // Roll over to the next frame on the grid.
            let a = self.spec_advance();
            assert(pf + st - fs == (k + 1) * st) by (nonlinear_arith)
                requires pf - fs == k * st;
            lemma_fundamental_div_mod_converse_div(pf + st - fs, st, k + 1, 0);
            vstd::arithmetic::div_mod::lemma_fundamental_div_mod_converse_mod(
                pf + st - fs, st, k + 1, 0);
            assert((k + 1) * sl == k * sl + sl) by (nonlinear_arith);
            assert(a.reserved() == self.reserved() + 1);
            assert(a.pointer_frame > a.frame_start) by (nonlinear_arith)
                requires
                    a.pointer_frame == pf + st,
                    pf >= fs,
                    st >= 1,
                    a.frame_start == fs;
        } else {
            assert(self.spec_advance().reserved() == self.reserved() + 1);
        }
    }
}

} // verus!
