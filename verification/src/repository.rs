use vstd::prelude::*;
use crate::entity::{Job, Render};

verus! {

/// Failure of a repository operation that the caller must handle.
#[derive(Debug, PartialEq, Eq)]
pub enum RepoError {
    /// A job row with the same `(render_id, frame, slice)` identity exists.
    DuplicateJob,
}

// ---------------------------------------------------------------------------
// Model of the render table: a sequence of rows. Rows are keyed by `id`
// (an opaque UUID, unique across the queue) and upserted by `(user_id, id)`.
// ---------------------------------------------------------------------------

/// Index of the first row whose `id` is `id`, or `s.len()` if there is none.
pub open spec fn idx_rid(s: Seq<Render>, id: Seq<char>) -> int
    decreases s.len(),
{
    if s.len() <= 0 {
        0
    } else {
        let pre = idx_rid(s.drop_last(), id);
        if pre < s.len() - 1 {
            pre
        } else if s.last().id@ == id {
            s.len() - 1
        } else {
            s.len() as int
        }
    }
}

/// Some row carries this render id.
pub open spec fn has_rid(s: Seq<Render>, id: Seq<char>) -> bool {
    idx_rid(s, id) < s.len()
}

/// Index of the first row with this `(user_id, id)` key, or `s.len()`.
pub open spec fn idx_key(s: Seq<Render>, user_id: Seq<char>, id: Seq<char>) -> int
    decreases s.len(),
{
    if s.len() <= 0 {
        0
    } else {
        let pre = idx_key(s.drop_last(), user_id, id);
        if pre < s.len() - 1 {
            pre
        } else if s.last().user_id@ == user_id && s.last().id@ == id {
            s.len() - 1
        } else {
            s.len() as int
        }
    }
}

pub open spec fn has_key(s: Seq<Render>, user_id: Seq<char>, id: Seq<char>) -> bool {
    idx_key(s, user_id, id) < s.len()
}

/// The table after an upsert of `r`, keyed by `(user_id, id)`: the first
/// matching row is overwritten whole, or a new row is appended.
pub open spec fn upsert(s: Seq<Render>, r: Render) -> Seq<Render> {
    if has_key(s, r.user_id@, r.id@) {
        s.update(idx_key(s, r.user_id@, r.id@), r)
    } else {
        s.push(r)
    }
}

/// The table after the row with this id got its pointer columns replaced.
pub open spec fn set_pointer(s: Seq<Render>, id: Seq<char>, pf: i32, ps: i32) -> Seq<Render> {
    if has_rid(s, id) {
        s.update(
            idx_rid(s, id),
            (Render { pointer_frame: pf, pointer_slice: ps, ..s[idx_rid(s, id)] }),
        )
    } else {
        s
    }
}

/// One render row with its completed-jobs counter advanced by one.
pub open spec fn bump(r: Render) -> Render {
    Render { completed_jobs: (r.completed_jobs + 1) as i32, ..r }
}

/// The table after the atomic increment of `completed_jobs` for this id.
pub open spec fn inc_cj(s: Seq<Render>, id: Seq<char>) -> Seq<Render> {
    if has_rid(s, id) {
        s.update(idx_rid(s, id), bump(s[idx_rid(s, id)]))
    } else {
        s
    }
}

/// The table after every row with this id is deleted.
pub open spec fn rm_rid(s: Seq<Render>, id: Seq<char>) -> Seq<Render>
    decreases s.len(),
{
    if s.len() <= 0 {
        Seq::empty()
    } else if s.last().id@ == id {
        rm_rid(s.drop_last(), id)
    } else {
        rm_rid(s.drop_last(), id).push(s.last())
    }
}

// ---------------------------------------------------------------------------
// Model of the jobs table.
// ---------------------------------------------------------------------------

/// Number of in-flight job rows of this render.
pub open spec fn cnt_rid(jobs: Seq<Job>, rid: Seq<char>) -> int
    decreases jobs.len(),
{
    if jobs.len() <= 0 {
        0
    } else {
        cnt_rid(jobs.drop_last(), rid) + if jobs.last().render_id@ == rid {
            1int
        } else {
            0int
        }
    }
}

/// Number of job rows with exactly this `(render_id, frame, slice)` identity.
pub open spec fn cnt_ident(jobs: Seq<Job>, rid: Seq<char>, frame: int, slice: int) -> int
    decreases jobs.len(),
{
    if jobs.len() <= 0 {
        0
    } else {
        cnt_ident(jobs.drop_last(), rid, frame, slice) + if jobs.last().render_id@ == rid
            && jobs.last().frame == frame && jobs.last().slice == slice {
            1int
        } else {
            0int
        }
    }
}

pub open spec fn has_ident(jobs: Seq<Job>, rid: Seq<char>, frame: int, slice: int) -> bool {
    cnt_ident(jobs, rid, frame, slice) > 0
}

/// The jobs table after every row with this identity is deleted.
pub open spec fn rm_ident(jobs: Seq<Job>, rid: Seq<char>, frame: int, slice: int) -> Seq<Job>
    decreases jobs.len(),
{
    if jobs.len() <= 0 {
        Seq::empty()
    } else if jobs.last().render_id@ == rid && jobs.last().frame == frame
        && jobs.last().slice == slice {
        rm_ident(jobs.drop_last(), rid, frame, slice)
    } else {
        rm_ident(jobs.drop_last(), rid, frame, slice).push(jobs.last())
    }
}

// ---------------------------------------------------------------------------
// Facts about the model.
// ---------------------------------------------------------------------------

/// `idx_rid` points at the first row with the given id.
pub proof fn lemma_idx_rid(s: Seq<Render>, id: Seq<char>)
    ensures
        0 <= idx_rid(s, id) <= s.len(),
        idx_rid(s, id) < s.len() ==> s[idx_rid(s, id)].id@ == id,
        forall|j: int| 0 <= j < idx_rid(s, id) ==> s[j].id@ != id,
    decreases s.len(),
{
    if s.len() > 0 {
        lemma_idx_rid(s.drop_last(), id);
        assert forall|j: int| 0 <= j < idx_rid(s, id) implies s[j].id@ != id by {
            if j < s.len() - 1 {
                assert(s[j] == s.drop_last()[j]);
            }
        }
    }
}

/// `idx_key` points at the first row with the given `(user_id, id)` key.
pub proof fn lemma_idx_key(s: Seq<Render>, user_id: Seq<char>, id: Seq<char>)
    ensures
        0 <= idx_key(s, user_id, id) <= s.len(),
        idx_key(s, user_id, id) < s.len() ==> s[idx_key(s, user_id, id)].user_id@ == user_id
            && s[idx_key(s, user_id, id)].id@ == id,
        forall|j: int| 0 <= j < idx_key(s, user_id, id) ==> !(s[j].user_id@ == user_id
            && s[j].id@ == id),
    decreases s.len(),
{
    if s.len() > 0 {
        lemma_idx_key(s.drop_last(), user_id, id);
        assert forall|j: int| 0 <= j < idx_key(s, user_id, id) implies !(s[j].user_id@ == user_id
            && s[j].id@ == id) by {
            if j < s.len() - 1 {
                assert(s[j] == s.drop_last()[j]);
            }
        }
    }
}

/// The row stands somewhere in the table.
pub open spec fn table_has(s: Seq<Render>, r: Render) -> bool {
    exists|j: int| 0 <= j < s.len() && s[j] == r
}

/// Every row kept by `rm_rid` comes from the original table and has a
/// different id.
pub proof fn lemma_rm_rid(s: Seq<Render>, id: Seq<char>)
    ensures
        rm_rid(s, id).len() <= s.len(),
        forall|k: int| 0 <= k < rm_rid(s, id).len() ==> rm_rid(s, id)[k].id@ != id,
        forall|k: int| 0 <= k < rm_rid(s, id).len() ==> table_has(s, #[trigger] rm_rid(s, id)[k]),
        has_rid(s, id) ==> rm_rid(s, id).len() < s.len(),
    decreases s.len(),
{
    lemma_idx_rid(s, id);
    if s.len() > 0 {
        lemma_rm_rid(s.drop_last(), id);
        lemma_idx_rid(s.drop_last(), id);
        let r = rm_rid(s, id);
        assert forall|k: int| 0 <= k < r.len() implies table_has(s, #[trigger] r[k]) by {
            if s.last().id@ == id || k < r.len() - 1 {
                let j = choose|j: int| 0 <= j < s.drop_last().len() && s.drop_last()[j] == r[k];
                assert(s[j] == r[k]);
            } else {
                assert(s[s.len() - 1] == r[k]);
            }
        }
    }
}

/// Deleting by id keeps the remaining ids pairwise distinct.
pub proof fn lemma_rm_rid_unique(s: Seq<Render>, id: Seq<char>)
    requires
        forall|i: int, j: int| 0 <= i < j < s.len() ==> s[i].id@ != s[j].id@,
    ensures
        forall|i: int, j: int| 0 <= i < j < rm_rid(s, id).len() ==> rm_rid(s, id)[i].id@
            != rm_rid(s, id)[j].id@,
    decreases s.len(),
{
    if s.len() > 0 {
        lemma_rm_rid_unique(s.drop_last(), id);
        lemma_rm_rid(s.drop_last(), id);
        let r = rm_rid(s, id);
        if s.last().id@ != id {
            assert forall|i: int, j: int| 0 <= i < j < r.len() implies r[i].id@ != r[j].id@ by {
                if j == r.len() - 1 {
                    assert(table_has(s.drop_last(), r[i]));
                    let m = choose|m: int| 0 <= m < s.drop_last().len() && s.drop_last()[m]
                        == r[i];
                    assert(s[m] == r[i]);
                    assert(r[j] == s[s.len() - 1]);
                }
            }
        }
    }
}

/// Counts are non-negative and no larger than the table.
pub proof fn lemma_cnt_rid_bounds(jobs: Seq<Job>, rid: Seq<char>)
    ensures
        0 <= cnt_rid(jobs, rid) <= jobs.len(),
    decreases jobs.len(),
{
    if jobs.len() > 0 {
        lemma_cnt_rid_bounds(jobs.drop_last(), rid);
    }
}

/// Rows with a full identity match are among the rows of that render.
pub proof fn lemma_cnt_ident_le_cnt_rid(jobs: Seq<Job>, rid: Seq<char>, frame: int, slice: int)
    ensures
        0 <= cnt_ident(jobs, rid, frame, slice) <= cnt_rid(jobs, rid),
    decreases jobs.len(),
{
    if jobs.len() > 0 {
        lemma_cnt_ident_le_cnt_rid(jobs.drop_last(), rid, frame, slice);
    }
}

/// A row with this identity makes its identity count positive.
pub proof fn lemma_cnt_ident_at(jobs: Seq<Job>, i: int, rid: Seq<char>, frame: int, slice: int)
    requires
        0 <= i < jobs.len(),
        jobs[i].render_id@ == rid,
        jobs[i].frame == frame,
        jobs[i].slice == slice,
    ensures
        cnt_ident(jobs, rid, frame, slice) > 0,
    decreases jobs.len(),
{
    lemma_cnt_ident_le_cnt_rid(jobs.drop_last(), rid, frame, slice);
    if i < jobs.len() - 1 {
        lemma_cnt_ident_at(jobs.drop_last(), i, rid, frame, slice);
    }
}

/// Deleting an identity that has no rows leaves the table as it was.
pub proof fn lemma_rm_ident_absent(jobs: Seq<Job>, rid: Seq<char>, frame: int, slice: int)
    requires
        cnt_ident(jobs, rid, frame, slice) == 0,
    ensures
        rm_ident(jobs, rid, frame, slice) == jobs,
    decreases jobs.len(),
{
    if jobs.len() > 0 {
        lemma_cnt_ident_le_cnt_rid(jobs.drop_last(), rid, frame, slice);
        lemma_rm_ident_absent(jobs.drop_last(), rid, frame, slice);
        assert(rm_ident(jobs, rid, frame, slice) =~= jobs);
    }
}

/// Appending one job row raises the per-render count of its render by one
/// and leaves every other count unchanged.
pub proof fn lemma_cnt_rid_push(jobs: Seq<Job>, j: Job, rid: Seq<char>)
    ensures
        cnt_rid(jobs.push(j), rid) == cnt_rid(jobs, rid) + if j.render_id@ == rid {
            1int
        } else {
            0int
        },
{
    assert(jobs.push(j).drop_last() =~= jobs);
    assert(jobs.push(j).last() == j);
}

/// Appending one job row raises the count of its own identity by one and
/// leaves every other identity count unchanged.
pub proof fn lemma_cnt_ident_push(jobs: Seq<Job>, j: Job, rid: Seq<char>, frame: int, slice: int)
    ensures
        cnt_ident(jobs.push(j), rid, frame, slice) == cnt_ident(jobs, rid, frame, slice)
            + if j.render_id@ == rid && j.frame == frame && j.slice == slice {
            1int
        } else {
            0int
        },
{
    assert(jobs.push(j).drop_last() =~= jobs);
    assert(jobs.push(j).last() == j);
}

/// Deleting one identity removes exactly its rows: the deleted identity's
/// count drops to zero, and for every render the row count drops by the
/// number of deleted rows of that render.
pub proof fn lemma_rm_ident(jobs: Seq<Job>, rid: Seq<char>, frame: int, slice: int)
    ensures
        rm_ident(jobs, rid, frame, slice).len() == jobs.len() - cnt_ident(jobs, rid, frame, slice),
        cnt_ident(rm_ident(jobs, rid, frame, slice), rid, frame, slice) == 0,
        forall|rid2: Seq<char>| #[trigger] cnt_rid(rm_ident(jobs, rid, frame, slice), rid2)
            == cnt_rid(jobs, rid2) - (if rid2 == rid {
            cnt_ident(jobs, rid, frame, slice)
        } else {
            0int
        }),
    decreases jobs.len(),
{
    if jobs.len() > 0 {
        lemma_rm_ident(jobs.drop_last(), rid, frame, slice);
        let last = jobs.last();
        if !(last.render_id@ == rid && last.frame == frame && last.slice == slice) {
            lemma_cnt_ident_push(
                rm_ident(jobs.drop_last(), rid, frame, slice),
                last,
                rid,
                frame,
                slice,
            );
            assert forall|rid2: Seq<char>| #[trigger] cnt_rid(
                rm_ident(jobs, rid, frame, slice),
                rid2,
            ) == cnt_rid(jobs, rid2) - (if rid2 == rid {
                cnt_ident(jobs, rid, frame, slice)
            } else {
                0int
            }) by {
                lemma_cnt_rid_push(rm_ident(jobs.drop_last(), rid, frame, slice), last, rid2);
            }
        }
    }
}

// ---------------------------------------------------------------------------
// The repository contracts. The durable store is an external collaborator;
// these traits state, over the sequence model above, exactly what the core
// consumes. `MemRenderRepository` and `MemJobRepository` realise them in
// verified code. Rows are keyed uniquely in practice (ids are UUIDs), so the
// first-match semantics below coincides with the store's by-key semantics.
// ---------------------------------------------------------------------------

pub trait RenderRepository: Sized {
    /// The rows of the render table.
    spec fn model(&self) -> Seq<Render>;

    /// All non-terminal renders.
    fn load_queue(&self) -> (q: Vec<Render>)
        ensures
            q@ == self.model(),
    ;

    /// The row with this id, if any.
    fn load(&self, id: &String) -> (r: Option<Render>)
        ensures
            has_rid(self.model(), id@) ==> r == Some(self.model()[idx_rid(self.model(), id@)]),
            !has_rid(self.model(), id@) ==> r is None,
    ;

    /// Upsert keyed by `(user_id, id)`: overwrites every column.
    fn store(&mut self, render: &Render)
        ensures
            final(self).model() == upsert(old(self).model(), *render),
    ;

    /// Persists the pointer columns of the row with this render's id.
    fn update_pointer(&mut self, render: &Render)
        ensures
            final(self).model() == set_pointer(
                old(self).model(),
                render.id@,
                render.pointer_frame,
                render.pointer_slice,
            ),
    ;

    /// Atomically increments `completed_jobs` and returns the updated row;
    /// `None` when the render was deleted concurrently.
    fn increment_completed_jobs(&mut self, id: &String) -> (r: Option<Render>)
        requires
            has_rid(old(self).model(), id@) ==> old(self).model()[idx_rid(
                old(self).model(),
                id@,
            )].completed_jobs < i32::MAX,
        ensures
            final(self).model() == inc_cj(old(self).model(), id@),
            has_rid(old(self).model(), id@) ==> r == Some(
                bump(old(self).model()[idx_rid(old(self).model(), id@)]),
            ),
            !has_rid(old(self).model(), id@) ==> r is None,
    ;

    /// Idempotent removal by id.
    fn delete(&mut self, id: &String)
        ensures
            final(self).model() == rm_rid(old(self).model(), id@),
    ;
}

pub trait JobRepository: Sized {
    /// The rows of the in-flight jobs table.
    spec fn model(&self) -> Seq<Job>;

    /// Inserts a new row; a duplicate `(render_id, frame, slice)` identity
    /// is an error and leaves the table unchanged.
    fn store(&mut self, job: &Job) -> (r: Result<(), RepoError>)
        ensures
            r is Ok ==> !has_ident(
                old(self).model(),
                job.render_id@,
                job.frame as int,
                job.slice as int,
            ) && final(self).model() == old(self).model().push(*job),
            r is Err ==> has_ident(
                old(self).model(),
                job.render_id@,
                job.frame as int,
                job.slice as int,
            ) && final(self).model() == old(self).model() && r == Err::<(), RepoError>(
                RepoError::DuplicateJob,
            ),
    ;

    /// Idempotent removal of one job identity; reports whether a row was
    /// there to remove.
    fn delete(&mut self, render_id: &String, frame: i32, slice: i32) -> (deleted: bool)
        ensures
            final(self).model() == rm_ident(
                old(self).model(),
                render_id@,
                frame as int,
                slice as int,
            ),
            deleted == has_ident(old(self).model(), render_id@, frame as int, slice as int),
    ;

    /// Number of in-flight rows of this render.
    fn count(&self, render_id: &String) -> (n: i64)
        requires
            self.model().len() <= i64::MAX,
        ensures
            n == cnt_rid(self.model(), render_id@),
    ;
}

} // verus!
