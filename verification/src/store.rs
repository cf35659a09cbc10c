use vstd::prelude::*;
use crate::entity::{Job, Render};
use crate::repository::{
    JobRepository, RenderRepository, RepoError, cnt_ident, cnt_rid, has_ident, has_rid, idx_key,
    idx_rid, lemma_idx_key, lemma_idx_rid, rm_ident, rm_rid,
};

verus! {

impl Clone for Render {
    fn clone(&self) -> (r: Self)
        ensures
            r == *self,
    {
        Render {
            user_id: self.user_id.clone(),
            id: self.id.clone(),
            file_id: self.file_id.clone(),
            file_version: self.file_version,
            frame_start: self.frame_start,
            frame_end: self.frame_end,
            step: self.step,
            slices: self.slices,
            pointer_frame: self.pointer_frame,
            pointer_slice: self.pointer_slice,
            total_jobs: self.total_jobs,
            completed_jobs: self.completed_jobs,
            subscription_item_id: self.subscription_item_id.clone(),
        }
    }
}

impl Clone for Job {
    fn clone(&self) -> (r: Self)
        ensures
            r == *self,
    {
        Job {
            user_id: self.user_id.clone(),
            render_id: self.render_id.clone(),
            frame: self.frame,
            slice: self.slice,
            file_id: self.file_id.clone(),
            file_version: self.file_version,
            total_slices: self.total_slices,
            worker_id: self.worker_id.clone(),
        }
    }
}

/// The render table, realised in memory.
pub struct MemRenderRepository {
    rows: Vec<Render>,
}

impl MemRenderRepository {
    pub fn new() -> (r: Self)
        ensures
            r.model() == Seq::<Render>::empty(),
    {
        MemRenderRepository { rows: Vec::new() }
    }
}

impl RenderRepository for MemRenderRepository {
    closed spec fn model(&self) -> Seq<Render> {
        self.rows@
    }

    fn load_queue(&self) -> (q: Vec<Render>) {
        let mut q: Vec<Render> = Vec::new();
        let mut i: usize = 0;
        while i < self.rows.len()
            invariant
                i <= self.rows.len(),
                q@ == self.rows@.take(i as int),
            decreases self.rows.len() - i,
        {
            q.push(self.rows[i].clone());
            proof {
                assert(q@ =~= self.rows@.take(i as int + 1));
            }
            i = i + 1;
        }
        proof {
            assert(self.rows@.take(self.rows.len() as int) =~= self.rows@);
        }
        q
    }

    fn load(&self, id: &String) -> (r: Option<Render>) {
        proof {
            lemma_idx_rid(self.rows@, id@);
        }
        let mut i: usize = 0;
        while i < self.rows.len()
            invariant
                i <= self.rows.len(),
                forall|j: int| 0 <= j < i ==> self.rows@[j].id@ != id@,
            decreases self.rows.len() - i,
        {
            if self.rows[i].id == *id {
                proof {
                    lemma_idx_rid(self.rows@, id@);
                    assert(idx_rid(self.rows@, id@) == i);
                }
                return Some(self.rows[i].clone());
            }
            i = i + 1;
        }
        None
    }

    fn store(&mut self, render: &Render) {
        proof {
            lemma_idx_key(old(self).rows@, render.user_id@, render.id@);
        }
        let mut i: usize = 0;
        while i < self.rows.len()
            invariant
                i <= self.rows.len(),
                *self == *old(self),
                forall|j: int| 0 <= j < i ==> !(self.rows@[j].user_id@ == render.user_id@
                    && self.rows@[j].id@ == render.id@),
            decreases self.rows.len() - i,
        {
            if self.rows[i].user_id == render.user_id && self.rows[i].id == render.id {
                proof {
                    lemma_idx_key(self.rows@, render.user_id@, render.id@);
                    assert(idx_key(self.rows@, render.user_id@, render.id@) == i);
                }
                self.rows.set(i, render.clone());
                return ;
            }
            i = i + 1;
        }
        self.rows.push(render.clone());
    }

    fn update_pointer(&mut self, render: &Render) {
        proof {
            lemma_idx_rid(old(self).rows@, render.id@);
        }
        let mut i: usize = 0;
        while i < self.rows.len()
            invariant
                i <= self.rows.len(),
                *self == *old(self),
                forall|j: int| 0 <= j < i ==> self.rows@[j].id@ != render.id@,
            decreases self.rows.len() - i,
        {
            if self.rows[i].id == render.id {
                proof {
                    lemma_idx_rid(self.rows@, render.id@);
                    assert(idx_rid(self.rows@, render.id@) == i);
                }
                let mut row = self.rows[i].clone();
                row.pointer_frame = render.pointer_frame;
                row.pointer_slice = render.pointer_slice;
                self.rows.set(i, row);
                return ;
            }
            i = i + 1;
        }
    }

    fn increment_completed_jobs(&mut self, id: &String) -> (r: Option<Render>) {
        proof {
            lemma_idx_rid(old(self).rows@, id@);
        }
        let mut i: usize = 0;
        while i < self.rows.len()
            invariant
                i <= self.rows.len(),
                *self == *old(self),
                has_rid(old(self).rows@, id@) ==> old(self).rows@[idx_rid(
                    old(self).rows@,
                    id@,
                )].completed_jobs < i32::MAX,
                forall|j: int| 0 <= j < i ==> self.rows@[j].id@ != id@,
            decreases self.rows.len() - i,
        {
            if self.rows[i].id == *id {
                proof {
                    lemma_idx_rid(self.rows@, id@);
                    assert(idx_rid(self.rows@, id@) == i);
                }
                let mut row = self.rows[i].clone();
                row.completed_jobs = row.completed_jobs + 1;
                let updated = row.clone();
                self.rows.set(i, row);
                return Some(updated);
            }
            i = i + 1;
        }
        None
    }

    fn delete(&mut self, id: &String) {
        let mut kept: Vec<Render> = Vec::new();
        let mut i: usize = 0;
        while i < self.rows.len()
            invariant
                i <= self.rows.len(),
                *self == *old(self),
                kept@ == rm_rid(self.rows@.take(i as int), id@),
            decreases self.rows.len() - i,
        {
            proof {
                assert(self.rows@.take(i as int + 1).drop_last() =~= self.rows@.take(i as int));
                assert(self.rows@.take(i as int + 1).last() == self.rows@[i as int]);
            }
            if !(self.rows[i].id == *id) {
                kept.push(self.rows[i].clone());
            }
            i = i + 1;
        }
        proof {
            assert(self.rows@.take(self.rows.len() as int) =~= self.rows@);
        }
        self.rows = kept;
    }
}

/// The in-flight jobs table, realised in memory.
pub struct MemJobRepository {
    rows: Vec<Job>,
}

impl MemJobRepository {
    pub fn new() -> (r: Self)
        ensures
            r.model() == Seq::<Job>::empty(),
    {
        MemJobRepository { rows: Vec::new() }
    }
}

impl JobRepository for MemJobRepository {
    closed spec fn model(&self) -> Seq<Job> {
        self.rows@
    }

    fn store(&mut self, job: &Job) -> (r: Result<(), RepoError>) {
        let mut i: usize = 0;
        while i < self.rows.len()
            invariant
                i <= self.rows.len(),
                *self == *old(self),
                cnt_ident(self.rows@.take(i as int), job.render_id@, job.frame as int,
                    job.slice as int) == 0,
            decreases self.rows.len() - i,
        {
            proof {
                assert(self.rows@.take(i as int + 1).drop_last() =~= self.rows@.take(i as int));
                assert(self.rows@.take(i as int + 1).last() == self.rows@[i as int]);
            }
            if self.rows[i].render_id == job.render_id && self.rows[i].frame == job.frame
                && self.rows[i].slice == job.slice {
                proof {
                    crate::repository::lemma_cnt_ident_at(
                        self.rows@,
                        i as int,
                        job.render_id@,
                        job.frame as int,
                        job.slice as int,
                    );
                }
                return Err(RepoError::DuplicateJob);
            }
            i = i + 1;
        }
        proof {
            assert(self.rows@.take(self.rows.len() as int) =~= self.rows@);
        }
        self.rows.push(job.clone());
        Ok(())
    }

    fn delete(&mut self, render_id: &String, frame: i32, slice: i32) -> (deleted: bool) {
        let mut kept: Vec<Job> = Vec::new();
        let mut found: bool = false;
        let mut i: usize = 0;
        while i < self.rows.len()
            invariant
                i <= self.rows.len(),
                *self == *old(self),
                kept@ == rm_ident(self.rows@.take(i as int), render_id@, frame as int,
                    slice as int),
                found == has_ident(self.rows@.take(i as int), render_id@, frame as int,
                    slice as int),
            decreases self.rows.len() - i,
        {
            proof {
                assert(self.rows@.take(i as int + 1).drop_last() =~= self.rows@.take(i as int));
                assert(self.rows@.take(i as int + 1).last() == self.rows@[i as int]);
                crate::repository::lemma_cnt_ident_le_cnt_rid(
                    self.rows@.take(i as int),
                    render_id@,
                    frame as int,
                    slice as int,
                );
            }
            if self.rows[i].render_id == *render_id && self.rows[i].frame == frame
                && self.rows[i].slice == slice {
                found = true;
            } else {
                kept.push(self.rows[i].clone());
            }
            i = i + 1;
        }
        proof {
            assert(self.rows@.take(self.rows.len() as int) =~= self.rows@);
        }
        self.rows = kept;
        found
    }

    fn count(&self, render_id: &String) -> (n: i64) {
        let mut n: i64 = 0;
        let mut i: usize = 0;
        while i < self.rows.len()
            invariant
                i <= self.rows.len(),
                self.rows@.len() <= i64::MAX,
                n == cnt_rid(self.rows@.take(i as int), render_id@),
                0 <= n <= i,
            decreases self.rows.len() - i,
        {
            proof {
                assert(self.rows@.take(i as int + 1).drop_last() =~= self.rows@.take(i as int));
                assert(self.rows@.take(i as int + 1).last() == self.rows@[i as int]);
            }
            if self.rows[i].render_id == *render_id {
                n = n + 1;
            }
            i = i + 1;
        }
        proof {
            assert(self.rows@.take(self.rows.len() as int) =~= self.rows@);
        }
        n
    }
}

} // verus!
