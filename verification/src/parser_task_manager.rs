//! The task scheduler: partitions a batch of parsing tasks into contiguous
//! per-worker ranges, runs the pure matching callback over every task, and
//! returns the per-task results concatenated in worker order, aligned with
//! the order in which tasks were added.

use vstd::prelude::*;

use crate::datatype::{views, Metadata, RecordModel};
use crate::pattern::models;

verus! {

/// Error surfaced when a worker fails catastrophically; no partial results
/// accompany it.
#[derive(Clone, Copy, Debug, PartialEq, Eq, Structural)]
pub enum ParserTaskManagerError {
    ThreadError,
}

pub type ParserTaskManagerResult<T> = Result<T, ParserTaskManagerError>;

/// The pure matching callback a task carries: from one line and the active
/// pattern sets to an optional record.
pub trait ParserCallback: Sized {
    /// The record the callback computes; a function of the task data alone.
    spec fn spec_call(
        &self,
        line: Seq<char>,
        index: u32,
        hash: u64,
        pats: Seq<Seq<char>>,
        fins: Seq<Seq<char>>,
    ) -> Option<RecordModel>;

    /// The condition under which the callback may run.
    spec fn callable(&self, pats: Seq<Seq<char>>, fins: Seq<Seq<char>>) -> bool;

    /// Runs the callback on one task's data.
    fn call(
        &self,
        line: &str,
        index: u32,
        hash_value: u64,
        reg_pattern_list: &Vec<String>,
        finished_reg_pattern_list: &Vec<String>,
    ) -> (r: Option<Metadata>)
        requires
            self.callable(views(reg_pattern_list@), views(finished_reg_pattern_list@)),
        ensures
            models(
                r,
                self.spec_call(
                    line@,
                    index,
                    hash_value,
                    views(reg_pattern_list@),
                    views(finished_reg_pattern_list@),
                ),
            ),
            r matches Some(m) ==> m.wf() && m.index == index && m.id == hash_value,
    ;
}

/// One parsing task: a line, its position, its cache key, and the pattern
/// sets under which it is parsed.
pub struct ParserTask<F: ParserCallback> {
    pub index: u32,
    pub hash_value: u64,
    pub line: String,
    pub reg_pattern_list: Vec<String>,
    pub finished_reg_pattern_list: Vec<String>,
    pub callback: F,
}

impl<F: ParserCallback> ParserTask<F> {
    /// The task's callback may run on its own pattern sets.
    pub open spec fn callable(self) -> bool {
        self.callback.callable(
            views(self.reg_pattern_list@),
            views(self.finished_reg_pattern_list@),
        )
    }

    /// The record the callback yields for the task's data.
    pub open spec fn spec_result(self) -> Option<RecordModel> {
        self.callback.spec_call(
            self.line@,
            self.index,
            self.hash_value,
            views(self.reg_pattern_list@),
            views(self.finished_reg_pattern_list@),
        )
    }
}

/// Fans a batch of tasks out over a bounded number of workers and collects
/// per-task results; holds no state between runs.
pub struct ParserTaskManager<F: ParserCallback> {
    max_thread_num: usize,
    min_tasks_per_thread: usize,
    task_list: Vec<ParserTask<F>>,
}

/// The ceiling of `a / b`, in the overflow-free shape the scheduler computes.
pub open spec fn spec_ceil_div(a: int, b: int) -> int {
    if a == 0 {
        0
    } else {
        (a - 1) / b + 1
    }
}

/// Computes the ceiling of `a / b`.
fn ceil_div(a: usize, b: usize) -> (r: usize)
    requires
        b >= 1,
    ensures
        r == spec_ceil_div(a as int, b as int),
        r * b >= a,
        r <= a,
        a >= 1 ==> r >= 1,
{
    if a == 0 {
        0
    } else {
        let q = (a - 1) / b;
        proof {
            let ai = a as int;
            let bi = b as int;
            let qi = q as int;
            vstd::arithmetic::div_mod::lemma_fundamental_div_mod(ai - 1, bi);
            let rem = (ai - 1) % bi;
            vstd::arithmetic::div_mod::lemma_mod_bound(ai - 1, bi);
            assert(bi * qi == ai - 1 - rem);
            assert((qi + 1) * bi == bi * qi + bi) by (nonlinear_arith);
            assert(qi <= ai - 1) by (nonlinear_arith)
                requires
                    bi * qi == ai - 1 - rem,
                    bi >= 1,
                    rem >= 0,
                    qi >= 0,
            ;
        }
        q + 1
    }
}

impl<F: ParserCallback> ParserTaskManager<F> {
    /// The tuning parameters are positive.
    pub closed spec fn wf(self) -> bool {
        self.max_thread_num >= 1 && self.min_tasks_per_thread >= 1
    }

    /// The tasks added so far, in order.
    pub closed spec fn spec_tasks(self) -> Seq<ParserTask<F>> {
        self.task_list@
    }

    /// The thread bound the scheduler was built with.
    pub closed spec fn spec_max_threads(self) -> int {
        self.max_thread_num as int
    }

    /// The per-thread task floor the scheduler was built with.
    pub closed spec fn spec_min_tasks(self) -> int {
        self.min_tasks_per_thread as int
    }

    /// The worker count for the current batch: `ceil(tasks /
    /// min_tasks_per_thread)`, clamped between one and the thread bound,
    /// so even an empty batch is given one (idle) worker.
    pub closed spec fn spec_thread_count(self) -> int {
        let c = spec_ceil_div(self.task_list@.len() as int, self.min_tasks_per_thread as int);
        let capped = if c < self.max_thread_num {
            c
        } else {
            self.max_thread_num as int
        };
        if capped >= 1 {
            capped
        } else {
            1int
        }
    }

    /// Law: the worker count is the ceiling of the task count over the
    /// per-thread floor, clamped below at one and above by the thread
    /// bound.
    pub proof fn lemma_thread_count_formula(self)
        ensures
            self.spec_thread_count() == {
                let c = spec_ceil_div(self.spec_tasks().len() as int, self.spec_min_tasks());
                let capped = if c < self.spec_max_threads() {
                    c
                } else {
                    self.spec_max_threads()
                };
                if capped >= 1 {
                    capped
                } else {
                    1int
                }
            },
            self.wf() ==> 1 <= self.spec_thread_count() <= self.spec_max_threads(),
    {
    }

    /// A scheduler bounded by `max_thread_num` workers, each receiving at
    /// least `min_tasks_per_thread` tasks when possible; a zero bound is
    /// raised to one. Callers fold the machine's available parallelism
    /// into `max_thread_num`.
    pub fn new(max_thread_num: usize, min_tasks_per_thread: usize) -> (r: Self)
        ensures
            r.wf(),
            r.spec_max_threads() == if max_thread_num >= 1 {
                max_thread_num as int
            } else {
                1int
            },
            r.spec_min_tasks() == if min_tasks_per_thread >= 1 {
                min_tasks_per_thread as int
            } else {
                1int
            },
            r.spec_tasks() == Seq::<ParserTask<F>>::empty(),
    {
        Self {
            max_thread_num: if max_thread_num >= 1 {
                max_thread_num
            } else {
                1
            },
            min_tasks_per_thread: if min_tasks_per_thread >= 1 {
                min_tasks_per_thread
            } else {
                1
            },
            task_list: Vec::new(),
        }
    }

    /// Empties the batch: the scheduler holds no state between runs.
    pub fn clear(&mut self)
        ensures
            final(self).spec_tasks() == Seq::<ParserTask<F>>::empty(),
            final(self).spec_max_threads() == old(self).spec_max_threads(),
            final(self).spec_min_tasks() == old(self).spec_min_tasks(),
            final(self).wf() == old(self).wf(),
    {
        self.task_list.clear();
    }

    /// Appends one task to the current batch.
    pub fn add_task(&mut self, task: ParserTask<F>)
        ensures
            final(self).spec_tasks() == old(self).spec_tasks().push(task),
            final(self).spec_max_threads() == old(self).spec_max_threads(),
            final(self).spec_min_tasks() == old(self).spec_min_tasks(),
            final(self).wf() == old(self).wf(),
    {
        self.task_list.push(task);
    }

    /// The number of tasks in the current batch.
    pub fn get_task_count(&self) -> (r: usize)
        ensures
            r == self.spec_tasks().len(),
    {
        self.task_list.len()
    }

    /// The number of workers the current batch would use.
    pub fn get_thread_count(&self) -> (r: usize)
        requires
            self.wf(),
        ensures
            r == self.spec_thread_count(),
    {
        let total_tasks = self.get_task_count();
        let calculated_threads = ceil_div(total_tasks, self.min_tasks_per_thread);
        let capped = if calculated_threads < self.max_thread_num {
            calculated_threads
        } else {
            self.max_thread_num
        };
        if capped >= 1 {
            capped
        } else {
            1
        }
    }

    /// Runs every task of the batch: the task list is divided into
    /// contiguous per-worker ranges of `ceil(tasks / workers)` tasks, each
    /// worker fills a private buffer, and the buffers are concatenated in
    /// worker order after all complete, so the results align with the
    /// order in which tasks were added.
    pub fn run(&self) -> (r: ParserTaskManagerResult<Vec<Option<Metadata>>>)
        requires
            self.wf(),
            forall|i: int| 0 <= i < self.spec_tasks().len() ==> self.spec_tasks()[i].callable(),
        ensures
            r matches Ok(v) && v@.len() == self.spec_tasks().len(),
            r matches Ok(v) ==> forall|i: int|
                0 <= i < v@.len() ==> models(v@[i], #[trigger] self.spec_tasks()[i].spec_result())
                    && (v@[i] matches Some(m) ==> m.wf() && m.index == self.spec_tasks()[i].index
                    && m.id == self.spec_tasks()[i].hash_value),
    {
        let mut final_result: Vec<Option<Metadata>> = Vec::new();

        let thread_num = self.get_thread_count();
        let task_num = self.get_task_count();

        if task_num == 0 {
            return Ok(final_result);
        }
        let chunk = ceil_div(task_num, thread_num);
        proof {
            assert(chunk * thread_num >= task_num);
        }

        let mut w: usize = 0;
        while w < thread_num
            invariant
                0 <= w <= thread_num,
                1 <= thread_num,
                1 <= chunk,
                task_num == self.spec_tasks().len(),
                chunk * thread_num >= task_num,
                self.wf(),
                forall|i: int| 0 <= i < self.spec_tasks().len() ==> self.spec_tasks()[i].callable(),
                final_result@.len() == if w * chunk <= task_num {
                    w * chunk
                } else {
                    task_num as int
                },
                forall|i: int|
                    0 <= i < final_result@.len() ==> models(
                        final_result@[i],
                        #[trigger] self.spec_tasks()[i].spec_result(),
                    ) && (final_result@[i] matches Some(m) ==> m.wf() && m.index
                        == self.spec_tasks()[i].index && m.id == self.spec_tasks()[i].hash_value),
            decreases thread_num - w,
        {
            let mut worker_buf: Vec<Option<Metadata>> = Vec::new();
            let start_index = final_result.len();
            let end_index = if task_num - start_index > chunk {
                start_index + chunk
            } else {
                task_num
            };
            let mut j = start_index;
            while j < end_index
                invariant
                    start_index <= j <= end_index <= task_num,
                    task_num == self.spec_tasks().len(),
                    self.wf(),
                    forall|i: int|
                        0 <= i < self.spec_tasks().len() ==> self.spec_tasks()[i].callable(),
                    worker_buf@.len() == j - start_index,
                    forall|i: int|
                        0 <= i < worker_buf@.len() ==> models(
                            worker_buf@[i],
                            #[trigger] self.spec_tasks()[start_index + i].spec_result(),
                        ) && (worker_buf@[i] matches Some(m) ==> m.wf() && m.index
                            == self.spec_tasks()[start_index + i].index && m.id
                            == self.spec_tasks()[start_index + i].hash_value),
                decreases end_index - j,
            {
                let task = &self.task_list[j];
                let metadata = task.callback.call(
                    task.line.as_str(),
                    task.index,
                    task.hash_value,
                    &task.reg_pattern_list,
                    &task.finished_reg_pattern_list,
                );
                worker_buf.push(metadata);
                j += 1;
            }
            let ghost buf_snap = worker_buf@;
            let ghost pre_snap = final_result@;
            final_result.append(&mut worker_buf);
            proof {
                assert((w + 1) * chunk == w * chunk + chunk) by (nonlinear_arith);
                assert(final_result@ == pre_snap + buf_snap);
                assert forall|i: int| 0 <= i < final_result@.len() implies models(
                    final_result@[i],
                    #[trigger] self.spec_tasks()[i].spec_result(),
                ) && (final_result@[i] matches Some(m) ==> m.wf() && m.index
                    == self.spec_tasks()[i].index && m.id
                    == self.spec_tasks()[i].hash_value) by {
                    if i < start_index {
                        assert(final_result@[i] == pre_snap[i]);
                    } else {
                        assert(final_result@[i] == buf_snap[i - start_index]);
                        assert(models(
                            buf_snap[i - start_index],
                            self.spec_tasks()[start_index + (i - start_index)].spec_result(),
                        ));
                    }
                }
            }
            w += 1;
        }
        proof {
            assert(final_result@.len() == task_num) by {
                assert(w == thread_num);
                assert(chunk * thread_num == thread_num * chunk) by (nonlinear_arith);
            }
        }
        Ok(final_result)
    }
}

} // verus!
