//! The parsing orchestrator: for each input line it computes the content
//! key, serves cache hits directly, batches misses to the task scheduler,
//! writes fresh records back into the cache, and merges everything into
//! the original line order.

use vstd::prelude::*;

use crate::cache_db::Cache;
use crate::datatype::{views, Metadata, RecordModel};
use crate::hashkey::{build_key_material, cache_key, compute_cache_key, key_material};
use crate::parser_task_manager::{ParserCallback, ParserTask, ParserTaskManager};
use crate::pattern::{all_valid, match_line, models, spec_match_line};

verus! {

/// The default callback: the pattern-matching engine itself.
pub struct MatchCallback;

impl ParserCallback for MatchCallback {
    open spec fn spec_call(
        &self,
        line: Seq<char>,
        index: u32,
        hash: u64,
        pats: Seq<Seq<char>>,
        fins: Seq<Seq<char>>,
    ) -> Option<RecordModel> {
        spec_match_line(line, pats, fins, index, hash)
    }

    open spec fn callable(&self, pats: Seq<Seq<char>>, fins: Seq<Seq<char>>) -> bool {
        all_valid(pats) && all_valid(fins)
    }

    fn call(
        &self,
        line: &str,
        index: u32,
        hash_value: u64,
        reg_pattern_list: &Vec<String>,
        finished_reg_pattern_list: &Vec<String>,
    ) -> (r: Option<Metadata>) {
        match_line(line, index, hash_value, reg_pattern_list, finished_reg_pattern_list)
    }
}

/// The configuration error surfaced when a supplied pattern does not
/// compile; invalid patterns are fatal to the run, never per-line.
#[derive(Clone, Copy, Debug, PartialEq, Eq, Structural)]
pub enum ParserError {
    InvalidPattern,
}

/// The cache key of line `i` under the active pattern sets.
pub open spec fn key_of(lines: Seq<String>, pats: Seq<Seq<char>>, fins: Seq<Seq<char>>, i: int) -> u64 {
    cache_key(lines[i]@, pats, fins)
}

/// The record a fresh parse of line `i` yields, if any.
pub open spec fn fresh_of(
    lines: Seq<String>,
    pats: Seq<Seq<char>>,
    fins: Seq<Seq<char>>,
    i: int,
) -> Option<RecordModel> {
    spec_match_line(lines[i]@, pats, fins, i as u32, key_of(lines, pats, fins, i))
}

/// Every record whose position the cache did not serve is exactly the
/// fresh parse of its line.
pub open spec fn served_tie(
    lines: Seq<String>,
    pats: Seq<Seq<char>>,
    fins: Seq<Seq<char>>,
    out: Seq<Metadata>,
    served: Set<int>,
) -> bool {
    forall|k: int|
        0 <= k < out.len() && !served.contains((#[trigger] out[k]).index as int) ==> fresh_of(
            lines,
            pats,
            fins,
            out[k].index as int,
        ) == Some(out[k].model())
}

/// What a finished parse returns, given that `hits` records were served
/// from the cache: records carry line positions in strictly increasing
/// order, each holds its line's content key and well-formed time fields,
/// every line a fresh parse would match is represented, and outside a
/// set of at most `hits` cache-served positions every record is exactly
/// the fresh parse of its line (so with no hits, all of them are).
pub open spec fn parse_post(
    lines: Seq<String>,
    pats: Seq<Seq<char>>,
    fins: Seq<Seq<char>>,
    out: Seq<Metadata>,
    hits: int,
) -> bool {
    &&& forall|k: int|
        0 <= k < out.len() ==> ((#[trigger] out[k]).index as int) < lines.len() && out[k].wf()
            && out[k].id == key_of(lines, pats, fins, out[k].index as int)
    &&& forall|k1: int, k2: int|
        0 <= k1 < k2 < out.len() ==> (#[trigger] out[k1]).index < (#[trigger] out[k2]).index
    &&& forall|i: int|
        0 <= i < lines.len() && (#[trigger] fresh_of(lines, pats, fins, i)) is Some
            ==> exists|k: int| 0 <= k < out.len() && (#[trigger] out[k]).index == i
    &&& exists|served: Set<int>|
        served.finite() && served.len() <= hits && #[trigger] served_tie(
            lines,
            pats,
            fins,
            out,
            served,
        )
    &&& hits == 0 ==> forall|k: int|
        0 <= k < out.len() ==> fresh_of(lines, pats, fins, (#[trigger] out[k]).index as int)
            == Some(out[k].model())
}

/// A parse result is as `parse_post` describes, for some cache-hit
/// count; the count is zero whenever no cache was configured.
pub open spec fn parse_post_any(
    lines: Seq<String>,
    pats: Seq<Seq<char>>,
    fins: Seq<Seq<char>>,
    out: Seq<Metadata>,
    cache_none: bool,
) -> bool {
    exists|hits: int|
        0 <= hits && #[trigger] parse_post(lines, pats, fins, out, hits) && (cache_none ==> hits
            == 0)
}

/// One queued task is consistent with its line: it carries the line's
/// text, key and position (below `bound`) and the active pattern sets.
pub open spec fn task_ok(
    t: ParserTask<MatchCallback>,
    lines: Seq<String>,
    pats: Seq<Seq<char>>,
    fins: Seq<Seq<char>>,
    bound: int,
) -> bool {
    &&& views(t.reg_pattern_list@) == pats
    &&& views(t.finished_reg_pattern_list@) == fins
    &&& (t.index as int) < bound
    &&& t.line@ == (lines[t.index as int])@
    &&& t.hash_value == key_of(lines, pats, fins, t.index as int)
}

/// Some task in the batch carries line position `k`.
pub open spec fn task_for(tasks: Seq<ParserTask<MatchCallback>>, k: int) -> bool {
    exists|j: int| 0 <= j < tasks.len() && (#[trigger] tasks[j]).index == k
}

/// Copies a list of pattern texts.
fn clone_strings(v: &Vec<String>) -> (r: Vec<String>)
    ensures
        r@ == v@,
{
    let mut out: Vec<String> = Vec::new();
    let mut i: usize = 0;
    while i < v.len()
        invariant
            0 <= i <= v@.len(),
            out@.len() == i,
            forall|j: int| 0 <= j < i ==> out@[j] == v@[j],
        decreases v@.len() - i,
    {
        out.push(v[i].clone());
        i += 1;
    }
    proof {
        assert(out@ =~= v@);
    }
    out
}

/// Extracts structured records from log lines: an ordered extraction
/// pattern list, an independent finished pattern list, an optional
/// content-addressed cache, and a bounded scheduler for the misses.
pub struct Parser {
    /// Ordered extraction patterns; earlier entries take priority, so a
    /// pattern meant to be more specific than another must come first.
    pub reg_pattern_list: Vec<String>,
    /// Patterns whose match marks an entry as finished, independent of
    /// which extraction pattern is credited.
    pub finished_reg_pattern_list: Vec<String>,
    /// The durable cache, when one is configured.
    pub cache: Option<Cache>,
    /// The bounded scheduler that fans misses out.
    pub task_manager: ParserTaskManager<MatchCallback>,
}

impl Parser {
    /// The scheduler's tuning parameters are positive.
    pub open spec fn wf(self) -> bool {
        self.task_manager.wf()
    }

    /// A parser over the given pattern sets; `max_thread_num` bounds the
    /// scheduler's workers and `min_task_per_thread` its fan-out, both
    /// raised to one when zero. Callers fold the machine's available
    /// parallelism into `max_thread_num`.
    pub fn new(
        reg_pattern_list: Vec<String>,
        finished_reg_pattern_list: Vec<String>,
        cache: Option<Cache>,
        max_thread_num: usize,
        min_task_per_thread: usize,
    ) -> (r: Self)
        ensures
            r.wf(),
            r.reg_pattern_list == reg_pattern_list,
            r.finished_reg_pattern_list == finished_reg_pattern_list,
            r.cache == cache,
    {
        Parser {
            reg_pattern_list,
            finished_reg_pattern_list,
            cache,
            task_manager: ParserTaskManager::new(max_thread_num, min_task_per_thread),
        }
    }

    /// Parses every line and additionally reports how many records were
    /// served from the cache.
    pub fn parse_metadata_with_stats(&mut self, lines: &Vec<String>) -> (r: (Vec<Metadata>, usize))
        requires
            old(self).wf(),
            all_valid(views(old(self).reg_pattern_list@)),
            all_valid(views(old(self).finished_reg_pattern_list@)),
            lines@.len() <= u32::MAX,
        ensures
            final(self).wf(),
            final(self).reg_pattern_list == old(self).reg_pattern_list,
            final(self).finished_reg_pattern_list == old(self).finished_reg_pattern_list,
            parse_post(
                lines@,
                views(old(self).reg_pattern_list@),
                views(old(self).finished_reg_pattern_list@),
                r.0@,
                r.1 as int,
            ),
            old(self).cache is None ==> r.1 == 0,
    {
        let ghost pats = views(self.reg_pattern_list@);
        let ghost fins = views(self.finished_reg_pattern_list@);

        self.task_manager.clear();
        let material = build_key_material(&self.reg_pattern_list, &self.finished_reg_pattern_list);

        let n = lines.len();
        let mut slots: Vec<Option<Metadata>> = Vec::new();
        let mut hit_count: usize = 0;
        let ghost mut served: Set<int> = Set::empty();
        let mut i: usize = 0;
        while i < n
            invariant
                0 <= i <= n,
                n == lines@.len() <= u32::MAX,
                self.wf(),
                self.reg_pattern_list == old(self).reg_pattern_list,
                self.finished_reg_pattern_list == old(self).finished_reg_pattern_list,
                self.cache == old(self).cache,
                pats == views(self.reg_pattern_list@),
                fins == views(self.finished_reg_pattern_list@),
                all_valid(pats),
                all_valid(fins),
                material@ == key_material(pats, fins),
                slots@.len() == i,
                hit_count <= i,
                self.cache is None ==> hit_count == 0,
                hit_count == 0 ==> forall|k: int| 0 <= k < i ==> slots@[k] is None,
                served.finite(),
                served.len() == hit_count,
                forall|x: int| served.contains(x) ==> 0 <= x < i,
                forall|k: int| 0 <= k < i ==> ((slots@[k] is Some) <==> served.contains(k)),
                forall|k: int|
                    0 <= k < i ==> (#[trigger] slots@[k] matches Some(m) ==> m.wf()
                        && m.index as int == k && m.id == key_of(lines@, pats, fins, k)),
                forall|j: int|
                    0 <= j < self.task_manager.spec_tasks().len() ==> task_ok(
                        #[trigger] self.task_manager.spec_tasks()[j],
                        lines@,
                        pats,
                        fins,
                        i as int,
                    ),
                forall|j1: int, j2: int|
                    0 <= j1 < j2 < self.task_manager.spec_tasks().len() ==> (
                    #[trigger] self.task_manager.spec_tasks()[j1]).index < (
                    #[trigger] self.task_manager.spec_tasks()[j2]).index,
                forall|k: int|
                    0 <= k < i ==> ((slots@[k] is None) <==> task_for(
                        #[trigger] self.task_manager.spec_tasks(),
                        k,
                    )),
            decreases n - i,
        {
            let ghost old_tasks = self.task_manager.spec_tasks();
            let line = &lines[i];
            let key = compute_cache_key(line.as_str(), &material);
            proof {
                assert(key == key_of(lines@, pats, fins, i as int));
            }
            let cached: Option<Metadata> = match &self.cache {
                Some(c) => c.query_cache(key),
                None => None,
            };
            let ghost old_slots = slots@;
            match cached {
                Some(m) => {
                    let mut record = m;
                    record.index = i as u32;
                    slots.push(Some(record));
                    hit_count += 1;
                    proof {
                        assert(!served.contains(i as int));
                        served = served.insert(i as int);
                        assert(slots@ == old_slots.push(Some(record)));
                        assert forall|k: int| 0 <= k < i + 1 implies ((slots@[k] is None)
                            <==> task_for(self.task_manager.spec_tasks(), k)) by {
                            if k < i {
                                assert(slots@[k] == old_slots[k]);
                            } else {
                                assert(slots@[k] is Some);
                                assert forall|j: int|
                                    0 <= j < self.task_manager.spec_tasks().len() implies ((
                                #[trigger] self.task_manager.spec_tasks()[j]).index as int)
                                    != k by {
                                    assert(task_ok(
                                        self.task_manager.spec_tasks()[j],
                                        lines@,
                                        pats,
                                        fins,
                                        i as int,
                                    ));
                                }
                            }
                        }
                    }
                },
                None => {
                    slots.push(None);
                    let task = ParserTask {
                        index: i as u32,
                        hash_value: key,
                        line: line.clone(),
                        reg_pattern_list: clone_strings(&self.reg_pattern_list),
                        finished_reg_pattern_list: clone_strings(&self.finished_reg_pattern_list),
                        callback: MatchCallback,
                    };
                    self.task_manager.add_task(task);
                    proof {
                        let new_tasks = self.task_manager.spec_tasks();
                        assert(slots@ == old_slots.push(None));
                        assert(new_tasks == old_tasks.push(task));
                        assert((new_tasks[new_tasks.len() - 1]).index as int == i as int);
                        assert forall|j: int|
                            0 <= j < new_tasks.len() implies task_ok(
                            #[trigger] new_tasks[j],
                            lines@,
                            pats,
                            fins,
                            i + 1,
                        ) by {
                            if j < old_tasks.len() {
                                assert(new_tasks[j] == old_tasks[j]);
                                assert(task_ok(old_tasks[j], lines@, pats, fins, i as int));
                            } else {
                                assert(new_tasks[j] == task);
                            }
                        }
                        assert forall|j1: int, j2: int|
                            0 <= j1 < j2 < new_tasks.len() implies (
                        #[trigger] new_tasks[j1]).index < (#[trigger] new_tasks[j2]).index by {
                            if j2 < old_tasks.len() {
                                assert(new_tasks[j1] == old_tasks[j1]);
                                assert(new_tasks[j2] == old_tasks[j2]);
                            } else {
                                assert(new_tasks[j2] == task);
                                assert(new_tasks[j1] == old_tasks[j1]);
                                assert(task_ok(old_tasks[j1], lines@, pats, fins, i as int));
                            }
                        }
                        assert forall|k: int| 0 <= k < i + 1 implies ((slots@[k] is None)
                            <==> task_for(new_tasks, k)) by {
                            if k < i {
                                assert(slots@[k] == old_slots[k]);
                                if old_slots[k] is None {
                                    assert(task_for(old_tasks, k));
                                    let j = choose|j: int|
                                        0 <= j < old_tasks.len() && (#[trigger] old_tasks[j]).index
                                            == k;
                                    assert((new_tasks[j]).index == k);
                                    assert(task_for(new_tasks, k));
                                } else {
                                    assert(!task_for(old_tasks, k));
                                    assert forall|j: int|
                                        0 <= j < new_tasks.len() implies ((
                                    #[trigger] new_tasks[j]).index as int) != k by {
                                        if j < old_tasks.len() {
                                            assert(new_tasks[j] == old_tasks[j]);
                                            assert(!(0 <= j < old_tasks.len() && (
                                            old_tasks[j]).index == k));
                                        } else {
                                            assert(new_tasks[j] == task);
                                        }
                                    }
                                }
                            } else {
                                assert((new_tasks[new_tasks.len() - 1]).index == k);
                                assert(task_for(new_tasks, k));
                            }
                        }
                    }
                },
            }
            i += 1;
        }

        let ghost tasks = self.task_manager.spec_tasks();
        proof {
            assert forall|j: int| 0 <= j < tasks.len() implies (#[trigger] tasks[j]).callable() by {
                assert(views(tasks[j].reg_pattern_list@) == pats);
            }
        }
        let fresh = match self.task_manager.run() {
            Ok(v) => v,
            Err(_) => {
                // The in-process scheduler is total; this arm is unreachable.
                proof {
                    assert(false);
                }
                Vec::new()
            },
        };

        let mut wi: usize = 0;
        while wi < fresh.len()
            invariant
                self.cache == old(self).cache,
            decreases fresh@.len() - wi,
        {
            match &fresh[wi] {
                Some(m) => match &self.cache {
                    Some(c) => match c.add_or_update_cache(m) {
                        Ok(_) => {},
                        Err(_) => {
                            // A write fault loses only durability; the
                            // record still reaches the caller.
                        },
                    },
                    None => {},
                },
                None => {},
            }
            wi += 1;
        }

        let fresh_len = fresh.len();
        proof {
            assert(fresh@.len() == fresh_len as int);
        }
        let mut result: Vec<Metadata> = Vec::new();
        let mut fi: usize = 0;
        let mut li: usize = 0;
        while li < n
            invariant
                0 <= li <= n,
                n == lines@.len() <= u32::MAX,
                slots@.len() == n,
                tasks.len() == fresh@.len() <= usize::MAX,
                0 <= fi <= tasks.len(),
                hit_count == 0 ==> forall|k: int| 0 <= k < n ==> slots@[k] is None,
                served.finite(),
                served.len() == hit_count,
                forall|x: int| served.contains(x) ==> 0 <= x < n,
                forall|k: int| 0 <= k < n ==> ((slots@[k] is Some) <==> served.contains(k)),
                forall|k: int|
                    0 <= k < n ==> (#[trigger] slots@[k] matches Some(m) ==> m.wf()
                        && m.index as int == k && m.id == key_of(lines@, pats, fins, k)),
                forall|j: int|
                    0 <= j < tasks.len() ==> task_ok(
                        #[trigger] tasks[j],
                        lines@,
                        pats,
                        fins,
                        n as int,
                    ),
                forall|j1: int, j2: int|
                    0 <= j1 < j2 < tasks.len() ==> (#[trigger] tasks[j1]).index < (
                    #[trigger] tasks[j2]).index,
                forall|k: int| 0 <= k < n ==> ((slots@[k] is None) <==> task_for(tasks, k)),
                forall|j: int|
                    0 <= j < fresh@.len() ==> models(
                        #[trigger] fresh@[j],
                        tasks[j].spec_result(),
                    ) && (fresh@[j] matches Some(m) ==> m.wf() && m.index == tasks[j].index
                        && m.id == tasks[j].hash_value),
                forall|j: int| 0 <= j < fi ==> ((#[trigger] tasks[j]).index as int) < li,
                forall|j: int| fi <= j < tasks.len() ==> ((#[trigger] tasks[j]).index as int) >= li,
                forall|k: int|
                    0 <= k < result@.len() ==> ((#[trigger] result@[k]).index as int) < li
                        && result@[k].wf() && result@[k].id == key_of(
                        lines@,
                        pats,
                        fins,
                        result@[k].index as int,
                    ),
                forall|k1: int, k2: int|
                    0 <= k1 < k2 < result@.len() ==> (#[trigger] result@[k1]).index < (
                    #[trigger] result@[k2]).index,
                forall|i2: int|
                    0 <= i2 < li && (#[trigger] fresh_of(lines@, pats, fins, i2)) is Some
                        ==> exists|k: int|
                        0 <= k < result@.len() && (#[trigger] result@[k]).index == i2,
                hit_count == 0 ==> forall|k: int|
                    0 <= k < result@.len() ==> fresh_of(
                        lines@,
                        pats,
                        fins,
                        (#[trigger] result@[k]).index as int,
                    ) == Some(result@[k].model()),
                served_tie(lines@, pats, fins, result@, served),
            decreases n - li,
        {
            let ghost entry_result = result@;
            match &slots[li] {
                Some(m) => {
                    let rec = m.duplicate();
                    result.push(rec);
                    proof {
                        assert(result@ == entry_result.push(rec));
                        assert(!task_for(tasks, li as int));
                        assert forall|j: int| fi <= j < tasks.len() implies ((
                        #[trigger] tasks[j]).index as int) >= li + 1 by {
                            assert(!((tasks[j]).index as int == li));
                        }
                        assert forall|i2: int|
                            0 <= i2 < li + 1 && (#[trigger] fresh_of(
                                lines@,
                                pats,
                                fins,
                                i2,
                            )) is Some implies exists|k: int|
                            0 <= k < result@.len() && (#[trigger] result@[k]).index == i2 by {
                            if i2 == li {
                                assert((result@[result@.len() - 1]).index == i2);
                            } else {
                                let k = choose|k: int|
                                    0 <= k < entry_result.len() && (
                                    #[trigger] entry_result[k]).index == i2;
                                assert((result@[k]).index == i2);
                            }
                        }
                    }
                },
                None => {
                    proof {
                        assert(task_for(tasks, li as int));
                        let j = choose|j: int|
                            0 <= j < tasks.len() && (#[trigger] tasks[j]).index == li as int;
                        assert(j >= fi);
                        if j > fi {
                            assert(tasks[fi as int].index < tasks[j].index);
                            assert(false);
                        }
                        assert(fi < tasks.len());
                        assert((tasks[fi as int]).index as int == li as int);
                        assert(task_ok(tasks[fi as int], lines@, pats, fins, n as int));
                        assert(models(fresh@[fi as int], tasks[fi as int].spec_result()));
                        assert(tasks[fi as int].spec_result() == fresh_of(
                            lines@,
                            pats,
                            fins,
                            li as int,
                        ));
                    }
                    match &fresh[fi] {
                        Some(m) => {
                            let rec = m.duplicate();
                            result.push(rec);
                            proof {
                                assert(result@ == entry_result.push(rec));
                                assert forall|i2: int|
                                    0 <= i2 < li + 1 && (#[trigger] fresh_of(
                                        lines@,
                                        pats,
                                        fins,
                                        i2,
                                    )) is Some implies exists|k: int|
                                    0 <= k < result@.len() && (#[trigger] result@[k]).index
                                        == i2 by {
                                    if i2 == li {
                                        assert((result@[result@.len() - 1]).index == i2);
                                    } else {
                                        let k = choose|k: int|
                                            0 <= k < entry_result.len() && (
                                            #[trigger] entry_result[k]).index == i2;
                                        assert((result@[k]).index == i2);
                                    }
                                }
                            }
                        },
                        None => {
                            proof {
                                assert(fresh_of(lines@, pats, fins, li as int) is None);
                            }
                        },
                    }
                    fi += 1;
                    proof {
                        assert forall|j: int| fi <= j < tasks.len() implies ((
                        #[trigger] tasks[j]).index as int) >= li + 1 by {
                            assert(tasks[fi - 1].index as int == li as int);
                            assert(tasks[fi - 1].index < tasks[j].index);
                        }
                    }
                },
            }
            li += 1;
        }
        proof {
            assert(served_tie(lines@, pats, fins, result@, served));
        }
        (result, hit_count)
    }

    /// Parses every line: cache hits are served directly with their
    /// position restored, misses are fanned out to the scheduler, fresh
    /// records are written back into the cache, and the output follows
    /// the original line order. An unmatched line contributes nothing.
    pub fn parse_metadata(&mut self, lines: &Vec<String>) -> (r: Vec<Metadata>)
        requires
            old(self).wf(),
            all_valid(views(old(self).reg_pattern_list@)),
            all_valid(views(old(self).finished_reg_pattern_list@)),
            lines@.len() <= u32::MAX,
        ensures
            final(self).wf(),
            final(self).reg_pattern_list == old(self).reg_pattern_list,
            final(self).finished_reg_pattern_list == old(self).finished_reg_pattern_list,
            parse_post_any(
                lines@,
                views(old(self).reg_pattern_list@),
                views(old(self).finished_reg_pattern_list@),
                r@,
                old(self).cache is None,
            ),
    {
        let (result, hits) = self.parse_metadata_with_stats(lines);
        proof {
            assert(parse_post(
                lines@,
                views(old(self).reg_pattern_list@),
                views(old(self).finished_reg_pattern_list@),
                result@,
                hits as int,
            ));
        }
        result
    }

    /// Checks every supplied pattern before parsing: when each compiles,
    /// parses as `parse_metadata` does; when any does not, reports the
    /// configuration error and touches nothing.
    pub fn try_parse_metadata(&mut self, lines: &Vec<String>) -> (r: Result<
        Vec<Metadata>,
        ParserError,
    >)
        requires
            old(self).wf(),
            lines@.len() <= u32::MAX,
        ensures
            final(self).wf(),
            final(self).reg_pattern_list == old(self).reg_pattern_list,
            final(self).finished_reg_pattern_list == old(self).finished_reg_pattern_list,
            r is Err <==> !(all_valid(views(old(self).reg_pattern_list@)) && all_valid(
                views(old(self).finished_reg_pattern_list@),
            )),
            r matches Ok(out) ==> parse_post_any(
                lines@,
                views(old(self).reg_pattern_list@),
                views(old(self).finished_reg_pattern_list@),
                out@,
                old(self).cache is None,
            ),
    {
        let mut i: usize = 0;
        while i < self.reg_pattern_list.len()
            invariant
                0 <= i <= self.reg_pattern_list@.len(),
                self == old(self),
                self.wf(),
                forall|j: int|
                    0 <= j < i ==> crate::pattern::regex_valid(
                        #[trigger] views(self.reg_pattern_list@)[j],
                    ),
            decreases self.reg_pattern_list@.len() - i,
        {
            if !crate::pattern::regex_compiles(self.reg_pattern_list[i].as_str()) {
                proof {
                    assert(!crate::pattern::regex_valid(views(self.reg_pattern_list@)[i as int]));
                    assert(!all_valid(views(self.reg_pattern_list@)));
                }
                return Err(ParserError::InvalidPattern);
            }
            i += 1;
        }
        let mut j: usize = 0;
        while j < self.finished_reg_pattern_list.len()
            invariant
                0 <= j <= self.finished_reg_pattern_list@.len(),
                self == old(self),
                self.wf(),
                all_valid(views(self.reg_pattern_list@)),
                forall|k: int|
                    0 <= k < j ==> crate::pattern::regex_valid(
                        #[trigger] views(self.finished_reg_pattern_list@)[k],
                    ),
            decreases self.finished_reg_pattern_list@.len() - j,
        {
            if !crate::pattern::regex_compiles(self.finished_reg_pattern_list[j].as_str()) {
                proof {
                    assert(!crate::pattern::regex_valid(
                        views(self.finished_reg_pattern_list@)[j as int],
                    ));
                    assert(!all_valid(views(self.finished_reg_pattern_list@)));
                }
                return Err(ParserError::InvalidPattern);
            }
            j += 1;
        }
        let ghost pre = *self;
        let out = self.parse_metadata(lines);
        proof {
            assert(parse_post_any(
                lines@,
                views(pre.reg_pattern_list@),
                views(pre.finished_reg_pattern_list@),
                out@,
                pre.cache is None,
            ));
            assert(views(pre.reg_pattern_list@) == views(old(self).reg_pattern_list@));
            assert(views(pre.finished_reg_pattern_list@) == views(
                old(self).finished_reg_pattern_list@,
            ));
        }
        Ok(out)
    }
}

} // verus!
