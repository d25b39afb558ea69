//! The task registry: the authoritative in-memory list of tasks, the
//! last-computed status list, and a bounded log buffer.
//!
//! Task ids are unique; an add that names an id already present is
//! rejected and the first task keeps its entry (this is the chosen
//! duplicate policy). The status list is replaced wholesale each cycle.
//! The log buffer keeps the 100 most recent entries, newest first.
//! Durable storage lives with the surrounding process; it mirrors these
//! operations and its failures never block the in-memory mutation.

use vstd::prelude::*;
use crate::model::{DnsError, DnsTask, LogEntry, LogView, TaskStatus, TaskView, StatusView};

verus! {

/// Most entries the log buffer keeps.
pub const LOG_CAP: usize = 100;

/// The first position at or after `i` whose task has id `id`, if any.
pub open spec fn spec_find_task(s: Seq<TaskView>, id: Seq<char>, i: int) -> Option<int>
    decreases s.len() - i,
{
    if i < 0 || i >= s.len() {
        None
    } else if s[i].id == id {
        Some(i)
    } else {
        spec_find_task(s, id, i + 1)
    }
}

/// One append to the bounded buffer: the entry goes in front and the
/// result is cut to the capacity.
pub open spec fn spec_append_log(logs: Seq<LogView>, e: LogView) -> Seq<LogView> {
    if logs.len() + 1 <= LOG_CAP {
        seq![e] + logs
    } else {
        (seq![e] + logs).take(LOG_CAP as int)
    }
}

/// The in-memory registry of tasks, statuses and logs.
pub struct TaskRegistry {
    tasks: Vec<DnsTask>,
    statuses: Vec<TaskStatus>,
    logs: Vec<LogEntry>,
}

impl TaskRegistry {
    /// The tasks, as ghost images, in registry order.
    pub closed spec fn spec_tasks(&self) -> Seq<TaskView> {
        self.tasks.deep_view()
    }

    /// The last-computed statuses, as ghost images.
    pub closed spec fn spec_statuses(&self) -> Seq<StatusView> {
        self.statuses.deep_view()
    }

    /// The log entries, newest first, as ghost images.
    pub closed spec fn spec_logs(&self) -> Seq<LogView> {
        self.logs.deep_view()
    }

    /// Some task in the registry has id `id`.
    pub open spec fn spec_has_task(&self, id: Seq<char>) -> bool {
        exists|i: int| 0 <= i < self.spec_tasks().len() && self.spec_tasks()[i].id == id
    }

    /// Well-formed: task ids are unique and the log buffer is within its
    /// capacity.
    pub open spec fn wf(&self) -> bool {
        &&& forall|i: int, j: int|
            0 <= i < j < self.spec_tasks().len() ==> self.spec_tasks()[i].id != self.spec_tasks()[
                j
            ].id
        &&& self.spec_logs().len() <= LOG_CAP
    }

    /// An empty registry: no tasks, no statuses, no logs.
    pub fn new() -> (r: TaskRegistry)
        ensures
            r.wf(),
            r.spec_tasks() =~= Seq::<TaskView>::empty(),
            r.spec_statuses() =~= Seq::<StatusView>::empty(),
            r.spec_logs() =~= Seq::<LogView>::empty(),
    {
        let r = TaskRegistry { tasks: Vec::new(), statuses: Vec::new(), logs: Vec::new() };
        proof {
            assert(r.spec_tasks() =~= Seq::<TaskView>::empty());
            assert(r.spec_statuses() =~= Seq::<StatusView>::empty());
            assert(r.spec_logs() =~= Seq::<LogView>::empty());
        }
        r
    }

    /// Adds `task`. An id already present is rejected and nothing
    /// changes; otherwise the task is appended. Statuses and logs are
    /// untouched either way.
    pub fn add_task(&mut self, task: DnsTask) -> (r: Result<(), DnsError>)
        requires
            old(self).wf(),
        ensures
            final(self).wf(),
            old(self).spec_has_task(task@.id) ==> r == Err::<(), DnsError>(DnsError::DuplicateId)
                && final(self).spec_tasks() == old(self).spec_tasks(),
            !old(self).spec_has_task(task@.id) ==> r == Ok::<(), DnsError>(())
                && final(self).spec_tasks() == old(self).spec_tasks().push(task@),
            final(self).spec_statuses() == old(self).spec_statuses(),
            final(self).spec_logs() == old(self).spec_logs(),
    {
        let ghost dv = self.tasks.deep_view();
        let mut i: usize = 0;
        while i < self.tasks.len()
            invariant
                i <= self.tasks@.len(),
                dv == self.tasks.deep_view(),
                dv.len() == self.tasks@.len(),
                *self == *old(self),
                old(self).wf(),
                forall|j: int| 0 <= j < i ==> dv[j].id != task@.id,
            decreases self.tasks@.len() - i,
        {
            if self.tasks[i].id == task.id {
                proof {
                    assert(dv[i as int] == self.tasks@[i as int]@);
                    assert(dv[i as int].id == task@.id);
                }
                return Err(DnsError::DuplicateId);
            }
            proof {
                assert(dv[i as int] == self.tasks@[i as int]@);
            }
            i = i + 1;
        }
        proof {
            if old(self).spec_has_task(task@.id) {
                let w = choose|w: int|
                    0 <= w < old(self).spec_tasks().len() && old(self).spec_tasks()[w].id
                        == task@.id;
                assert(false);
            }
        }
        let ghost before = self.tasks.deep_view();
        self.tasks.push(task);
        proof {
            assert(self.tasks.deep_view() =~~= before.push(self.tasks@.last()@));
            assert(self.spec_logs() == old(self).spec_logs());
            assert(self.spec_statuses() == old(self).spec_statuses());
            assert(self.wf());
        }
        Ok(())
    }

    /// Removes every task whose id is `task_id`; with unique ids that is
    /// at most one. Removing an absent id succeeds and changes nothing.
    pub fn remove_task(&mut self, task_id: &str) -> (r: Result<(), DnsError>)
        requires
            old(self).wf(),
        ensures
            final(self).wf(),
            r == Ok::<(), DnsError>(()),
            final(self).spec_tasks() == old(self).spec_tasks().filter(
                |t: TaskView| t.id != task_id@,
            ),
            final(self).spec_statuses() == old(self).spec_statuses(),
            final(self).spec_logs() == old(self).spec_logs(),
    {
        let ghost dv = self.tasks.deep_view();
        let ghost pred = (|t: TaskView| t.id != task_id@);
        let tid = owned_string(task_id);
        let mut kept: Vec<DnsTask> = Vec::new();
        let mut i: usize = 0;
        proof {
            assert(dv.take(0) =~= Seq::<TaskView>::empty());
            assert(Seq::<TaskView>::empty().filter(pred) =~= Seq::<TaskView>::empty());
            assert(kept.deep_view() =~= Seq::<TaskView>::empty());
        }
        while i < self.tasks.len()
            invariant
                i <= self.tasks@.len(),
                dv == self.tasks.deep_view(),
                dv.len() == self.tasks@.len(),
                *self == *old(self),
                tid@ == task_id@,
                forall|t: TaskView| #[trigger] pred(t) == (t.id != task_id@),
                kept.deep_view() == dv.take(i as int).filter(pred),
            decreases self.tasks@.len() - i,
        {
            let ghost before = kept.deep_view();
            proof {
                assert(dv[i as int] == self.tasks@[i as int]@);
                assert(dv.take(i + 1) =~= dv.take(i as int).push(dv[i as int]));
                assert(dv.take(i + 1) =~= dv.take(i as int) + seq![dv[i as int]]);
                Seq::<TaskView>::filter_distributes_over_add(
                    dv.take(i as int),
                    seq![dv[i as int]],
                    pred,
                );
                lemma_filter_one(dv[i as int], pred);
            }
            if !(self.tasks[i].id == tid) {
                kept.push(self.tasks[i].clone());
                proof {
                    assert(pred(dv[i as int]));
                    assert(kept.deep_view() =~~= before.push(dv[i as int]));
                    assert(kept.deep_view() =~= dv.take(i + 1).filter(pred));
                }
            } else {
                proof {
                    assert(!pred(dv[i as int]));
                    assert(kept.deep_view() =~= dv.take(i + 1).filter(pred));
                }
            }
            i = i + 1;
        }
        proof {
            assert(dv.take(dv.len() as int) =~= dv);
        }
        self.tasks = kept;
        proof {
            assert(dv == old(self).spec_tasks());
            assert forall|a: int, b: int| 0 <= a < b < dv.len() implies dv[a].id != dv[b].id by {
                assert(old(self).wf());
            }
            lemma_filter_unique_ids(dv, pred);
            assert(pred =~= (|t: TaskView| t.id != task_id@));
            assert(self.spec_tasks() == dv.filter(pred));
            assert(self.spec_logs() == old(self).spec_logs());
            assert(self.spec_statuses() == old(self).spec_statuses());
            assert(self.wf());
        }
        Ok(())
    }

    /// Replaces the task whose id matches `task`'s. A missing id fails
    /// with `NotFound` and changes nothing.
    pub fn update_task(&mut self, task: DnsTask) -> (r: Result<(), DnsError>)
        requires
            old(self).wf(),
        ensures
            final(self).wf(),
            match spec_find_task(old(self).spec_tasks(), task@.id, 0) {
                Some(p) => r == Ok::<(), DnsError>(()) && final(self).spec_tasks() == old(
                    self,
                ).spec_tasks().update(p, task@),
                None => r == Err::<(), DnsError>(DnsError::NotFound) && final(self).spec_tasks()
                    == old(self).spec_tasks(),
            },
            final(self).spec_statuses() == old(self).spec_statuses(),
            final(self).spec_logs() == old(self).spec_logs(),
    {
        let ghost dv = self.tasks.deep_view();
        let mut i: usize = 0;
        while i < self.tasks.len()
            invariant
                i <= self.tasks@.len(),
                dv == self.tasks.deep_view(),
                dv.len() == self.tasks@.len(),
                *self == *old(self),
                old(self).wf(),
                spec_find_task(dv, task@.id, 0) == spec_find_task(dv, task@.id, i as int),
            decreases self.tasks@.len() - i,
        {
            if self.tasks[i].id == task.id {
                proof {
                    assert(dv[i as int] == self.tasks@[i as int]@);
                    assert(spec_find_task(dv, task@.id, i as int) == Some(i as int));
                }
                let ghost before = self.tasks.deep_view();
                self.tasks.set(i, task);
                proof {
                    assert(self.tasks.deep_view() =~~= before.update(i as int, self.tasks@[
                        i as int
                    ]@));
                    assert(self.spec_tasks() == before.update(i as int, self.tasks@[i as int]@));
                    assert(self.spec_tasks()[i as int].id == dv[i as int].id);
                    assert forall|a: int, b: int| 0 <= a < b < self.spec_tasks().len() implies self
                        .spec_tasks()[a].id != self.spec_tasks()[b].id by {
                        assert(dv[a].id == old(self).spec_tasks()[a].id);
                        assert(dv[b].id == old(self).spec_tasks()[b].id);
                    }
                    assert(self.spec_logs() == old(self).spec_logs());
                    assert(self.spec_statuses() == old(self).spec_statuses());
                    assert(self.wf());
                }
                return Ok(());
            }
            proof {
                assert(dv[i as int] == self.tasks@[i as int]@);
            }
            i = i + 1;
        }
        Err(DnsError::NotFound)
    }

    /// A snapshot copy of the current tasks, in registry order.
    pub fn get_tasks(&self) -> (r: Vec<DnsTask>)
        ensures
            r.deep_view() == self.spec_tasks(),
    {
        let mut r: Vec<DnsTask> = Vec::new();
        let mut i: usize = 0;
        proof {
            assert(r.deep_view() =~= self.spec_tasks().take(0));
        }
        while i < self.tasks.len()
            invariant
                i <= self.tasks@.len(),
                r.deep_view() == self.spec_tasks().take(i as int),
                self.spec_tasks().len() == self.tasks@.len(),
            decreases self.tasks@.len() - i,
        {
            let ghost before = r.deep_view();
            r.push(self.tasks[i].clone());
            proof {
                assert(r.deep_view() =~~= before.push(self.tasks@[i as int]@));
                assert(r.deep_view() =~= self.spec_tasks().take(i + 1));
            }
            i = i + 1;
        }
        proof {
            assert(self.spec_tasks().take(self.spec_tasks().len() as int) =~= self.spec_tasks());
        }
        r
    }

    /// A snapshot copy of the last-computed status list.
    pub fn get_task_statuses(&self) -> (r: Vec<TaskStatus>)
        ensures
            r.deep_view() == self.spec_statuses(),
    {
        let mut r: Vec<TaskStatus> = Vec::new();
        let mut i: usize = 0;
        proof {
            assert(r.deep_view() =~= self.spec_statuses().take(0));
        }
        while i < self.statuses.len()
            invariant
                i <= self.statuses@.len(),
                r.deep_view() == self.spec_statuses().take(i as int),
                self.spec_statuses().len() == self.statuses@.len(),
            decreases self.statuses@.len() - i,
        {
            let ghost before = r.deep_view();
            r.push(self.statuses[i].clone());
            proof {
                assert(r.deep_view() =~~= before.push(self.statuses@[i as int]@));
                assert(r.deep_view() =~= self.spec_statuses().take(i + 1));
            }
            i = i + 1;
        }
        proof {
            assert(self.spec_statuses().take(self.spec_statuses().len() as int)
                =~= self.spec_statuses());
        }
        r
    }

    /// Replaces the whole status list with the one just computed.
    pub fn set_statuses(&mut self, statuses: Vec<TaskStatus>)
        requires
            old(self).wf(),
        ensures
            final(self).wf(),
            final(self).spec_statuses() == statuses.deep_view(),
            final(self).spec_tasks() == old(self).spec_tasks(),
            final(self).spec_logs() == old(self).spec_logs(),
    {
        self.statuses = statuses;
        proof {
            assert(self.spec_tasks() == old(self).spec_tasks());
            assert(self.spec_logs() == old(self).spec_logs());
            assert(self.spec_statuses() == statuses.deep_view());
            assert(self.wf());
        }
    }

    /// A snapshot copy of the log buffer, newest entry first.
    pub fn get_logs(&self) -> (r: Vec<LogEntry>)
        ensures
            r.deep_view() == self.spec_logs(),
    {
        let mut r: Vec<LogEntry> = Vec::new();
        let mut i: usize = 0;
        proof {
            assert(r.deep_view() =~= self.spec_logs().take(0));
        }
        while i < self.logs.len()
            invariant
                i <= self.logs@.len(),
                r.deep_view() == self.spec_logs().take(i as int),
                self.spec_logs().len() == self.logs@.len(),
            decreases self.logs@.len() - i,
        {
            let ghost before = r.deep_view();
            r.push(self.logs[i].clone());
            proof {
                assert(r.deep_view() =~~= before.push(self.logs@[i as int]@));
                assert(r.deep_view() =~= self.spec_logs().take(i + 1));
            }
            i = i + 1;
        }
        proof {
            assert(self.spec_logs().take(self.spec_logs().len() as int) =~= self.spec_logs());
        }
        r
    }

    /// Puts `entry` at the front of the log buffer and cuts the buffer to
    /// its capacity: the most recent entries stay, newest first.
    pub fn append_log(&mut self, entry: LogEntry)
        requires
            old(self).wf(),
        ensures
            final(self).wf(),
            final(self).spec_logs() == spec_append_log(old(self).spec_logs(), entry@),
            final(self).spec_tasks() == old(self).spec_tasks(),
            final(self).spec_statuses() == old(self).spec_statuses(),
    {
        let ghost before = self.logs.deep_view();
        let ghost ev = entry@;
        self.logs.insert(0, entry);
        proof {
            assert(self.logs.deep_view() =~~= seq![ev] + before);
        }
        let ghost mid = self.logs.deep_view();
        if self.logs.len() > LOG_CAP {
            self.logs.truncate(LOG_CAP);
            proof {
                assert(self.logs.deep_view() =~~= mid.take(LOG_CAP as int));
            }
        }
        proof {
            if before.len() + 1 <= LOG_CAP {
                assert(self.spec_logs() =~= seq![ev] + before);
            }
            assert(self.spec_tasks() == old(self).spec_tasks());
            assert(self.spec_statuses() == old(self).spec_statuses());
            assert(self.spec_logs().len() <= LOG_CAP);
            assert(self.wf());
        }
    }

    /// Empties the log buffer.
    pub fn clear_logs(&mut self)
        requires
            old(self).wf(),
        ensures
            final(self).wf(),
            final(self).spec_logs() =~= Seq::<LogView>::empty(),
            final(self).spec_tasks() == old(self).spec_tasks(),
            final(self).spec_statuses() == old(self).spec_statuses(),
    {
        self.logs = Vec::new();
        proof {
            assert(self.logs.deep_view() =~= Seq::<LogView>::empty());
            assert(self.spec_tasks() == old(self).spec_tasks());
            assert(self.spec_statuses() == old(self).spec_statuses());
            assert(self.wf());
        }
    }
}

/// The log buffer after a run of appends, oldest append first.
pub open spec fn spec_fold_appends(start: Seq<LogView>, es: Seq<LogView>) -> Seq<LogView>
    decreases es.len(),
{
    if es.len() == 0 {
        start
    } else {
        spec_fold_appends(spec_append_log(start, es[0]), es.drop_first())
    }
}

/// Law of the bounded buffer: any run of appends onto a buffer within
/// capacity leaves the appended entries newest first, followed by what
/// was there before, cut to the capacity.
pub proof fn lemma_log_buffer(start: Seq<LogView>, es: Seq<LogView>)
    requires
        start.len() <= LOG_CAP,
    ensures
        spec_fold_appends(start, es) == (es.reverse() + start).take(
            vstd::math::min((start.len() + es.len()) as int, LOG_CAP as int),
        ),
    decreases es.len(),
{
    let cap = LOG_CAP as int;
    if es.len() == 0 {
        assert(es.reverse() =~= Seq::<LogView>::empty());
        assert((es.reverse() + start).take(vstd::math::min((start.len() + 0) as int, cap)) =~= start);
    } else {
        let e = es[0];
        let rest = es.drop_first();
        let start2 = spec_append_log(start, e);
        assert(start2.len() == vstd::math::min((start.len() + 1) as int, cap));
        assert(start2[0] == e) by {
            if start.len() + 1 <= cap {
            } else {
                assert((seq![e] + start)[0] == e);
            }
        }
        assert(forall|k: int| 1 <= k < start2.len() ==> start2[k] == start[k - 1]);
        lemma_log_buffer(start2, rest);
        let m2 = vstd::math::min((start2.len() + rest.len()) as int, cap);
        let m = vstd::math::min((start.len() + es.len()) as int, cap);
        assert(m2 == m);
        assert(spec_fold_appends(start, es) == spec_fold_appends(start2, rest));
        let lhs_seq = rest.reverse() + start2;
        let rhs_seq = es.reverse() + start;
        assert forall|i: int| 0 <= i < m implies lhs_seq[i] == rhs_seq[i] by {
            let n = es.len();
            if i < n - 1 {
                assert(rest.reverse()[i] == rest[n - 2 - i]);
                assert(es.reverse()[i] == es[n - 1 - i]);
                assert(rest[n - 2 - i] == es[n - 1 - i]);
            } else if i == n - 1 {
                assert(rhs_seq[i] == es.reverse()[n - 1]);
                assert(es.reverse()[n - 1] == es[0]);
                assert(lhs_seq[i] == start2[0]);
            } else {
                assert(rhs_seq[i] == start[i - n]);
                assert(lhs_seq[i] == start2[i - n + 1]);
                assert(i - n + 1 < start2.len());
                assert(start2[i - n + 1] == start[i - n]);
            }
        }
        assert(lhs_seq.take(m2) =~= rhs_seq.take(m));
    }
}

/// Law of the bounded buffer, from empty: after appending `es` in order,
/// the buffer holds the `min(es.len(), 100)` most recent entries, newest
/// first.
pub proof fn lemma_log_buffer_from_empty(es: Seq<LogView>)
    ensures
        spec_fold_appends(Seq::<LogView>::empty(), es).len() == vstd::math::min(
            es.len() as int,
            LOG_CAP as int,
        ),
        forall|i: int|
            0 <= i < vstd::math::min(es.len() as int, LOG_CAP as int) ==> spec_fold_appends(
                Seq::<LogView>::empty(),
                es,
            )[i] == es[es.len() - 1 - i],
{
    let start = Seq::<LogView>::empty();
    lemma_log_buffer(start, es);
    let m = vstd::math::min(es.len() as int, LOG_CAP as int);
    assert((es.reverse() + start).take(m).len() == m);
    assert forall|i: int| 0 <= i < m implies spec_fold_appends(start, es)[i] == es[es.len() - 1
        - i] by {
        assert((es.reverse() + start)[i] == es.reverse()[i]);
        assert(es.reverse()[i] == es[es.len() - 1 - i]);
    }
}

proof fn lemma_filter_one(t: TaskView, pred: spec_fn(TaskView) -> bool)
    ensures
        seq![t].filter(pred) == if pred(t) {
            seq![t]
        } else {
            Seq::<TaskView>::empty()
        },
{
    reveal(Seq::filter);
    let s = seq![t];
    assert(s.last() == t);
    assert(s.drop_last() =~= Seq::<TaskView>::empty());
    assert(Seq::<TaskView>::empty().filter(pred) =~= Seq::<TaskView>::empty());
    if pred(t) {
        assert(s.filter(pred) =~= seq![t]);
    } else {
        assert(s.filter(pred) =~= Seq::<TaskView>::empty());
    }
}

proof fn lemma_filter_unique_ids(s: Seq<TaskView>, pred: spec_fn(TaskView) -> bool)
    requires
        forall|i: int, j: int| 0 <= i < j < s.len() ==> s[i].id != s[j].id,
    ensures
        forall|i: int, j: int|
            0 <= i < j < s.filter(pred).len() ==> s.filter(pred)[i].id != s.filter(pred)[j].id,
    decreases s.len(),
{
    reveal(Seq::filter);
    if s.len() == 0 {
        assert(s.filter(pred) =~= Seq::<TaskView>::empty());
    } else {
        let d = s.drop_last();
        let last = s.last();
        assert(forall|i: int, j: int| 0 <= i < j < d.len() ==> d[i].id != d[j].id);
        lemma_filter_unique_ids(d, pred);
        assert(s =~= d + seq![last]);
        Seq::<TaskView>::filter_distributes_over_add(d, seq![last], pred);
        lemma_filter_one(last, pred);
        let f = s.filter(pred);
        let fd = d.filter(pred);
        if pred(last) {
            assert(f =~= fd.push(last));
            assert forall|i: int, j: int| 0 <= i < j < f.len() implies f[i].id != f[j].id by {
                if j == f.len() - 1 {
                    assert(f[j] == last);
                    assert(f[i] == fd[i]);
                    assert(fd.contains(fd[i]));
                    d.lemma_filter_contains_rev(pred, fd[i]);
                    let w = choose|w: int| 0 <= w < d.len() && d[w] == fd[i];
                    assert(s[w] == d[w]);
                    assert(s[s.len() - 1] == last);
                    assert(d[w].id != last.id);
                } else {
                    assert(f[i] == fd[i] && f[j] == fd[j]);
                }
            }
        } else {
            assert(f =~= fd);
        }
    }
}

/// An owned copy of a borrowed string, used to compare with stored ids.
fn owned_string(s: &str) -> (r: String)
    ensures
        r@ == s@,
{
    String::from_str(s)
}

} // verus!
