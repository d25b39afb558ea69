//! Planning and completion of one reconciliation cycle.
//!
//! A cycle is split in two verified halves around the outside work. First
//! [`plan_cycle`] decides, from a task snapshot, an adapter snapshot, the
//! throttle map and the current time, what each (task, adapter) pair gets:
//! a `stopped` report for a disabled task, `waiting` while throttled,
//! `matched` when the DNS already agrees, or an enforcement attempt. The
//! surrounding loop then performs each attempt and hands the outcome to
//! the completion functions, which build the exact status row and log
//! entry. Decisions never depend on the outcomes inside the same cycle,
//! so the split is faithful to a loop that interleaves them.

use vstd::prelude::*;
use crate::dns_cmp::{dns_equal, spec_dns_equal};
use crate::model::{DnsTask, IfaceView, LogEntry, NetworkInterface, TaskStatus, TaskView};
use crate::pattern::{matches_pattern, spec_matches};
use crate::text::{clone_strings, join_strings, spec_join};
use crate::throttle::{effective_interval, lemma_throttle_blocks, spec_elapsed, spec_should_check, ThrottleMap};

verus! {

/// What one (task, adapter) pair gets this cycle.
pub enum PlannedAction {
    /// The task is disabled: report `stopped`, match no adapter.
    Disabled,
    /// Throttled: report `running`, attempt nothing.
    Waiting,
    /// Current DNS equals the target: report `matched`.
    Matched,
    /// Mismatch and due: attempt to apply the target DNS.
    Apply,
}

impl PlannedAction {
    /// Whether this item asks the loop to apply DNS.
    pub fn is_apply(&self) -> (r: bool)
        ensures
            r == (*self is Apply),
    {
        match self {
            PlannedAction::Apply => true,
            _ => false,
        }
    }
}

/// One planned item: the pair's identity, the DNS seen and wanted, and
/// the decision.
pub struct PlannedStatus {
    pub task_id: String,
    pub task_name: String,
    /// The matched adapter's name, or the raw pattern for a disabled
    /// task.
    pub interface_name: String,
    pub current_dns: Vec<String>,
    pub target_dns: Vec<String>,
    pub action: PlannedAction,
}

/// Ghost image of a [`PlannedStatus`].
#[verifier::ext_equal]
pub struct PlanItemView {
    pub task_id: Seq<char>,
    pub task_name: Seq<char>,
    pub interface_name: Seq<char>,
    pub current_dns: Seq<Seq<char>>,
    pub target_dns: Seq<Seq<char>>,
    pub action: PlannedAction,
}

impl View for PlannedStatus {
    type V = PlanItemView;

    open spec fn view(&self) -> PlanItemView {
        PlanItemView {
            task_id: self.task_id@,
            task_name: self.task_name@,
            interface_name: self.interface_name@,
            current_dns: self.current_dns.deep_view(),
            target_dns: self.target_dns.deep_view(),
            action: self.action,
        }
    }
}

impl DeepView for PlannedStatus {
    type V = PlanItemView;

    open spec fn deep_view(&self) -> PlanItemView {
        self.view()
    }
}

/// The one item a disabled task gets: keyed to its raw pattern, empty
/// current DNS, no adapter matched.
pub open spec fn spec_disabled_item(t: TaskView) -> PlanItemView {
    PlanItemView {
        task_id: t.id,
        task_name: t.name,
        interface_name: t.interface_pattern,
        current_dns: Seq::empty(),
        target_dns: t.target_dns,
        action: PlannedAction::Disabled,
    }
}

/// The item an enabled task gets for one watched adapter.
pub open spec fn spec_adapter_item(t: TaskView, f: IfaceView, due: bool) -> PlanItemView {
    PlanItemView {
        task_id: t.id,
        task_name: t.name,
        interface_name: f.name,
        current_dns: f.dns_servers,
        target_dns: t.target_dns,
        action: if !due {
            PlannedAction::Waiting
        } else if spec_dns_equal(f.dns_servers, t.target_dns) {
            PlannedAction::Matched
        } else {
            PlannedAction::Apply
        },
    }
}

/// Whether `f` is an adapter the task watches: up, and its name matches
/// the task's pattern.
pub open spec fn spec_watches(t: TaskView, f: IfaceView) -> bool {
    f.enabled && spec_matches(f.name, t.interface_pattern)
}

/// The items one enabled task gets, one per watched adapter, in adapter
/// order.
pub open spec fn spec_task_items(t: TaskView, ifs: Seq<IfaceView>, due: bool) -> Seq<PlanItemView>
    decreases ifs.len(),
{
    if ifs.len() == 0 {
        Seq::empty()
    } else {
        let rest = spec_task_items(t, ifs.drop_first(), due);
        if spec_watches(t, ifs[0]) {
            seq![spec_adapter_item(t, ifs[0], due)] + rest
        } else {
            rest
        }
    }
}

/// Some watched adapter disagrees with the target DNS.
pub open spec fn spec_task_has_apply(t: TaskView, ifs: Seq<IfaceView>) -> bool {
    exists|i: int|
        0 <= i < ifs.len() && spec_watches(t, #[trigger] ifs[i]) && !spec_dns_equal(
            ifs[i].dns_servers,
            t.target_dns,
        )
}

/// The items of a whole cycle: tasks in snapshot order, each disabled
/// task one `stopped` item, each enabled task one item per watched
/// adapter. Throttling is decided against the throttle map as it stood
/// when the cycle began.
pub open spec fn spec_cycle_items(
    ts: Seq<TaskView>,
    ifs: Seq<IfaceView>,
    th: &ThrottleMap,
    now: u64,
) -> Seq<PlanItemView>
    decreases ts.len(),
{
    if ts.len() == 0 {
        Seq::empty()
    } else {
        let t = ts[0];
        let items = if !t.enabled {
            seq![spec_disabled_item(t)]
        } else {
            spec_task_items(t, ifs, spec_should_check(th, t.id, t.interval, now))
        };
        items + spec_cycle_items(ts.drop_first(), ifs, th, now)
    }
}

/// The task with id `k` attempts an enforcement this cycle: it is
/// enabled, due, and some watched adapter mismatches.
pub open spec fn spec_task_applied(
    ts: Seq<TaskView>,
    ifs: Seq<IfaceView>,
    th: &ThrottleMap,
    now: u64,
    k: Seq<char>,
) -> bool {
    exists|i: int|
        0 <= i < ts.len() && (#[trigger] ts[i]).id == k && ts[i].enabled && spec_should_check(
            th,
            k,
            ts[i].interval,
            now,
        ) && spec_task_has_apply(ts[i], ifs)
}

proof fn lemma_task_items_push(t: TaskView, ifs: Seq<IfaceView>, f: IfaceView, due: bool)
    ensures
        spec_task_items(t, ifs.push(f), due) == if spec_watches(t, f) {
            spec_task_items(t, ifs, due).push(spec_adapter_item(t, f, due))
        } else {
            spec_task_items(t, ifs, due)
        },
    decreases ifs.len(),
{
    let u = ifs.push(f);
    let item = spec_adapter_item(t, f, due);
    if ifs.len() == 0 {
        assert(u[0] == f);
        assert(u.drop_first() =~= Seq::<IfaceView>::empty());
        assert(spec_task_items(t, Seq::<IfaceView>::empty(), due) == Seq::<PlanItemView>::empty());
        assert(spec_task_items(t, ifs, due) == Seq::<PlanItemView>::empty());
        if spec_watches(t, f) {
            assert(spec_task_items(t, u, due) =~= seq![item]);
            assert(spec_task_items(t, ifs, due).push(item) =~= seq![item]);
        } else {
            assert(spec_task_items(t, u, due) == Seq::<PlanItemView>::empty());
        }
    } else {
        assert(u[0] == ifs[0]);
        assert(u.drop_first() =~= ifs.drop_first().push(f));
        lemma_task_items_push(t, ifs.drop_first(), f, due);
        let rest_old = spec_task_items(t, ifs.drop_first(), due);
        let rest_new = spec_task_items(t, ifs.drop_first().push(f), due);
        assert(spec_task_items(t, u.drop_first(), due) == rest_new);
        if spec_watches(t, f) {
            assert(rest_new == rest_old.push(item));
            if spec_watches(t, ifs[0]) {
                assert(spec_task_items(t, u, due) == seq![spec_adapter_item(t, ifs[0], due)]
                    + rest_old.push(item));
                assert(spec_task_items(t, ifs, due) == seq![spec_adapter_item(t, ifs[0], due)]
                    + rest_old);
                assert((seq![spec_adapter_item(t, ifs[0], due)] + rest_old).push(item)
                    =~= seq![spec_adapter_item(t, ifs[0], due)] + rest_old.push(item));
            } else {
                assert(spec_task_items(t, u, due) == rest_old.push(item));
                assert(spec_task_items(t, ifs, due) == rest_old);
            }
        } else {
            assert(rest_new == rest_old);
            if spec_watches(t, ifs[0]) {
                assert(spec_task_items(t, u, due) == seq![spec_adapter_item(t, ifs[0], due)]
                    + rest_old);
                assert(spec_task_items(t, ifs, due) == seq![spec_adapter_item(t, ifs[0], due)]
                    + rest_old);
            } else {
                assert(spec_task_items(t, u, due) == rest_old);
                assert(spec_task_items(t, ifs, due) == rest_old);
            }
        }
    }
}

proof fn lemma_cycle_items_push(
    ts: Seq<TaskView>,
    t: TaskView,
    ifs: Seq<IfaceView>,
    th: &ThrottleMap,
    now: u64,
)
    ensures
        spec_cycle_items(ts.push(t), ifs, th, now) == spec_cycle_items(ts, ifs, th, now)
            + if !t.enabled {
            seq![spec_disabled_item(t)]
        } else {
            spec_task_items(t, ifs, spec_should_check(th, t.id, t.interval, now))
        },
    decreases ts.len(),
{
    let u = ts.push(t);
    let tail = if !t.enabled {
        seq![spec_disabled_item(t)]
    } else {
        spec_task_items(t, ifs, spec_should_check(th, t.id, t.interval, now))
    };
    if ts.len() == 0 {
        assert(u[0] == t);
        assert(u.drop_first() =~= Seq::<TaskView>::empty());
        assert(spec_cycle_items(u.drop_first(), ifs, th, now) =~= Seq::<PlanItemView>::empty());
        assert(spec_cycle_items(u, ifs, th, now) =~= tail);
        assert(spec_cycle_items(ts, ifs, th, now) =~= Seq::<PlanItemView>::empty());
        assert(spec_cycle_items(ts, ifs, th, now) + tail =~= tail);
    } else {
        assert(u[0] == ts[0]);
        assert(u.drop_first() =~= ts.drop_first().push(t));
        lemma_cycle_items_push(ts.drop_first(), t, ifs, th, now);
        let head = if !ts[0].enabled {
            seq![spec_disabled_item(ts[0])]
        } else {
            spec_task_items(ts[0], ifs, spec_should_check(th, ts[0].id, ts[0].interval, now))
        };
        assert(spec_cycle_items(u, ifs, th, now) =~= head + (spec_cycle_items(
            ts.drop_first(),
            ifs,
            th,
            now,
        ) + tail));
        assert(spec_cycle_items(ts, ifs, th, now) + tail =~= head + (spec_cycle_items(
            ts.drop_first(),
            ifs,
            th,
            now,
        ) + tail));
    }
}

/// Plans one reconciliation cycle. The returned items follow task
/// snapshot order, and within a task the adapter order. The throttle map
/// gets `now` recorded for exactly the tasks that attempt an enforcement;
/// decisions are made against the map as it stood at the start. Task ids
/// must be unique, as the registry keeps them.
pub fn plan_cycle(
    tasks: &Vec<DnsTask>,
    interfaces: &Vec<NetworkInterface>,
    throttle: &mut ThrottleMap,
    now: u64,
) -> (items: Vec<PlannedStatus>)
    requires
        forall|a: int, b: int|
            0 <= a < b < tasks.deep_view().len() ==> (#[trigger] tasks.deep_view()[a]).id != (
            #[trigger] tasks.deep_view()[b]).id,
    ensures
        items.deep_view() == spec_cycle_items(
            tasks.deep_view(),
            interfaces.deep_view(),
            old(throttle),
            now,
        ),
        forall|k: Seq<char>|
            spec_task_applied(tasks.deep_view(), interfaces.deep_view(), old(throttle), now, k)
                ==> final(throttle).spec_get(k) == Some(now),
        forall|k: Seq<char>|
            !spec_task_applied(tasks.deep_view(), interfaces.deep_view(), old(throttle), now, k)
                ==> final(throttle).spec_get(k) == old(throttle).spec_get(k),
{
    let ghost tdv = tasks.deep_view();
    let ghost idv = interfaces.deep_view();
    let mut items: Vec<PlannedStatus> = Vec::new();
    let mut ti: usize = 0;
    proof {
        assert(tdv.take(0) =~= Seq::<TaskView>::empty());
        assert(items.deep_view() =~~= spec_cycle_items(tdv.take(0), idv, old(throttle), now));
    }
    while ti < tasks.len()
        invariant
            ti <= tasks@.len(),
            tdv == tasks.deep_view(),
            idv == interfaces.deep_view(),
            tdv.len() == tasks@.len(),
            forall|a: int, b: int|
                0 <= a < b < tdv.len() ==> (#[trigger] tdv[a]).id != (#[trigger] tdv[b]).id,
            items.deep_view() == spec_cycle_items(tdv.take(ti as int), idv, old(throttle), now),
            forall|k: Seq<char>|
                spec_task_applied(tdv.take(ti as int), idv, old(throttle), now, k) ==> throttle
                    .spec_get(k) == Some(now),
            forall|k: Seq<char>|
                !spec_task_applied(tdv.take(ti as int), idv, old(throttle), now, k) ==> throttle
                    .spec_get(k) == old(throttle).spec_get(k),
        decreases tasks@.len() - ti,
    {
        let task = &tasks[ti];
        let ghost t = tdv[ti as int];
        let ghost pre = tdv.take(ti as int);
        let ghost post = tdv.take(ti + 1);
        let ghost done = items.deep_view();
        proof {
            assert(t == tasks@[ti as int]@);
            assert(post =~= pre.push(t));
        }
        if !task.enabled {
            let item = PlannedStatus {
                task_id: task.id.clone(),
                task_name: task.name.clone(),
                interface_name: task.interface_pattern.clone(),
                current_dns: Vec::new(),
                target_dns: clone_strings(&task.target_dns),
                action: PlannedAction::Disabled,
            };
            proof {
                assert(item@ =~~= spec_disabled_item(t));
            }
            items.push(item);
            proof {
                assert(items.deep_view() =~~= done.push(spec_disabled_item(t)));
                lemma_cycle_items_push(pre, t, idv, old(throttle), now);
                assert(items.deep_view() =~~= spec_cycle_items(post, idv, old(throttle), now));
                assert forall|k: Seq<char>|
                    spec_task_applied(post, idv, old(throttle), now, k) implies throttle.spec_get(
                    k,
                ) == Some(now) by {
                    let w = choose|w: int|
                        0 <= w < post.len() && (#[trigger] post[w]).id == k && post[w].enabled
                            && spec_should_check(old(throttle), k, post[w].interval, now)
                            && spec_task_has_apply(post[w], idv);
                    assert(post[ti as int] == t);
                    assert(w < ti);
                    assert(pre[w] == post[w]);
                    assert(spec_task_applied(pre, idv, old(throttle), now, k));
                }
                assert forall|k: Seq<char>|
                    !spec_task_applied(post, idv, old(throttle), now, k) implies throttle.spec_get(
                    k,
                ) == old(throttle).spec_get(k) by {
                    if spec_task_applied(pre, idv, old(throttle), now, k) {
                        let w = choose|w: int|
                            0 <= w < pre.len() && (#[trigger] pre[w]).id == k && pre[w].enabled
                                && spec_should_check(old(throttle), k, pre[w].interval, now)
                                && spec_task_has_apply(pre[w], idv);
                        assert(post[w] == pre[w]);
                        assert(spec_task_applied(post, idv, old(throttle), now, k));
                    }
                }
            }
            ti = ti + 1;
            continue ;
        }
        proof {
            if spec_task_applied(pre, idv, old(throttle), now, t.id) {
                let w = choose|w: int|
                    0 <= w < pre.len() && (#[trigger] pre[w]).id == t.id && pre[w].enabled
                        && spec_should_check(old(throttle), t.id, pre[w].interval, now)
                        && spec_task_has_apply(pre[w], idv);
                assert(tdv[w] == pre[w]);
                assert(tdv[w].id == tdv[ti as int].id);
                assert(false);
            }
        }
        let due = throttle.should_check(task.id.as_str(), task.interval, now);
        proof {
            assert(throttle.spec_get(t.id) == old(throttle).spec_get(t.id));
            assert(due == spec_should_check(old(throttle), t.id, t.interval, now));
        }
        let mut any_apply = false;
        let mut fi: usize = 0;
        let ghost base = items.deep_view();
        proof {
            assert(idv.take(0) =~= Seq::<IfaceView>::empty());
            assert(spec_task_items(t, idv.take(0), due) =~= Seq::<PlanItemView>::empty());
            assert(items.deep_view() =~~= base + spec_task_items(t, idv.take(0), due));
            assert(!spec_task_has_apply(t, idv.take(0)));
        }
        while fi < interfaces.len()
            invariant
                fi <= interfaces@.len(),
                idv == interfaces.deep_view(),
                idv.len() == interfaces@.len(),
                ti < tasks@.len(),
                tdv == tasks.deep_view(),
                t == tasks@[ti as int]@,
                task@ == t,
                due == spec_should_check(old(throttle), t.id, t.interval, now),
                items.deep_view() == base + spec_task_items(t, idv.take(fi as int), due),
                any_apply == (due && spec_task_has_apply(t, idv.take(fi as int))),
            decreases interfaces@.len() - fi,
    {
            let iface = &interfaces[fi];
            let ghost f = idv[fi as int];
            let ghost seen = idv.take(fi as int);
            proof {
                assert(f == interfaces@[fi as int]@);
                assert(idv.take(fi + 1) =~= seen.push(f));
                lemma_task_items_push(t, seen, f, due);
            }
            if iface.enabled && matches_pattern(iface.name.as_str(), task.interface_pattern.as_str()) {
                let cur_slice = iface.dns_servers.as_slice();
                let tgt_slice = task.target_dns.as_slice();
                let is_equal = dns_equal(cur_slice, tgt_slice);
                proof {
                    assert(cur_slice.deep_view() =~~= f.dns_servers);
                    assert(tgt_slice.deep_view() =~~= t.target_dns);
                    assert(is_equal == spec_dns_equal(f.dns_servers, t.target_dns));
                }
                let action = if !due {
                    PlannedAction::Waiting
                } else if is_equal {
                    PlannedAction::Matched
                } else {
                    any_apply = true;
                    PlannedAction::Apply
                };
                let item = PlannedStatus {
                    task_id: task.id.clone(),
                    task_name: task.name.clone(),
                    interface_name: iface.name.clone(),
                    current_dns: clone_strings(&iface.dns_servers),
                    target_dns: clone_strings(&task.target_dns),
                    action,
                };
                let ghost before_items = items.deep_view();
                proof {
                    assert(spec_watches(t, f));
                    assert(item@ =~~= spec_adapter_item(t, f, due));
                }
                items.push(item);
                proof {
                    assert(items.deep_view() =~~= before_items.push(spec_adapter_item(t, f, due)));
                    assert(items.deep_view() =~~= base + spec_task_items(t, idv.take(fi + 1), due));
                    if due {
                        if any_apply {
                            if spec_task_has_apply(t, seen) {
                                let w = choose|w: int|
                                    0 <= w < seen.len() && spec_watches(t, #[trigger] seen[w])
                                        && !spec_dns_equal(seen[w].dns_servers, t.target_dns);
                                assert(idv.take(fi + 1)[w] == seen[w]);
                                assert(spec_task_has_apply(t, idv.take(fi + 1)));
                            } else {
                                assert(!spec_dns_equal(f.dns_servers, t.target_dns));
                                assert(idv.take(fi + 1)[fi as int] == f);
                                assert(spec_task_has_apply(t, idv.take(fi + 1)));
                            }
                        } else {
                            if spec_task_has_apply(t, idv.take(fi + 1)) {
                                let w = choose|w: int|
                                    0 <= w < idv.take(fi + 1).len() && spec_watches(
                                        t,
                                        #[trigger] idv.take(fi + 1)[w],
                                    ) && !spec_dns_equal(
                                        idv.take(fi + 1)[w].dns_servers,
                                        t.target_dns,
                                    );
                                if w < fi {
                                    assert(seen[w] == idv.take(fi + 1)[w]);
                                    assert(spec_task_has_apply(t, seen));
                                    assert(false);
                                } else {
                                    assert(idv.take(fi + 1)[w] == f);
                                    assert(false);
                                }
                            }
                        }
                    }
                }
            } else {
                proof {
                    assert(!spec_watches(t, f));
                    assert(items.deep_view() =~~= base + spec_task_items(t, idv.take(fi + 1), due));
                    if spec_task_has_apply(t, idv.take(fi + 1)) {
                        let w = choose|w: int|
                            0 <= w < idv.take(fi + 1).len() && spec_watches(
                                t,
                                #[trigger] idv.take(fi + 1)[w],
                            ) && !spec_dns_equal(idv.take(fi + 1)[w].dns_servers, t.target_dns);
                        if w < fi {
                            assert(seen[w] == idv.take(fi + 1)[w]);
                            assert(spec_task_has_apply(t, seen));
                        } else {
                            assert(idv.take(fi + 1)[w] == f);
                            assert(false);
                        }
                    }
                    if spec_task_has_apply(t, seen) {
                        let w = choose|w: int|
                            0 <= w < seen.len() && spec_watches(t, #[trigger] seen[w])
                                && !spec_dns_equal(seen[w].dns_servers, t.target_dns);
                        assert(idv.take(fi + 1)[w] == seen[w]);
                        assert(spec_task_has_apply(t, idv.take(fi + 1)));
                    }
                }
            }
            fi = fi + 1;
        }
        proof {
            assert(idv.take(idv.len() as int) =~= idv);
        }
        if any_apply {
            throttle.record(task.id.as_str(), now);
        }
        proof {
            lemma_cycle_items_push(pre, t, idv, old(throttle), now);
            assert(items.deep_view() =~~= spec_cycle_items(post, idv, old(throttle), now));
            assert forall|k: Seq<char>|
                spec_task_applied(post, idv, old(throttle), now, k) implies throttle.spec_get(k)
                == Some(now) by {
                let w = choose|w: int|
                    0 <= w < post.len() && (#[trigger] post[w]).id == k && post[w].enabled
                        && spec_should_check(old(throttle), k, post[w].interval, now)
                        && spec_task_has_apply(post[w], idv);
                if w < ti {
                    assert(pre[w] == post[w]);
                    assert(spec_task_applied(pre, idv, old(throttle), now, k));
                    assert(tdv[w].id != tdv[ti as int].id);
                    assert(k != t.id);
                } else {
                    assert(post[w] == t);
                    assert(k == t.id);
                    assert(any_apply);
                }
            }
            assert forall|k: Seq<char>|
                !spec_task_applied(post, idv, old(throttle), now, k) implies throttle.spec_get(k)
                == old(throttle).spec_get(k) by {
                if spec_task_applied(pre, idv, old(throttle), now, k) {
                    let w = choose|w: int|
                        0 <= w < pre.len() && (#[trigger] pre[w]).id == k && pre[w].enabled
                            && spec_should_check(old(throttle), k, pre[w].interval, now)
                            && spec_task_has_apply(pre[w], idv);
                    assert(post[w] == pre[w]);
                    assert(spec_task_applied(post, idv, old(throttle), now, k));
                } else {
                    if k == t.id && any_apply {
                        assert(post[ti as int] == t);
                        assert(spec_task_applied(post, idv, old(throttle), now, k));
                    }
                }
            }
        }
        ti = ti + 1;
    }
    proof {
        assert(tdv.take(tdv.len() as int) =~= tdv);
    }
    items
}

/// What came of one enforcement attempt: the collaborator returned, the
/// collaborator reported an error, or it faulted and the fault was
/// isolated.
pub enum ApplyOutcome {
    /// The DNS-apply collaborator returned without error.
    Applied,
    /// The collaborator reported the error it carries.
    Failed(String),
    /// The collaborator raised an unexpected fault, contained by the
    /// loop.
    Faulted,
}

/// The status row of an item that attempted nothing: `stopped` for a
/// disabled task (no check was made, so the timestamp is `-`), `running`
/// while throttled, `matched` when the DNS already agreed.
pub fn complete_observation(item: &PlannedStatus, timestamp: &str) -> (r: TaskStatus)
    requires
        !(item@.action is Apply),
    ensures
        r@.task_id == item@.task_id,
        r@.task_name == item@.task_name,
        r@.interface_name == item@.interface_name,
        r@.current_dns == item@.current_dns,
        r@.target_dns == item@.target_dns,
        item@.action is Disabled ==> r@.status == "stopped"@ && r@.last_check == "-"@
            && r@.message == "task disabled"@,
        item@.action is Waiting ==> r@.status == "running"@ && r@.last_check == timestamp@
            && r@.message == "waiting for next check"@,
        item@.action is Matched ==> r@.status == "matched"@ && r@.last_check == timestamp@
            && r@.message == "DNS configuration correct"@,
{
    let status: String;
    let last_check: String;
    let message: String;
    match &item.action {
        PlannedAction::Disabled => {
            status = String::from_str("stopped");
            last_check = String::from_str("-");
            message = String::from_str("task disabled");
        },
        PlannedAction::Waiting => {
            status = String::from_str("running");
            last_check = String::from_str(timestamp);
            message = String::from_str("waiting for next check");
        },
        _ => {
            status = String::from_str("matched");
            last_check = String::from_str(timestamp);
            message = String::from_str("DNS configuration correct");
        },
    }
    TaskStatus {
        task_id: item.task_id.clone(),
        task_name: item.task_name.clone(),
        interface_name: item.interface_name.clone(),
        current_dns: clone_strings(&item.current_dns),
        target_dns: clone_strings(&item.target_dns),
        status,
        last_check,
        message,
    }
}

/// The log line of a successful enforcement: the adapter and the DNS
/// list that was set.
pub open spec fn spec_apply_log_message(p: PlanItemView) -> Seq<char> {
    "DNS set: "@ + p.interface_name + " -> "@ + spec_join(p.target_dns, ", "@)
}

/// The status row and log entry of an item that attempted an
/// enforcement, from the attempt's outcome: `applied` with a log entry
/// on success, `dns_mismatch` carrying the reported error text with a
/// log entry on a reported failure, `dns_mismatch` with a fixed message
/// and no log entry on an isolated fault.
pub fn complete_apply(item: &PlannedStatus, timestamp: &str, outcome: &ApplyOutcome) -> (r: (
    TaskStatus,
    Option<LogEntry>,
))
    requires
        item@.action is Apply,
    ensures
        r.0@.task_id == item@.task_id,
        r.0@.task_name == item@.task_name,
        r.0@.interface_name == item@.interface_name,
        r.0@.current_dns == item@.current_dns,
        r.0@.target_dns == item@.target_dns,
        r.0@.last_check == timestamp@,
        *outcome is Applied ==> r.0@.status == "applied"@ && r.0@.message
            == "DNS auto-configured"@ && (match r.1 {
            Some(l) => l@.time == timestamp@ && l@.task_id == item@.task_id && l@.task_name
                == item@.task_name && l@.message == spec_apply_log_message(item@),
            None => false,
        }),
        (match *outcome {
            ApplyOutcome::Failed(e) => r.0@.status == "dns_mismatch"@ && r.0@.message == e@
                && (match r.1 {
                Some(l) => l@.time == timestamp@ && l@.task_id == item@.task_id && l@.task_name
                    == item@.task_name && l@.message == e@,
                None => false,
            }),
            _ => true,
        }),
        *outcome is Faulted ==> r.0@.status == "dns_mismatch"@ && r.0@.message
            == "error while applying DNS"@ && r.1 is None,
{
    let status: String;
    let message: String;
    let log: Option<LogEntry>;
    match outcome {
        ApplyOutcome::Applied => {
            status = String::from_str("applied");
            message = String::from_str("DNS auto-configured");
            let mut m = String::from_str("DNS set: ");
            m.append(item.interface_name.as_str());
            m.append(" -> ");
            let joined = join_strings(&item.target_dns, ", ");
            m.append(joined.as_str());
            log = Some(
                LogEntry {
                    time: String::from_str(timestamp),
                    task_id: item.task_id.clone(),
                    task_name: item.task_name.clone(),
                    message: m,
                },
            );
        },
        ApplyOutcome::Failed(e) => {
            status = String::from_str("dns_mismatch");
            message = e.clone();
            log = Some(
                LogEntry {
                    time: String::from_str(timestamp),
                    task_id: item.task_id.clone(),
                    task_name: item.task_name.clone(),
                    message: e.clone(),
                },
            );
        },
        ApplyOutcome::Faulted => {
            status = String::from_str("dns_mismatch");
            message = String::from_str("error while applying DNS");
            log = None;
        },
    }
    let st = TaskStatus {
        task_id: item.task_id.clone(),
        task_name: item.task_name.clone(),
        interface_name: item.interface_name.clone(),
        current_dns: clone_strings(&item.current_dns),
        target_dns: clone_strings(&item.target_dns),
        status,
        last_check: String::from_str(timestamp),
        message,
    };
    (st, log)
}

/// While a task is not due, nothing is attempted: every item it gets is
/// a `waiting` report, whether or not the DNS actually mismatches.
pub proof fn lemma_not_due_all_waiting(t: TaskView, ifs: Seq<IfaceView>)
    ensures
        forall|j: int|
            0 <= j < spec_task_items(t, ifs, false).len() ==> (#[trigger] spec_task_items(
                t,
                ifs,
                false,
            )[j]).action is Waiting,
    decreases ifs.len(),
{
    if ifs.len() > 0 {
        lemma_not_due_all_waiting(t, ifs.drop_first());
        let rest = spec_task_items(t, ifs.drop_first(), false);
        if spec_watches(t, ifs[0]) {
            let whole = seq![spec_adapter_item(t, ifs[0], false)] + rest;
            assert forall|j: int| 0 <= j < whole.len() implies (#[trigger] whole[j]).action
                is Waiting by {
                if j == 0 {
                    assert(whole[0] == spec_adapter_item(t, ifs[0], false));
                } else {
                    assert(whole[j] == rest[j - 1]);
                }
            }
        }
    }
}

/// Law of the throttle: a task that attempted an enforcement at `now1`
/// (so `now1` is recorded for it) and is evaluated again less than its
/// effective interval later is not due, and every item it gets in that
/// later cycle is a `waiting` report: two cycles closer together than the
/// interval attempt enforcement at most once.
pub proof fn lemma_single_enforcement(
    t: TaskView,
    ifs: Seq<IfaceView>,
    th: &ThrottleMap,
    now1: u64,
    now2: u64,
)
    requires
        th.spec_get(t.id) == Some(now1),
        spec_elapsed(now2, now1) < effective_interval(t.interval),
    ensures
        !spec_should_check(th, t.id, t.interval, now2),
        forall|j: int|
            0 <= j < spec_task_items(
                t,
                ifs,
                spec_should_check(th, t.id, t.interval, now2),
            ).len() ==> (#[trigger] spec_task_items(
                t,
                ifs,
                spec_should_check(th, t.id, t.interval, now2),
            )[j]).action is Waiting,
{
    lemma_throttle_blocks(th, t.id, t.interval, now1, now2);
    lemma_not_due_all_waiting(t, ifs);
}

} // verus!
