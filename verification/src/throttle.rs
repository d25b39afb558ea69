//! Per-task throttling of enforcement attempts.
//!
//! The reconciliation loop keeps a private map from task id to the time of
//! the task's last enforcement attempt. A task is due for a check when it
//! has no entry yet or at least its interval (never less than one second)
//! has elapsed since. The map lives with the loop: it is neither shared
//! nor persisted, so throttle history resets with the loop, which is the
//! intended behaviour.

use vstd::prelude::*;

verus! {

/// Map from task id to the seconds value of the last enforcement attempt.
pub struct ThrottleMap {
    entries: Vec<(String, u64)>,
}

spec fn seq_get(s: Seq<(String, u64)>, k: Seq<char>) -> Option<u64>
    decreases s.len(),
{
    if s.len() == 0 {
        None
    } else if s[0].0@ == k {
        Some(s[0].1)
    } else {
        seq_get(s.drop_first(), k)
    }
}

proof fn lemma_seq_get_update(s: Seq<(String, u64)>, i: int, e: (String, u64), k: Seq<char>)
    requires
        0 <= i < s.len(),
        forall|j: int| 0 <= j < i ==> s[j].0@ != s[i].0@,
        e.0@ == s[i].0@,
    ensures
        seq_get(s.update(i, e), k) == if k == s[i].0@ {
            Some(e.1)
        } else {
            seq_get(s, k)
        },
    decreases s.len(),
{
    let u = s.update(i, e);
    assert(u.len() == s.len());
    if i == 0 {
        assert(u[0] == e);
        if k == s[0].0@ {
        } else {
            assert(u.drop_first() =~= s.drop_first());
        }
    } else {
        assert(u[0] == s[0]);
        if k == s[0].0@ {
            assert(k != s[i].0@);
        } else {
            assert(u.drop_first() =~= s.drop_first().update(i - 1, e));
            assert(s.drop_first()[i - 1] == s[i]);
            assert forall|j: int| 0 <= j < i - 1 implies (#[trigger] s.drop_first()[j]).0@
                != s.drop_first()[i - 1].0@ by {
                assert(s.drop_first()[j] == s[j + 1]);
            }
            lemma_seq_get_update(s.drop_first(), i - 1, e, k);
        }
    }
}

proof fn lemma_seq_get_push(s: Seq<(String, u64)>, e: (String, u64), k: Seq<char>)
    requires
        seq_get(s, e.0@) is None,
    ensures
        seq_get(s.push(e), k) == if k == e.0@ {
            Some(e.1)
        } else {
            seq_get(s, k)
        },
    decreases s.len(),
{
    let u = s.push(e);
    if s.len() == 0 {
        assert(u[0] == e);
        if k == e.0@ {
        } else {
            assert(u.drop_first() =~= Seq::<(String, u64)>::empty());
            assert(seq_get(Seq::<(String, u64)>::empty(), k) is None);
            assert(seq_get(u, k) is None);
        }
    } else {
        assert(seq_get(s, e.0@) is None);
        assert(s[0].0@ != e.0@);
        assert(u[0] == s[0]);
        assert(u.drop_first() =~= s.drop_first().push(e));
        if k == s[0].0@ {
            assert(seq_get(u, k) == Some(s[0].1));
            assert(seq_get(s, k) == Some(s[0].1));
        } else {
            assert(seq_get(s.drop_first(), e.0@) is None);
            lemma_seq_get_push(s.drop_first(), e, k);
            assert(seq_get(u, k) == seq_get(u.drop_first(), k));
            assert(seq_get(s, k) == seq_get(s.drop_first(), k));
        }
    }
}

/// The interval actually enforced for a stored interval: at least one
/// second.
pub open spec fn effective_interval(interval: u64) -> u64 {
    if interval < 1 {
        1
    } else {
        interval
    }
}

/// Seconds from `last` to `now`, zero when the clock appears to have gone
/// backwards.
pub open spec fn spec_elapsed(now: u64, last: u64) -> u64 {
    if now >= last {
        (now - last) as u64
    } else {
        0
    }
}

impl ThrottleMap {
    /// The recorded last-attempt time for `k`, if any.
    pub closed spec fn spec_get(&self, k: Seq<char>) -> Option<u64> {
        seq_get(self.entries@, k)
    }

    /// An empty map: no task has attempted enforcement yet.
    pub fn new() -> (r: ThrottleMap)
        ensures
            forall|k: Seq<char>| r.spec_get(k) is None,
    {
        ThrottleMap { entries: Vec::new() }
    }

    /// The recorded last-attempt time for `id`, if any.
    pub fn get(&self, id: &str) -> (r: Option<u64>)
        ensures
            r == self.spec_get(id@),
    {
        let owned = String::from_str(id);
        let mut i: usize = 0;
        proof {
            assert(self.entries@.skip(0) =~= self.entries@);
        }
        while i < self.entries.len()
            invariant
                i <= self.entries@.len(),
                owned@ == id@,
                seq_get(self.entries@, id@) == seq_get(self.entries@.skip(i as int), id@),
                forall|j: int| 0 <= j < i ==> self.entries@[j].0@ != id@,
            decreases self.entries@.len() - i,
        {
            let ghost sv = self.entries@;
            proof {
                assert(sv.skip(i as int)[0] == sv[i as int]);
                assert(sv.skip(i as int).drop_first() =~= sv.skip(i + 1));
            }
            if self.entries[i].0 == owned {
                proof {
                    assert(sv[i as int].0@ == id@);
                    assert(seq_get(sv.skip(i as int), id@) == Some(sv[i as int].1));
                }
                return Some(self.entries[i].1);
            }
            i = i + 1;
        }
        proof {
            assert(self.entries@.skip(self.entries@.len() as int) =~= Seq::<(String, u64)>::empty());
            assert(seq_get(Seq::<(String, u64)>::empty(), id@) is None);
        }
        None
    }

    /// Records `now` as the last enforcement attempt of `id`, replacing
    /// any earlier record.
    pub fn record(&mut self, id: &str, now: u64)
        ensures
            final(self).spec_get(id@) == Some(now),
            forall|k: Seq<char>| k != id@ ==> final(self).spec_get(k) == old(self).spec_get(k),
    {
        let owned = String::from_str(id);
        let s_len = self.entries.len();
        let mut i: usize = 0;
        while i < s_len
            invariant
                i <= s_len,
                s_len == self.entries@.len(),
                owned@ == id@,
                forall|j: int| 0 <= j < i ==> self.entries@[j].0@ != id@,
                self.entries == old(self).entries,
            decreases s_len - i,
        {
            if self.entries[i].0 == owned {
                let ghost s = self.entries@;
                self.entries.set(i, (owned, now));
                proof {
                    lemma_seq_get_update(s, i as int, (owned, now), id@);
                    assert forall|k: Seq<char>| k != id@ implies final(self).spec_get(k) == old(
                        self,
                    ).spec_get(k) by {
                        lemma_seq_get_update(s, i as int, (owned, now), k);
                    }
                }
                return ;
            }
            i = i + 1;
        }
        let ghost s = self.entries@;
        proof {
            lemma_seq_get_none_from_prefix(s, id@);
        }
        self.entries.push((owned, now));
        proof {
            lemma_seq_get_push(s, (owned, now), id@);
            assert forall|k: Seq<char>| k != id@ implies final(self).spec_get(k) == old(
                self,
            ).spec_get(k) by {
                lemma_seq_get_push(s, (owned, now), k);
            }
        }
    }

    /// Whether `id` is due for a check at `now`: no attempt recorded, or
    /// at least the effective interval has elapsed since the last one.
    pub fn should_check(&self, id: &str, interval: u64, now: u64) -> (r: bool)
        ensures
            r == spec_should_check(self, id@, interval, now),
    {
        let iv = if interval < 1 {
            1
        } else {
            interval
        };
        match self.get(id) {
            None => true,
            Some(last) => {
                let elapsed = if now >= last {
                    now - last
                } else {
                    0
                };
                elapsed >= iv
            },
        }
    }
}

/// `id` is due for a check at `now`: no attempt is recorded, or at least
/// the effective interval has elapsed since the last one.
pub open spec fn spec_should_check(th: &ThrottleMap, id: Seq<char>, interval: u64, now: u64) -> bool {
    match th.spec_get(id) {
        None => true,
        Some(last) => spec_elapsed(now, last) >= effective_interval(interval),
    }
}

proof fn lemma_seq_get_none_from_prefix(s: Seq<(String, u64)>, k: Seq<char>)
    requires
        forall|j: int| 0 <= j < s.len() ==> s[j].0@ != k,
    ensures
        seq_get(s, k) is None,
    decreases s.len(),
{
    if s.len() > 0 {
        assert(forall|j: int| 0 <= j < s.drop_first().len() ==> s.drop_first()[j].0@ != k);
        lemma_seq_get_none_from_prefix(s.drop_first(), k);
    }
}

/// A record at `now` blocks the next check of the same task until its
/// effective interval has elapsed: two cycles closer together than the
/// interval can attempt enforcement at most once.
pub proof fn lemma_throttle_blocks(
    th2: &ThrottleMap,
    id: Seq<char>,
    interval: u64,
    now: u64,
    later: u64,
)
    requires
        th2.spec_get(id) == Some(now),
        spec_elapsed(later, now) < effective_interval(interval),
    ensures
        !spec_should_check(th2, id, interval, later),
{
}

} // verus!
