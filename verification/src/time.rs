//! A monotonic timer wheel: a queue of `(key, deadline)` entries ordered by
//! deadline.
//!
//! Times are milliseconds on a monotonic clock, so wall-clock drift cannot
//! cause spurious fires; all arithmetic saturates.

use vstd::prelude::*;

verus! {

/// The idle ceiling for the poll timeout, in milliseconds: one hour.
pub const WAIT_TIMEOUT_MS: u64 = 3_600_000;

/// The timer granularity the reactor runs with, in milliseconds.
pub const TIMER_GRANULARITY_MS: u64 = 1_000;

/// `a - b`, saturating at zero.
pub open spec fn sat_sub(a: u64, b: u64) -> u64 {
    if a >= b {
        (a - b) as u64
    } else {
        0u64
    }
}

/// `a + b`, saturating at the largest value.
pub open spec fn sat_add(a: u64, b: u64) -> u64 {
    if a + b <= u64::MAX {
        (a + b) as u64
    } else {
        u64::MAX
    }
}

/// The larger of two times.
pub open spec fn max_ms(a: u64, b: u64) -> u64 {
    if a >= b {
        a
    } else {
        b
    }
}

/// Entries sorted by deadline, non-decreasing.
pub open spec fn deadlines_sorted<K>(s: Seq<(K, u64)>) -> bool {
    forall|i: int, j: int| 0 <= i < j < s.len() ==> s[i].1 <= s[j].1
}

/// Where [`TimeoutManager::register`] puts a new entry: after every entry
/// due no later, before the rest.
pub open spec fn insert_sorted<K>(s: Seq<(K, u64)>, key: K, deadline: u64) -> Seq<(K, u64)>
    decreases s.len(),
{
    if s.len() == 0 {
        seq![(key, deadline)]
    } else if s[0].1 <= deadline {
        seq![s[0]] + insert_sorted(s.drop_first(), key, deadline)
    } else {
        seq![(key, deadline)] + s
    }
}

/// How many leading entries are due at `now`.
pub open spec fn num_expired<K>(s: Seq<(K, u64)>, now: u64) -> int
    decreases s.len(),
{
    if s.len() == 0 {
        0
    } else if s[0].1 <= now {
        1 + num_expired(s.drop_first(), now)
    } else {
        0
    }
}

/// At least none and at most all entries are due.
pub proof fn lemma_num_expired_bounds<K>(s: Seq<(K, u64)>, now: u64)
    ensures
        0 <= num_expired(s, now) <= s.len(),
    decreases s.len(),
{
    if s.len() > 0 && s[0].1 <= now {
        lemma_num_expired_bounds(s.drop_first(), now);
    }
}

/// The keys of the leading entries due at `now`, in deadline order.
pub open spec fn expired_keys<K>(s: Seq<(K, u64)>, now: u64) -> Seq<K> {
    s.take(num_expired(s, now)).map_values(|e: (K, u64)| e.0)
}

/// A queue of `(key, deadline)` entries, ordered by deadline. Several
/// entries may carry the same key; each fires once.
///
/// A granularity `g` coalesces near deadlines: the wait suggested by
/// [`TimeoutManager::next`] is never below `g`, so deadlines less than `g`
/// apart are collected into one wakeup wave.
pub struct TimeoutManager<K> {
    timeouts: Vec<(K, u64)>,
    granularity: u64,
}

impl<K> TimeoutManager<K> {
    /// The pending entries, earliest deadline first.
    pub closed spec fn entries(self) -> Seq<(K, u64)> {
        self.timeouts@
    }

    /// The granularity the queue was created with.
    pub closed spec fn gran(self) -> u64 {
        self.granularity
    }

    pub open spec fn wf(self) -> bool {
        deadlines_sorted(self.entries())
    }

    /// What [`TimeoutManager::next`] returns: nothing if the queue is
    /// empty, otherwise the time until the earliest deadline — saturating
    /// at zero and floored by the granularity.
    pub open spec fn next_spec(self, now: u64) -> Option<u64> {
        if self.entries().len() == 0 {
            None
        } else {
            Some(max_ms(self.gran(), sat_sub(self.entries()[0].1, now)))
        }
    }

    pub fn new(granularity: u64) -> (r: Self)
        ensures
            r.wf(),
            r.entries() == Seq::<(K, u64)>::empty(),
            r.gran() == granularity,
    {
        TimeoutManager { timeouts: Vec::new(), granularity }
    }

    /// The number of pending entries.
    pub fn len(&self) -> (r: usize)
        ensures
            r == self.entries().len(),
    {
        self.timeouts.len()
    }

    /// Insert an entry. Entries already due no later keep their place, so
    /// equal deadlines fire in registration order.
    pub fn register(&mut self, key: K, deadline: u64)
        requires
            old(self).wf(),
            old(self).entries().len() < usize::MAX,
        ensures
            final(self).wf(),
            final(self).gran() == old(self).gran(),
            final(self).entries() == insert_sorted(old(self).entries(), key, deadline),
    {
        let ghost orig = self.timeouts@;
        let mut i: usize = 0;
        while i < self.timeouts.len() && self.timeouts[i].1 <= deadline
            invariant
                self.timeouts@ == orig,
                0 <= i <= orig.len(),
                forall|j: int| 0 <= j < i ==> orig[j].1 <= deadline,
            decreases orig.len() - i,
        {
            i = i + 1;
        }
        self.timeouts.insert(i, (key, deadline));
        proof {
            lemma_insert_sorted_at(orig, key, deadline, i as int);
            assert(deadlines_sorted(orig.insert(i as int, (key, deadline)))) by {
                lemma_insert_keeps_sorted(orig, key, deadline, i as int);
            }
        }
    }

    /// The time to wait for the next deadline, or nothing if the queue is
    /// empty.
    pub fn next(&self, now: u64) -> (r: Option<u64>)
        ensures
            r == self.next_spec(now),
    {
        if self.timeouts.len() == 0 {
            None
        } else {
            let deadline = self.timeouts[0].1;
            let remaining = if deadline >= now {
                deadline - now
            } else {
                0
            };
            if self.granularity >= remaining {
                Some(self.granularity)
            } else {
                Some(remaining)
            }
        }
    }

    /// Remove every entry due at `now` and append its key to `woken`, in
    /// deadline order. Entries that are not yet due stay.
    pub fn wake(&mut self, now: u64, woken: &mut Vec<K>)
        requires
            old(self).wf(),
        ensures
            final(self).wf(),
            final(self).gran() == old(self).gran(),
            final(self).entries() == old(self).entries().skip(
                num_expired(old(self).entries(), now),
            ),
            final(woken)@ == old(woken)@ + expired_keys(old(self).entries(), now),
            forall|i: int| 0 <= i < final(self).entries().len()
                ==> final(self).entries()[i].1 > now,
    {
        let ghost orig = self.timeouts@;
        let ghost worig = woken@;
        let ghost mut k: int = 0;
        while self.timeouts.len() > 0 && self.timeouts[0].1 <= now
            invariant
                0 <= k <= orig.len(),
                deadlines_sorted(orig),
                self.granularity == old(self).granularity,
                self.timeouts@ == orig.skip(k),
                woken@ == worig + orig.take(k).map_values(|e: (K, u64)| e.0),
                forall|j: int| 0 <= j < k ==> orig[j].1 <= now,
            decreases orig.len() - k,
        {
            let e = self.timeouts.remove(0);
            woken.push(e.0);
            proof {
                assert(orig.skip(k).remove(0) =~= orig.skip(k + 1));
                assert(orig.take(k + 1) =~= orig.take(k).push(orig[k]));
                assert(orig.take(k + 1).map_values(|x: (K, u64)| x.0) =~= orig.take(
                    k,
                ).map_values(|x: (K, u64)| x.0).push(orig[k].0));
                k = k + 1;
            }
        }
        proof {
            lemma_num_expired_at(orig, now, k);
            assert(self.timeouts@ =~= orig.skip(k));
            assert(deadlines_sorted(orig.skip(k)));
            assert forall|i: int| 0 <= i < self.timeouts@.len() implies self.timeouts@[i].1
                > now by {
                assert(self.timeouts@[i] == orig[k + i]);
                if i > 0 {
                    assert(orig[k].1 <= orig[k + i].1);
                }
            }
        }
    }
}

/// Inserting at the boundary between the entries due no later and the rest
/// is what [`insert_sorted`] describes.
proof fn lemma_insert_sorted_at<K>(s: Seq<(K, u64)>, key: K, deadline: u64, i: int)
    requires
        0 <= i <= s.len(),
        forall|j: int| 0 <= j < i ==> s[j].1 <= deadline,
        i < s.len() ==> s[i].1 > deadline,
    ensures
        insert_sorted(s, key, deadline) == s.insert(i, (key, deadline)),
    decreases s.len(),
{
    if s.len() == 0 {
        assert(insert_sorted(s, key, deadline) =~= s.insert(0, (key, deadline)));
    } else if i == 0 {
        assert(s[0].1 > deadline);
        assert(insert_sorted(s, key, deadline) =~= s.insert(0, (key, deadline)));
    } else {
        assert(s[0].1 <= deadline);
        lemma_insert_sorted_at(s.drop_first(), key, deadline, i - 1);
        assert(seq![s[0]] + s.drop_first().insert(i - 1, (key, deadline)) =~= s.insert(
            i,
            (key, deadline),
        ));
    }
}

/// Insertion at that boundary keeps the deadlines sorted.
proof fn lemma_insert_keeps_sorted<K>(s: Seq<(K, u64)>, key: K, deadline: u64, i: int)
    requires
        deadlines_sorted(s),
        0 <= i <= s.len(),
        forall|j: int| 0 <= j < i ==> s[j].1 <= deadline,
        i < s.len() ==> s[i].1 > deadline,
    ensures
        deadlines_sorted(s.insert(i, (key, deadline))),
{
    let t = s.insert(i, (key, deadline));
    assert forall|p: int, q: int| 0 <= p < q < t.len() implies t[p].1 <= t[q].1 by {
        if p < i {
            assert(t[p] == s[p]);
        } else if p == i {
            assert(t[p] == (key, deadline));
        } else {
            assert(t[p] == s[p - 1]);
        }
        if q < i {
            assert(t[q] == s[q]);
        } else if q == i {
            assert(t[q] == (key, deadline));
        } else {
            assert(t[q] == s[q - 1]);
        }
    }
}

/// If the first `k` entries of a sorted queue are due and the next is not,
/// then exactly `k` are due.
proof fn lemma_num_expired_at<K>(s: Seq<(K, u64)>, now: u64, k: int)
    requires
        deadlines_sorted(s),
        0 <= k <= s.len(),
        forall|j: int| 0 <= j < k ==> s[j].1 <= now,
        k < s.len() ==> s[k].1 > now,
    ensures
        num_expired(s, now) == k,
    decreases s.len(),
{
    if k == 0 {
        if s.len() > 0 {
            assert(s[0].1 > now);
        }
    } else {
        assert(s[0].1 <= now);
        assert(deadlines_sorted(s.drop_first())) by {
            assert forall|p: int, q: int|
                0 <= p < q < s.drop_first().len() implies s.drop_first()[p].1
                <= s.drop_first()[q].1 by {
                assert(s.drop_first()[p] == s[p + 1]);
                assert(s.drop_first()[q] == s[q + 1]);
            }
        }
        lemma_num_expired_at(s.drop_first(), now, k - 1);
    }
}

} // verus!
