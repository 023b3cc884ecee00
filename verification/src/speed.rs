//! Rolling per-vehicle speed windows with an expiry countdown.
//!
//! Each tracked vehicle keeps the last up to [`MAX_SPEEDS`] observed speeds
//! (millimetres per second) together with their running average, and a
//! countdown that is reset to [`EXPIRE`] on every sighting and decremented
//! once per fetch cycle; an entry whose countdown reaches zero is evicted.

use std::collections::VecDeque;
use vstd::prelude::*;

verus! {

/// Capacity of the rolling speed window.
pub const MAX_SPEEDS: usize = 100;

/// Number of fetch cycles an unseen entry survives.
pub const EXPIRE: usize = 10;

/// The rolling speed window of one vehicle.
pub struct BusSpeed {
    /// Cycles left before eviction; between 1 and [`EXPIRE`] while stored.
    pub expire: usize,
    /// The last up to [`MAX_SPEEDS`] observed speeds, oldest first, in mm/s.
    pub speeds: VecDeque<u32>,
    /// Arithmetic mean of `speeds` (integer floor), in mm/s.
    pub speed_average: u32,
}

/// Sum of a window of speeds.
pub open spec fn window_sum(s: Seq<u32>) -> int
    decreases s.len(),
{
    if s.len() == 0 {
        0
    } else {
        window_sum(s.drop_last()) + s.last()
    }
}

pub proof fn lemma_window_sum_bounds(s: Seq<u32>)
    ensures
        0 <= window_sum(s) <= s.len() * 0xffff_ffff,
    decreases s.len(),
{
    if s.len() > 0 {
        lemma_window_sum_bounds(s.drop_last());
        assert((s.len() - 1) * 0xffff_ffff + 0xffff_ffff == s.len() * 0xffff_ffff)
            by (nonlinear_arith);
    }
}

pub proof fn lemma_window_sum_take_step(s: Seq<u32>, i: int)
    requires
        0 <= i < s.len(),
    ensures
        window_sum(s.take(i + 1)) == window_sum(s.take(i)) + s[i],
{
    assert(s.take(i + 1).drop_last() =~= s.take(i));
    assert(s.take(i + 1).last() == s[i]);
}

/// The window after appending one speed: the new value is pushed and, when
/// the window would exceed its capacity, the oldest value is dropped.
pub open spec fn push_window(s: Seq<u32>, v: u32) -> Seq<u32> {
    if s.len() + 1 > MAX_SPEEDS {
        s.push(v).drop_first()
    } else {
        s.push(v)
    }
}

/// A whole sequence of sightings pushed into a window, oldest first.
pub open spec fn push_window_all(w: Seq<u32>, vs: Seq<u32>) -> Seq<u32>
    decreases vs.len(),
{
    if vs.len() == 0 {
        w
    } else {
        push_window_all(push_window(w, vs[0]), vs.drop_first())
    }
}

/// The last up-to-capacity suffix of a sequence of speeds.
pub open spec fn last_window(s: Seq<u32>) -> Seq<u32> {
    if s.len() <= MAX_SPEEDS {
        s
    } else {
        s.skip(s.len() - MAX_SPEEDS as int)
    }
}

/// The rollover law, iterated: pushing any sequence of sightings into a
/// window within capacity leaves exactly the last up-to-capacity values of
/// the old window followed by the sightings, oldest first.
pub proof fn lemma_window_rollover(w: Seq<u32>, vs: Seq<u32>)
    requires
        w.len() <= MAX_SPEEDS,
    ensures
        push_window_all(w, vs) == last_window(w + vs),
    decreases vs.len(),
{
    if vs.len() == 0 {
        assert(w + vs =~= w);
    } else {
        let v = vs[0];
        let w2 = push_window(w, v);
        lemma_window_rollover(w2, vs.drop_first());
        if w.len() + 1 > MAX_SPEEDS {
            assert(w2 + vs.drop_first() =~= (w + vs).drop_first());
            assert((w + vs).len() > MAX_SPEEDS);
            assert(last_window(w2 + vs.drop_first()) =~= last_window(w + vs));
        } else {
            assert(w2 + vs.drop_first() =~= w + vs);
        }
    }
}

/// The rollover law for a fresh vehicle: a window that starts empty and
/// receives any sequence of sightings holds exactly the last
/// up-to-[`MAX_SPEEDS`] of them, oldest first.
pub proof fn lemma_window_after_sightings(vs: Seq<u32>)
    ensures
        push_window_all(Seq::empty(), vs) == if vs.len() <= MAX_SPEEDS {
            vs
        } else {
            vs.skip(vs.len() - MAX_SPEEDS as int)
        },
{
    lemma_window_rollover(Seq::empty(), vs);
    assert(Seq::<u32>::empty() + vs =~= vs);
}

impl BusSpeed {
    /// Well-formedness: bounded window, average is the floored mean of the
    /// window, countdown is live.
    pub open spec fn wf(&self) -> bool {
        &&& self.speeds@.len() <= MAX_SPEEDS
        &&& self.speeds@.len() > 0 ==> self.speed_average == window_sum(self.speeds@) / (
        self.speeds@.len() as int)
        &&& 1 <= self.expire <= EXPIRE
    }

    /// A fresh, empty window, as created on the first sighting of a vehicle.
    pub fn new() -> (r: BusSpeed)
        ensures
            r.wf(),
            r.speeds@ =~= Seq::<u32>::empty(),
            r.expire == EXPIRE,
            r.speed_average == 0,
    {
        BusSpeed { expire: EXPIRE, speeds: VecDeque::new(), speed_average: 0 }
    }

    /// Record one observed speed: append it, trim the window to capacity,
    /// recompute the mean and reset the countdown. Returns the new mean and
    /// window length.
    pub fn insert_speeds(&mut self, speed: u32) -> (r: (u32, usize))
        requires
            old(self).speeds@.len() <= MAX_SPEEDS,
        ensures
            final(self).wf(),
            final(self).speeds@ == push_window(old(self).speeds@, speed),
            final(self).expire == EXPIRE,
            r.0 == final(self).speed_average,
            r.1 == final(self).speeds@.len(),
    {
        self.speeds.push_back(speed);
        if self.speeds.len() > MAX_SPEEDS {
            self.speeds.pop_front();
        }
        let ghost w = self.speeds@;
        let len: usize = self.speeds.len();
        let mut sum: u64 = 0;
        let mut i: usize = 0;
        proof {
            assert(w.take(0) =~= Seq::<u32>::empty());
        }
        while i < len
            invariant
                0 <= i <= len,
                len == w.len(),
                w == self.speeds@,
                w.len() <= MAX_SPEEDS,
                sum == window_sum(w.take(i as int)),
                sum <= i * 0xffff_ffffu64,
            decreases len - i,
        {
            proof {
                lemma_window_sum_take_step(w, i as int);
                lemma_window_sum_bounds(w.take(i as int));
                assert(i * 0xffff_ffffu64 + 0xffff_ffffu64 == (i + 1) * 0xffff_ffffu64)
                    by (nonlinear_arith);
            }
            sum = sum + self.speeds[i] as u64;
            i += 1;
        }
        proof {
            assert(w.take(len as int) =~= w);
            assert(window_sum(w) / (w.len() as int) <= 0xffff_ffff) by (nonlinear_arith)
                requires
                    w.len() >= 1,
                    0 <= window_sum(w) <= w.len() * 0xffff_ffff,
            ;
        }
        let average: u32 = (sum / len as u64) as u32;
        self.speed_average = average;
        self.expire = EXPIRE;
        (average, len)
    }
}

/// One tracked vehicle: its id and its rolling window.
pub struct SpeedEntry {
    pub id: String,
    pub data: BusSpeed,
}

/// Whether some entry carries the given id.
pub open spec fn contains_id(s: Seq<SpeedEntry>, id: Seq<char>) -> bool {
    exists|i: int| 0 <= i < s.len() && s[i].id@ == id
}

/// No two entries carry the same id.
pub open spec fn unique_ids(s: Seq<SpeedEntry>) -> bool {
    forall|i: int, j: int| 0 <= i < j < s.len() ==> s[i].id@ != s[j].id@
}

/// Under unique ids, the chosen index of an id is the one it occurs at.
pub proof fn lemma_id_index_unique(s: Seq<SpeedEntry>, id: Seq<char>, i: int)
    requires
        unique_ids(s),
        0 <= i < s.len(),
        s[i].id@ == id,
    ensures
        contains_id(s, id),
        index_of_id(s, id) == i,
{
    assert(contains_id(s, id));
    let k = index_of_id(s, id);
    assert(0 <= k < s.len() && s[k].id@ == id);
    if k < i {
        assert(s[k].id@ != s[i].id@);
    } else if i < k {
        assert(s[i].id@ != s[k].id@);
    }
}

/// The index of the entry carrying the given id (unique under
/// [`SpeedTracker::wf`]).
pub open spec fn index_of_id(s: Seq<SpeedEntry>, id: Seq<char>) -> int {
    choose|i: int| 0 <= i < s.len() && s[i].id@ == id
}

/// The speed window stored for an id, or the empty window when untracked.
pub open spec fn window_of(s: Seq<SpeedEntry>, id: Seq<char>) -> Seq<u32> {
    if contains_id(s, id) {
        s[index_of_id(s, id)].data.speeds@
    } else {
        Seq::empty()
    }
}

/// The expiry countdown stored for an id; meaningful only when tracked.
pub open spec fn expire_of(s: Seq<SpeedEntry>, id: Seq<char>) -> int {
    s[index_of_id(s, id)].data.expire as int
}

/// One aging pass over the entries: every countdown is decremented and the
/// entries whose countdown reaches zero are dropped, order preserved.
pub open spec fn age_seq(s: Seq<SpeedEntry>) -> Seq<SpeedEntry>
    decreases s.len(),
{
    if s.len() == 0 {
        Seq::empty()
    } else {
        let head = s[0];
        let rest = age_seq(s.drop_first());
        if head.data.expire == 1 {
            rest
        } else {
            seq![
                SpeedEntry {
                    id: head.id,
                    data: BusSpeed {
                        expire: (head.data.expire - 1) as usize,
                        speeds: head.data.speeds,
                        speed_average: head.data.speed_average,
                    },
                },
            ] + rest
        }
    }
}

/// `n` consecutive aging passes.
pub open spec fn age_iter(s: Seq<SpeedEntry>, n: nat) -> Seq<SpeedEntry>
    decreases n,
{
    if n == 0 {
        s
    } else {
        age_iter(age_seq(s), (n - 1) as nat)
    }
}

/// Well-formed entry sequence: unique ids and well-formed windows.
pub open spec fn entries_wf(s: Seq<SpeedEntry>) -> bool {
    &&& unique_ids(s)
    &&& forall|i: int| 0 <= i < s.len() ==> (#[trigger] s[i]).data.wf()
}

/// An id present after an aging pass was present before it.
pub proof fn lemma_age_seq_subset(s: Seq<SpeedEntry>, id: Seq<char>)
    requires
        contains_id(age_seq(s), id),
    ensures
        contains_id(s, id),
    decreases s.len(),
{
    if s.len() > 0 {
        let head = s[0];
        let rest = s.drop_first();
        if head.data.expire == 1 {
            lemma_age_seq_subset(rest, id);
            let i = index_of_id(rest, id);
            assert(s[i + 1].id@ == id);
        } else {
            if head.id@ == id {
            } else {
                let a = age_seq(s);
                let i = index_of_id(a, id);
                assert(a[i].id@ == id);
                if i == 0 {
                    assert(a[0].id@ == head.id@);
                } else {
                    assert(age_seq(rest)[i - 1].id@ == id);
                    assert(contains_id(age_seq(rest), id));
                    lemma_age_seq_subset(rest, id);
                    let j = index_of_id(rest, id);
                    assert(s[j + 1].id@ == id);
                }
            }
        }
    }
}

/// Aging preserves well-formedness of the entry sequence.
pub proof fn lemma_age_seq_wf(s: Seq<SpeedEntry>)
    requires
        entries_wf(s),
    ensures
        entries_wf(age_seq(s)),
    decreases s.len(),
{
    if s.len() > 0 {
        let head = s[0];
        let rest = s.drop_first();
        assert forall|i: int| 0 <= i < rest.len() implies (#[trigger] rest[i]).data.wf() by {
            assert(rest[i] == s[i + 1]);
        }
        assert forall|i: int, j: int| 0 <= i < j < rest.len() implies rest[i].id@
            != rest[j].id@ by {
            assert(rest[i] == s[i + 1] && rest[j] == s[j + 1]);
        }
        lemma_age_seq_wf(rest);
        if head.data.expire == 1 {
        } else {
            let a = age_seq(s);
            assert(!contains_id(rest, head.id@)) by {
                if contains_id(rest, head.id@) {
                    let i = index_of_id(rest, head.id@);
                    assert(s[i + 1].id@ == head.id@);
                }
            }
            assert(!contains_id(age_seq(rest), head.id@)) by {
                if contains_id(age_seq(rest), head.id@) {
                    lemma_age_seq_subset(rest, head.id@);
                }
            }
            assert forall|i: int, j: int| 0 <= i < j < a.len() implies a[i].id@ != a[j].id@ by {
                if i == 0 {
                    assert(age_seq(rest)[j - 1].id@ == a[j].id@);
                    assert(contains_id(age_seq(rest), a[j].id@) || a[0].id@ != a[j].id@) by {
                        assert(age_seq(rest)[j - 1].id@ == a[j].id@);
                    }
                } else {
                    assert(a[i] == age_seq(rest)[i - 1] && a[j] == age_seq(rest)[j - 1]);
                }
            }
            assert forall|i: int| 0 <= i < a.len() implies (#[trigger] a[i]).data.wf() by {
                if i > 0 {
                    assert(a[i] == age_seq(rest)[i - 1]);
                }
            }
        }
    }
}

/// One aging pass on a tracked id: a countdown of one means eviction, a
/// larger countdown is decremented with the window kept.
pub proof fn lemma_age_seq_step(s: Seq<SpeedEntry>, id: Seq<char>)
    requires
        entries_wf(s),
        contains_id(s, id),
    ensures
        expire_of(s, id) == 1 ==> !contains_id(age_seq(s), id),
        expire_of(s, id) > 1 ==> contains_id(age_seq(s), id) && expire_of(age_seq(s), id)
            == expire_of(s, id) - 1,
    decreases s.len(),
{
    let head = s[0];
    let rest = s.drop_first();
    assert forall|i: int| 0 <= i < rest.len() implies (#[trigger] rest[i]).data.wf() by {
        assert(rest[i] == s[i + 1]);
    }
    assert forall|i: int, j: int| 0 <= i < j < rest.len() implies rest[i].id@ != rest[j].id@ by {
        assert(rest[i] == s[i + 1] && rest[j] == s[j + 1]);
    }
    lemma_age_seq_wf(s);
    if head.id@ == id {
        lemma_id_index_unique(s, id, 0);
        assert(!contains_id(rest, id)) by {
            if contains_id(rest, id) {
                let i = index_of_id(rest, id);
                assert(s[i + 1].id@ == id);
            }
        }
        assert(!contains_id(age_seq(rest), id)) by {
            if contains_id(age_seq(rest), id) {
                lemma_age_seq_subset(rest, id);
            }
        }
        if head.data.expire == 1 {
        } else {
            let a = age_seq(s);
            assert(a[0].id@ == id);
            lemma_id_index_unique(a, id, 0);
        }
    } else {
        let k = index_of_id(s, id);
        assert(s[k].id@ == id);
        assert(k != 0);
        assert(rest[k - 1].id@ == id);
        assert(contains_id(rest, id));
        lemma_id_index_unique(rest, id, k - 1);
        assert(expire_of(rest, id) == expire_of(s, id)) by {
            lemma_id_index_unique(s, id, k);
        }
        lemma_age_seq_step(rest, id);
        if head.data.expire == 1 {
        } else {
            let a = age_seq(s);
            if expire_of(s, id) > 1 {
                let j = index_of_id(age_seq(rest), id);
                assert(age_seq(rest)[j].id@ == id);
                assert(a[j + 1].id@ == id);
                lemma_age_seq_wf(rest);
                lemma_id_index_unique(a, id, j + 1);
            } else {
                if contains_id(a, id) {
                    let j = index_of_id(a, id);
                    assert(a[j].id@ == id);
                    assert(j != 0);
                    assert(age_seq(rest)[j - 1].id@ == id);
                    assert(contains_id(age_seq(rest), id));
                }
            }
        }
    }
}

/// A tracked id whose countdown is at most `n` is gone after `n` aging
/// passes; an untracked id stays untracked.
pub proof fn lemma_expiry_after_cycles(s: Seq<SpeedEntry>, id: Seq<char>, n: nat)
    requires
        entries_wf(s),
        contains_id(s, id) ==> expire_of(s, id) <= n,
    ensures
        !contains_id(age_iter(s, n), id),
    decreases n,
{
    if n == 0 {
        if contains_id(s, id) {
            let k = index_of_id(s, id);
            assert(s[k].data.wf());
        }
    } else {
        lemma_age_seq_wf(s);
        if contains_id(s, id) {
            let k = index_of_id(s, id);
            assert(s[k].data.wf());
            lemma_age_seq_step(s, id);
        } else {
            if contains_id(age_seq(s), id) {
                lemma_age_seq_subset(s, id);
            }
        }
        lemma_expiry_after_cycles(age_seq(s), id, (n - 1) as nat);
    }
}

/// The law of expiry: starting from any well-formed tracker, after
/// [`EXPIRE`] consecutive aging passes with no sighting of an id in between,
/// the tracker holds no entry for that id.
pub proof fn lemma_entry_expires(t: &SpeedTracker, id: Seq<char>)
    requires
        t.wf(),
    ensures
        !contains_id(age_iter(t.entries@, EXPIRE as nat), id),
{
    if contains_id(t.entries@, id) {
        let k = index_of_id(t.entries@, id);
        assert(t.entries@[k].data.wf());
    }
    lemma_expiry_after_cycles(t.entries@, id, EXPIRE as nat);
}

/// The map from vehicle id to rolling speed window.
pub struct SpeedTracker {
    pub entries: Vec<SpeedEntry>,
}

impl SpeedTracker {
    /// Well-formedness: ids are unique and every window is well-formed.
    pub open spec fn wf(&self) -> bool {
        &&& unique_ids(self.entries@)
        &&& forall|i: int| 0 <= i < self.entries@.len() ==> (#[trigger] self.entries@[i]).data.wf()
    }

    pub fn new() -> (r: SpeedTracker)
        ensures
            r.wf(),
            r.entries@ =~= Seq::<SpeedEntry>::empty(),
    {
        SpeedTracker { entries: Vec::new() }
    }

    /// Index of the entry for `id`, inserting a fresh one if absent.
    pub fn get_bus_speed(&mut self, id: &String) -> (k: usize)
        requires
            old(self).wf(),
        ensures
            final(self).wf(),
            k < final(self).entries@.len(),
            final(self).entries@[k as int].id@ == id@,
            contains_id(old(self).entries@, id@) ==> *final(self) == *old(self) && k
                == index_of_id(old(self).entries@, id@),
            !contains_id(old(self).entries@, id@) ==> final(self).entries@ == old(
                self,
            ).entries@.push(final(self).entries@[k as int]) && k == old(self).entries@.len()
                && final(self).entries@[k as int].data.speeds@ =~= Seq::<u32>::empty()
                && final(self).entries@[k as int].data.expire == EXPIRE
                && final(self).entries@[k as int].data.speed_average == 0,
    {
        let n: usize = self.entries.len();
        let mut i: usize = 0;
        while i < n
            invariant
                0 <= i <= n,
                *self == *old(self),
                old(self).wf(),
                n == self.entries@.len(),
                forall|j: int| 0 <= j < i ==> self.entries@[j].id@ != id@,
            decreases n - i,
        {
            if self.entries[i].id == *id {
                proof {
                    lemma_id_index_unique(self.entries@, id@, i as int);
                }
                return i;
            }
            i += 1;
        }
        proof {
            assert(!contains_id(self.entries@, id@));
        }
        let entry = SpeedEntry { id: id.clone(), data: BusSpeed::new() };
        self.entries.push(entry);
        proof {
            assert(self.entries@[n as int].id@ == id@);
            assert(contains_id(self.entries@, id@));
        }
        n
    }

    /// Record a sighting of `id` at `speed`; returns the updated mean and
    /// window length for that vehicle.
    pub fn observe(&mut self, id: &String, speed: u32) -> (r: (u32, usize))
        requires
            old(self).wf(),
        ensures
            final(self).wf(),
            contains_id(final(self).entries@, id@),
            window_of(final(self).entries@, id@) == push_window(
                window_of(old(self).entries@, id@),
                speed,
            ),
            expire_of(final(self).entries@, id@) == EXPIRE,
            r.0 == window_sum(window_of(final(self).entries@, id@)) / (window_of(
                final(self).entries@,
                id@,
            ).len() as int),
            r.1 == window_of(final(self).entries@, id@).len(),
            forall|other: Seq<char>|
                other != id@ ==> #[trigger] window_of(final(self).entries@, other) == window_of(
                    old(self).entries@,
                    other,
                ),
            forall|other: Seq<char>|
                other != id@ ==> #[trigger] contains_id(final(self).entries@, other) == contains_id(
                    old(self).entries@,
                    other,
                ),
            forall|other: Seq<char>|
                other != id@ && contains_id(old(self).entries@, other) ==> #[trigger] expire_of(
                    final(self).entries@,
                    other,
                ) == expire_of(old(self).entries@, other),
    {
        let ghost oldv = old(self).entries@;
        let k = self.get_bus_speed(id);
        let ghost pre = self.entries@;
        proof {
            lemma_id_index_unique(pre, id@, k as int);
            if contains_id(oldv, id@) {
                assert(window_of(pre, id@) == window_of(oldv, id@));
            } else {
                assert(window_of(pre, id@) =~= Seq::<u32>::empty());
                assert(window_of(oldv, id@) =~= Seq::<u32>::empty());
            }
            assert forall|other: Seq<char>| other != id@ implies #[trigger] window_of(pre, other)
                == window_of(oldv, other) && contains_id(pre, other) == contains_id(oldv, other)
                && (contains_id(oldv, other) ==> expire_of(pre, other) == expire_of(
                oldv,
                other,
            )) by {
                if contains_id(oldv, id@) {
                } else {
                    if contains_id(oldv, other) {
                        let j = index_of_id(oldv, other);
                        assert(pre[j].id@ == other);
                        lemma_id_index_unique(pre, other, j);
                        lemma_id_index_unique(oldv, other, j);
                    }
                    if contains_id(pre, other) {
                        let j = index_of_id(pre, other);
                        assert(j != oldv.len() as int);
                        assert(oldv[j].id@ == other);
                    }
                }
            }
        }
        let mut e = self.entries.remove(k);
        let r = e.data.insert_speeds(speed);
        self.entries.insert(k, e);
        let ghost cur = self.entries@;
        proof {
            assert(cur =~= pre.update(k as int, cur[k as int]));
            assert(cur[k as int].id@ == id@);
            assert forall|i: int| 0 <= i < cur.len() implies (#[trigger] cur[i]).id@
                == pre[i].id@ by {}
            assert(unique_ids(cur));
            lemma_id_index_unique(cur, id@, k as int);
            assert(window_of(cur, id@) == push_window(window_of(pre, id@), speed));
            assert forall|other: Seq<char>| other != id@ implies #[trigger] window_of(cur, other)
                == window_of(pre, other) && contains_id(cur, other) == contains_id(pre, other) && (
            contains_id(pre, other) ==> expire_of(cur, other) == expire_of(pre, other)) by {
                if contains_id(pre, other) {
                    let j = index_of_id(pre, other);
                    assert(cur[j].id@ == other);
                    assert(j != k as int);
                    lemma_id_index_unique(cur, other, j);
                    lemma_id_index_unique(pre, other, j);
                } else {
                    if contains_id(cur, other) {
                        let j = index_of_id(cur, other);
                        assert(pre[j].id@ == other);
                    }
                }
            }
            assert forall|other: Seq<char>| other != id@ implies #[trigger] contains_id(
                self.entries@,
                other,
            ) == contains_id(old(self).entries@, other) && (contains_id(old(self).entries@, other)
                ==> expire_of(self.entries@, other) == expire_of(old(self).entries@, other)) by {
                assert(window_of(pre, other) == window_of(oldv, other));
                assert(window_of(cur, other) == window_of(pre, other));
                assert(cur == self.entries@);
                assert(oldv == old(self).entries@);
            }
            assert forall|other: Seq<char>|
                other != id@ && contains_id(old(self).entries@, other) implies #[trigger] expire_of(
                self.entries@,
                other,
            ) == expire_of(old(self).entries@, other) by {
                assert(window_of(pre, other) == window_of(oldv, other));
                assert(window_of(cur, other) == window_of(pre, other));
                assert(cur == self.entries@);
                assert(oldv == old(self).entries@);
            }
        }
        r
    }

    /// One aging pass, run once per fetch cycle after all observations:
    /// decrement every countdown and evict the entries that reach zero.
    pub fn age_and_evict(&mut self)
        requires
            old(self).wf(),
        ensures
            final(self).wf(),
            final(self).entries@ == age_seq(old(self).entries@),
    {
        let ghost orig = self.entries@;
        let mut kept: Vec<SpeedEntry> = Vec::new();
        while self.entries.len() > 0
            invariant
                age_seq(orig) == kept@ + age_seq(self.entries@),
                forall|i: int, j: int|
                    0 <= i < j < self.entries@.len() ==> self.entries@[i].id@
                        != self.entries@[j].id@,
                forall|i: int|
                    0 <= i < self.entries@.len() ==> (#[trigger] self.entries@[i]).data.wf(),
                forall|i: int, j: int|
                    0 <= i < j < kept@.len() ==> kept@[i].id@ != kept@[j].id@,
                forall|i: int| 0 <= i < kept@.len() ==> (#[trigger] kept@[i]).data.wf(),
                forall|i: int, j: int|
                    0 <= i < kept@.len() && 0 <= j < self.entries@.len() ==> kept@[i].id@
                        != self.entries@[j].id@,
            decreases self.entries@.len(),
        {
            let ghost before = self.entries@;
            let e = self.entries.remove(0);
            proof {
                assert(before.drop_first() =~= self.entries@);
            }
            if e.data.expire > 1 {
                let aged = SpeedEntry {
                    id: e.id,
                    data: BusSpeed {
                        expire: e.data.expire - 1,
                        speeds: e.data.speeds,
                        speed_average: e.data.speed_average,
                    },
                };
                kept.push(aged);
                proof {
                    assert(age_seq(before) =~= seq![aged] + age_seq(self.entries@));
                }
            } else {
                proof {
                    assert(e.data.expire == 1);
                    assert(age_seq(before) == age_seq(self.entries@));
                }
            }
        }
        proof {
            assert(age_seq(self.entries@) =~= Seq::<SpeedEntry>::empty());
            assert(kept@ + age_seq(self.entries@) =~= kept@);
        }
        self.entries = kept;
    }

    /// Number of tracked vehicles.
    pub fn len(&self) -> (n: usize)
        ensures
            n == self.entries@.len(),
    {
        self.entries.len()
    }

    /// One row per tracked vehicle: its id, rolling mean, countdown and
    /// window length, in storage order.
    pub fn snapshot(&self) -> (r: Vec<SpeedReport>)
        ensures
            r@.len() == self.entries@.len(),
            forall|i: int|
                0 <= i < r@.len() ==> {
                    let row = #[trigger] r@[i];
                    &&& row.id == self.entries@[i].id
                    &&& row.speed_average == self.entries@[i].data.speed_average
                    &&& row.expire == self.entries@[i].data.expire
                    &&& row.count == self.entries@[i].data.speeds@.len()
                },
    {
        let mut out: Vec<SpeedReport> = Vec::new();
        let mut i: usize = 0;
        while i < self.entries.len()
            invariant
                0 <= i <= self.entries@.len(),
                out@.len() == i,
                forall|j: int|
                    0 <= j < i ==> {
                        let row = #[trigger] out@[j];
                        &&& row.id == self.entries@[j].id
                        &&& row.speed_average == self.entries@[j].data.speed_average
                        &&& row.expire == self.entries@[j].data.expire
                        &&& row.count == self.entries@[j].data.speeds@.len()
                    },
            decreases self.entries@.len() - i,
        {
            let e = &self.entries[i];
            out.push(
                SpeedReport {
                    id: e.id.clone(),
                    speed_average: e.data.speed_average,
                    expire: e.data.expire,
                    count: e.data.speeds.len(),
                },
            );
            i += 1;
        }
        out
    }
}

/// One row of the speed-tracker view exposed to readers.
pub struct SpeedReport {
    pub id: String,
    /// Rolling mean in mm/s.
    pub speed_average: u32,
    /// Cycles left before eviction.
    pub expire: usize,
    /// Number of speeds in the window.
    pub count: usize,
}

/// Every stored window respects the capacity bound and its stored average is
/// exactly the floored mean of the stored speeds.
pub proof fn lemma_speed_windows_bounded(t: &SpeedTracker)
    requires
        t.wf(),
    ensures
        forall|i: int|
            0 <= i < t.entries@.len() ==> (#[trigger] t.entries@[i]).data.speeds@.len()
                <= MAX_SPEEDS,
        forall|i: int|
            0 <= i < t.entries@.len() && t.entries@[i].data.speeds@.len() > 0 ==> (
            #[trigger] t.entries@[i]).data.speed_average == window_sum(t.entries@[i].data.speeds@)
                / (t.entries@[i].data.speeds@.len() as int),
{
}

} // verus!
