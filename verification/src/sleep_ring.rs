use std::collections::VecDeque;
use vstd::multiset::Multiset;
use vstd::prelude::*;

verus! {

broadcast use {
    vstd::std_specs::vecdeque::group_vec_dequeue_axioms,
    vstd::std_specs::vec::group_vec_axioms,
    vstd::multiset::group_multiset_axioms,
};

/// Number of slots in the timer ring of an executor: one slot per tick of
/// the wall clock, reused every `SLEEP_RING_SLOTS` ticks.
pub const SLEEP_RING_SLOTS: usize = 1000;

/// What the timer ring holds: the clock up to which it has been drained
/// (`exe_clock`) and, for each slot, the ids of the tasks parked there,
/// oldest first.
pub struct SleepRingView {
    pub exe_clock: u64,
    pub slots: Seq<Seq<u64>>,
}

/// A ring with every slot empty and its clock at 0.
pub open spec fn empty_ring() -> SleepRingView {
    SleepRingView {
        exe_clock: 0,
        slots: Seq::new(SLEEP_RING_SLOTS as nat, |i: int| Seq::<u64>::empty()),
    }
}

/// The slot that a clock value falls into, for a ring of `n` slots.
pub open spec fn slot_index(clock: int, n: int) -> int {
    clock % n
}

/// The first clock value `c` in `from ..= to` whose slot holds a task.
pub open spec fn first_due(slots: Seq<Seq<u64>>, from: int, to: int) -> Option<int>
    decreases to + 1 - from,
{
    if from > to || slots.len() == 0 {
        None
    } else if slots[slot_index(from, slots.len() as int)].len() > 0 {
        Some(from)
    } else {
        first_due(slots, from + 1, to)
    }
}

/// The ring after parking `task` `offset` ticks after the wall clock
/// `latest`. Where the ring is ahead of the wall clock, the task goes into
/// the slot of the ring's own clock.
pub open spec fn ring_push(v: SleepRingView, latest: u64, offset: u64, task: u64) -> SleepRingView {
    let n = v.slots.len() as int;
    let due: int = if v.exe_clock > latest {
        v.exe_clock as int
    } else {
        offset + latest
    };
    let i = slot_index(due, n);
    SleepRingView { exe_clock: v.exe_clock, slots: v.slots.update(i, v.slots[i].push(task)) }
}

/// What taking one due task out of the ring gives at wall clock `latest`:
/// the oldest task of the first non-empty slot met while the ring's clock
/// walks up to `latest`, and the ring with its clock left on that slot; or,
/// where none is due, nothing and the ring's clock moved up to `latest`.
pub open spec fn ring_pop(v: SleepRingView, latest: u64) -> (Option<u64>, SleepRingView) {
    let n = v.slots.len() as int;
    match first_due(v.slots, v.exe_clock as int, latest as int) {
        Some(c) => {
            let i = slot_index(c, n);
            (
                Some(v.slots[i][0]),
                SleepRingView { exe_clock: c as u64, slots: v.slots.update(i, v.slots[i].drop_first()) },
            )
        },
        None => (None, SleepRingView { exe_clock: latest, slots: v.slots }),
    }
}

/// Number of tasks parked in the ring.
pub open spec fn total_parked(slots: Seq<Seq<u64>>) -> nat
    decreases slots.len(),
{
    if slots.len() == 0 {
        0
    } else {
        total_parked(slots.drop_last()) + slots.last().len()
    }
}

/// All the tasks parked in the ring, as a multiset.
pub open spec fn parked(slots: Seq<Seq<u64>>) -> Multiset<u64>
    decreases slots.len(),
{
    if slots.len() == 0 {
        Multiset::empty()
    } else {
        parked(slots.drop_last()).add(slots.last().to_multiset())
    }
}

/// Everything that the ring holds falls due, oldest first, as the ring's
/// clock walks up to the wall clock `latest`: the tasks taken out, in order,
/// and the ring left behind.
pub open spec fn ring_drain(v: SleepRingView, latest: u64) -> (Seq<u64>, SleepRingView)
    decreases total_parked(v.slots),
{
    let (h, rest) = ring_pop(v, latest);
    match h {
        Some(t) => {
            proof {
                lemma_pop_unparks(v, latest);
            }
            let (more, last) = ring_drain(rest, latest);
            (seq![t] + more, last)
        },
        None => (Seq::empty(), rest),
    }
}

/// What `first_due` finds: a clock in range whose slot holds a task, with
/// every slot before it empty; or, where it finds none, every slot in range
/// empty.
pub proof fn lemma_first_due(slots: Seq<Seq<u64>>, from: int, to: int)
    requires
        slots.len() > 0,
    ensures
        match first_due(slots, from, to) {
            Some(c) => {
                &&& from <= c <= to
                &&& slots[slot_index(c, slots.len() as int)].len() > 0
                &&& forall|k: int|
                    from <= k < c ==> #[trigger] slots[slot_index(k, slots.len() as int)].len()
                        == 0
            },
            None => forall|k: int|
                from <= k <= to ==> #[trigger] slots[slot_index(k, slots.len() as int)].len() == 0,
        },
    decreases to + 1 - from,
{
    if from <= to && slots[slot_index(from, slots.len() as int)].len() == 0 {
        lemma_first_due(slots, from + 1, to);
    }
}

/// Replacing one slot changes the ring's contents by exactly that slot.
pub proof fn lemma_parked_update(slots: Seq<Seq<u64>>, i: int, s: Seq<u64>)
    requires
        0 <= i < slots.len(),
    ensures
        forall|t: u64|
            #[trigger] parked(slots.update(i, s)).count(t) + slots[i].to_multiset().count(t)
                == parked(slots).count(t) + s.to_multiset().count(t),
        total_parked(slots.update(i, s)) + slots[i].len() == total_parked(slots) + s.len(),
    decreases slots.len(),
{
    let u = slots.update(i, s);
    let last = slots.len() - 1;
    if i == last {
        assert(u.drop_last() =~= slots.drop_last());
        assert forall|t: u64|
            #[trigger] parked(u).count(t) + slots[i].to_multiset().count(t) == parked(slots).count(
                t,
            ) + s.to_multiset().count(t) by {
            assert(parked(u).count(t) == parked(u.drop_last()).count(t) + s.to_multiset().count(t));
        }
    } else {
        lemma_parked_update(slots.drop_last(), i, s);
        assert(u.drop_last() =~= slots.drop_last().update(i, s));
        assert(slots.drop_last()[i] == slots[i]);
        assert forall|t: u64|
            #[trigger] parked(u).count(t) + slots[i].to_multiset().count(t) == parked(slots).count(
                t,
            ) + s.to_multiset().count(t) by {
            assert(parked(u).count(t) == parked(u.drop_last()).count(t) + slots[last].to_multiset().count(t));
            assert(parked(slots.drop_last().update(i, s)).count(t) + slots.drop_last()[i].to_multiset().count(t)
                == parked(slots.drop_last()).count(t) + s.to_multiset().count(t));
        }
    }
}

/// The ring holds no task exactly when every slot is empty.
pub proof fn lemma_total_parked_zero(slots: Seq<Seq<u64>>)
    ensures
        total_parked(slots) == 0 <==> forall|i: int| 0 <= i < slots.len() ==> #[trigger] slots[i].len()
            == 0,
    decreases slots.len(),
{
    if slots.len() > 0 {
        lemma_total_parked_zero(slots.drop_last());
        if total_parked(slots) == 0 {
            assert forall|i: int| 0 <= i < slots.len() implies #[trigger] slots[i].len() == 0 by {
                if i < slots.len() - 1 {
                    assert(slots.drop_last()[i] == slots[i]);
                }
            }
        }
        if forall|i: int| 0 <= i < slots.len() ==> #[trigger] slots[i].len() == 0 {
            assert forall|i: int| 0 <= i < slots.drop_last().len() implies #[trigger] slots.drop_last()[i].len() == 0 by {
                assert(slots.drop_last()[i] == slots[i]);
            }
            assert(slots[slots.len() - 1].len() == 0);
        }
    }
}

/// Parking a task adds exactly that task to the ring.
pub proof fn lemma_push_parks(v: SleepRingView, latest: u64, offset: u64, task: u64)
    requires
        v.slots.len() > 0,
    ensures
        parked(ring_push(v, latest, offset, task).slots) =~= parked(v.slots).insert(task),
        total_parked(ring_push(v, latest, offset, task).slots) == total_parked(v.slots) + 1,
        ring_push(v, latest, offset, task).exe_clock == v.exe_clock,
        ring_push(v, latest, offset, task).slots.len() == v.slots.len(),
{
    let n = v.slots.len() as int;
    let due: int = if v.exe_clock > latest {
        v.exe_clock as int
    } else {
        offset + latest
    };
    let i = slot_index(due, n);
    let s = v.slots[i].push(task);
    lemma_parked_update(v.slots, i, s);
    vstd::seq_lib::to_multiset_build(v.slots[i], task);
}

/// Taking a due task out of the ring removes exactly that task; where none
/// is due, the slots are left as they were.
pub proof fn lemma_pop_unparks(v: SleepRingView, latest: u64)
    ensures
        ring_pop(v, latest).1.slots.len() == v.slots.len(),
        ring_pop(v, latest).1.exe_clock <= latest,
        match ring_pop(v, latest).0 {
            Some(t) => {
                &&& parked(ring_pop(v, latest).1.slots).insert(t) =~= parked(v.slots)
                &&& total_parked(ring_pop(v, latest).1.slots) + 1 == total_parked(v.slots)
            },
            None => ring_pop(v, latest).1.slots == v.slots,
        },
{
    let n = v.slots.len() as int;
    if let Some(c) = first_due(v.slots, v.exe_clock as int, latest as int) {
        lemma_first_due(v.slots, v.exe_clock as int, latest as int);
        let i = slot_index(c, n);
        let old_slot = v.slots[i];
        let s = old_slot.drop_first();
        lemma_parked_update(v.slots, i, s);
        assert(old_slot.remove(0) =~= s);
        vstd::seq_lib::to_multiset_remove(old_slot, 0);
        vstd::seq_lib::to_multiset_contains(old_slot, old_slot[0]);
        assert(old_slot.contains(old_slot[0]));
        assert(s.to_multiset().insert(old_slot[0]) =~= old_slot.to_multiset());
    }
}

/// Once everything due has been handed out, the ring's clock stands at the
/// wall clock.
pub proof fn lemma_drain_clock(v: SleepRingView, latest: u64)
    ensures
        ring_drain(v, latest).1.exe_clock == latest,
    decreases total_parked(v.slots),
{
    if let Some(t) = ring_pop(v, latest).0 {
        lemma_pop_unparks(v, latest);
        lemma_drain_clock(ring_pop(v, latest).1, latest);
    }
}

/// A ring with no task gives none, whatever the wall clock.
pub proof fn lemma_drain_empty(v: SleepRingView, latest: u64)
    requires
        v.slots.len() > 0,
        total_parked(v.slots) == 0,
    ensures
        ring_drain(v, latest).0 == Seq::<u64>::empty(),
        ring_drain(v, latest).1 == (SleepRingView { exe_clock: latest, slots: v.slots }),
{
    lemma_total_parked_zero(v.slots);
    lemma_first_due(v.slots, v.exe_clock as int, latest as int);
    if let Some(c) = first_due(v.slots, v.exe_clock as int, latest as int) {
        assert(v.slots[slot_index(c, v.slots.len() as int)].len() == 0);
    }
}

/// A task parked `offset` ticks ahead in an otherwise empty ring is handed
/// out once the wall clock has reached its deadline, and it is the only
/// task handed out.
pub proof fn lemma_parked_task_wakes_by_deadline(
    v: SleepRingView,
    latest: u64,
    offset: u64,
    task: u64,
    later: u64,
)
    requires
        v.slots.len() == SLEEP_RING_SLOTS,
        total_parked(v.slots) == 0,
        v.exe_clock <= latest,
        latest + offset <= later,
    ensures
        ring_drain(ring_push(v, latest, offset, task), later).0 == seq![task],
        total_parked(ring_drain(ring_push(v, latest, offset, task), later).1.slots) == 0,
{
    let n = SLEEP_RING_SLOTS as int;
    let w = ring_push(v, latest, offset, task);
    let due = latest + offset;
    let j = slot_index(due, n);
    lemma_total_parked_zero(v.slots);
    assert(w.slots[j] == seq![task]);
    assert forall|i: int| 0 <= i < n && i != j implies #[trigger] w.slots[i].len() == 0 by {
        assert(w.slots[i] == v.slots[i]);
    }
    lemma_first_due(w.slots, w.exe_clock as int, later as int);
    let c = first_due(w.slots, w.exe_clock as int, later as int)->Some_0;
    assert(slot_index(c, n) == j);
    let (h, rest) = ring_pop(w, later);
    assert(h == Some(task));
    assert forall|i: int| 0 <= i < n implies #[trigger] rest.slots[i].len() == 0 by {
        if i != j {
            assert(rest.slots[i] == w.slots[i]);
        }
    }
    lemma_total_parked_zero(rest.slots);
    lemma_drain_empty(rest, later);
    assert(seq![task] + Seq::<u64>::empty() =~= seq![task]);
}

/// A task parked `offset` ticks ahead in an otherwise empty ring is not
/// handed out before its deadline, as long as the deadline lies less than a
/// full turn of the ring ahead of the ring's clock.
pub proof fn lemma_parked_task_sleeps_until_deadline(
    v: SleepRingView,
    latest: u64,
    offset: u64,
    task: u64,
    earlier: u64,
)
    requires
        v.slots.len() == SLEEP_RING_SLOTS,
        total_parked(v.slots) == 0,
        v.exe_clock <= latest,
        v.exe_clock <= earlier < latest + offset,
        latest + offset < v.exe_clock + SLEEP_RING_SLOTS,
    ensures
        ring_drain(ring_push(v, latest, offset, task), earlier).0 == Seq::<u64>::empty(),
{
    let n = SLEEP_RING_SLOTS as int;
    let w = ring_push(v, latest, offset, task);
    let due = latest + offset;
    let j = slot_index(due, n);
    lemma_total_parked_zero(v.slots);
    assert forall|i: int| 0 <= i < n && i != j implies #[trigger] w.slots[i].len() == 0 by {
        assert(w.slots[i] == v.slots[i]);
    }
    lemma_first_due(w.slots, w.exe_clock as int, earlier as int);
    if let Some(c) = first_due(w.slots, w.exe_clock as int, earlier as int) {
        assert(0 < due - c < n);
        assert(slot_index(c, n) != j);
        assert(false);
    }
}

/// Task `th` is parked for tick `due`: it sits in the slot of `due` and in no
/// other slot, and the ring's clock has not gone past `due`.
pub open spec fn parked_at(v: SleepRingView, th: u64, due: int) -> bool {
    &&& v.slots.len() == SLEEP_RING_SLOTS
    &&& v.exe_clock <= due
    &&& v.slots[slot_index(due, SLEEP_RING_SLOTS as int)].contains(th)
    &&& forall|i: int|
        0 <= i < SLEEP_RING_SLOTS && i != slot_index(due, SLEEP_RING_SLOTS as int)
            ==> !(#[trigger] v.slots[i]).contains(th)
}

/// Parking a task that is nowhere in the ring, at a wall clock the ring has
/// not gone past, parks it for the tick `offset` ticks ahead.
pub proof fn lemma_push_parks_at(v: SleepRingView, latest: u64, offset: u64, th: u64)
    requires
        v.slots.len() == SLEEP_RING_SLOTS,
        v.exe_clock <= latest,
        forall|i: int| 0 <= i < v.slots.len() ==> !(#[trigger] v.slots[i]).contains(th),
    ensures
        parked_at(ring_push(v, latest, offset, th), th, latest + offset),
{
    let n = SLEEP_RING_SLOTS as int;
    let w = ring_push(v, latest, offset, th);
    let j = slot_index(latest + offset, n);
    assert(w.slots[j].last() == th);
    assert forall|i: int| 0 <= i < n && i != j implies !(#[trigger] w.slots[i]).contains(th) by {
        assert(w.slots[i] == v.slots[i]);
    }
}

/// Parking another task leaves a parked task where it is.
pub proof fn lemma_push_keeps_parked(
    v: SleepRingView,
    latest: u64,
    offset: u64,
    t: u64,
    th: u64,
    due: int,
)
    requires
        parked_at(v, th, due),
        t != th,
    ensures
        parked_at(ring_push(v, latest, offset, t), th, due),
{
    let n = SLEEP_RING_SLOTS as int;
    let w = ring_push(v, latest, offset, t);
    let j = slot_index(due, n);
    let k = slot_index(if v.exe_clock > latest { v.exe_clock as int } else { offset + latest }, n);
    if k == j {
        let x = choose|x: int| 0 <= x < v.slots[j].len() && v.slots[j][x] == th;
        assert(w.slots[j][x] == th);
    }
    assert forall|i: int| 0 <= i < n && i != j implies !(#[trigger] w.slots[i]).contains(th) by {
        if i == k {
            assert(!v.slots[i].contains(th));
            if w.slots[i].contains(th) {
                let x = choose|x: int| 0 <= x < w.slots[i].len() && w.slots[i][x] == th;
                if x < v.slots[i].len() {
                    assert(v.slots[i][x] == th);
                }
            }
        } else {
            assert(w.slots[i] == v.slots[i]);
        }
    }
}

/// Dropping the front of a slot keeps what the slot did not hold out of it,
/// and keeps in it what it holds past its front.
proof fn lemma_drop_first_contains(s: Seq<u64>, th: u64)
    requires
        s.len() > 0,
    ensures
        !s.contains(th) ==> !s.drop_first().contains(th),
        s.contains(th) && s[0] != th ==> s.drop_first().contains(th),
{
    if s.drop_first().contains(th) {
        let x = choose|x: int| 0 <= x < s.drop_first().len() && s.drop_first()[x] == th;
        assert(s[x + 1] == th);
    }
    if s.contains(th) && s[0] != th {
        let x = choose|x: int| 0 <= x < s.len() && s[x] == th;
        assert(s.drop_first()[x - 1] == th);
    }
}

/// Before its tick, a parked task is not handed out: a pop at a wall clock
/// short of `due`, less than a full turn of the ring behind it, gives
/// another task or none, and leaves the task parked.
pub proof fn lemma_pop_before_deadline(v: SleepRingView, latest: u64, th: u64, due: int)
    requires
        parked_at(v, th, due),
        v.exe_clock <= latest < due < v.exe_clock + SLEEP_RING_SLOTS,
    ensures
        ring_pop(v, latest).0 != Some(th),
        parked_at(ring_pop(v, latest).1, th, due),
        ring_pop(v, latest).1.exe_clock <= latest,
        due < ring_pop(v, latest).1.exe_clock + SLEEP_RING_SLOTS,
{
    let n = SLEEP_RING_SLOTS as int;
    let j = slot_index(due, n);
    lemma_first_due(v.slots, v.exe_clock as int, latest as int);
    if let Some(c) = first_due(v.slots, v.exe_clock as int, latest as int) {
        let i = slot_index(c, n);
        assert(0 < due - c < n);
        assert(i != j);
        assert(!v.slots[i].contains(th));
        assert(v.slots[i][0] != th) by {
            assert(v.slots[i].contains(v.slots[i][0]));
        }
        lemma_drop_first_contains(v.slots[i], th);
        let w = ring_pop(v, latest).1;
        assert(w.slots[j] == v.slots[j]);
        assert forall|k: int| 0 <= k < n && k != j implies !(#[trigger] w.slots[k]).contains(th) by {
            if k != i {
                assert(w.slots[k] == v.slots[k]);
            }
        }
    }
}

/// From its tick on, a parked task is not passed over: a pop gives a task,
/// never none, and either it is this one or this one stays parked.
pub proof fn lemma_pop_after_deadline(v: SleepRingView, latest: u64, th: u64, due: int)
    requires
        parked_at(v, th, due),
        due <= latest,
    ensures
        ring_pop(v, latest).0 is Some,
        ring_pop(v, latest).0 == Some(th) || parked_at(ring_pop(v, latest).1, th, due),
        ring_pop(v, latest).1.exe_clock <= latest,
{
    let n = SLEEP_RING_SLOTS as int;
    let j = slot_index(due, n);
    lemma_first_due(v.slots, v.exe_clock as int, latest as int);
    assert(v.slots[j].len() > 0);
    let c = first_due(v.slots, v.exe_clock as int, latest as int)->Some_0;
    assert(c <= due);
    let i = slot_index(c, n);
    if v.slots[i][0] != th {
        let w = ring_pop(v, latest).1;
        lemma_drop_first_contains(v.slots[i], th);
        if i != j {
            assert(w.slots[j] == v.slots[j]);
        }
        assert forall|k: int| 0 <= k < n && k != j implies !(#[trigger] w.slots[k]).contains(th) by {
            if k != i {
                assert(w.slots[k] == v.slots[k]);
            }
        }
    }
}

/// Draining the ring at a wall clock short of a parked task's tick, less
/// than a full turn of the ring behind it, does not wake the task and leaves
/// it parked.
pub proof fn lemma_drain_before_deadline(v: SleepRingView, latest: u64, th: u64, due: int)
    requires
        parked_at(v, th, due),
        v.exe_clock <= latest < due < v.exe_clock + SLEEP_RING_SLOTS,
    ensures
        !ring_drain(v, latest).0.contains(th),
        parked_at(ring_drain(v, latest).1, th, due),
    decreases total_parked(v.slots),
{
    lemma_pop_before_deadline(v, latest, th, due);
    lemma_pop_unparks(v, latest);
    let (h, rest) = ring_pop(v, latest);
    if let Some(t) = h {
        lemma_drain_before_deadline(rest, latest, th, due);
        let more = ring_drain(rest, latest).0;
        assert(!(seq![t] + more).contains(th)) by {
            if (seq![t] + more).contains(th) {
                let x = choose|x: int| 0 <= x < (seq![t] + more).len() && (seq![t] + more)[x] == th;
                if x > 0 {
                    assert(more[x - 1] == th);
                }
            }
        }
    }
}

/// Draining the ring at a wall clock that has reached a parked task's tick
/// wakes the task.
pub proof fn lemma_drain_after_deadline(v: SleepRingView, latest: u64, th: u64, due: int)
    requires
        parked_at(v, th, due),
        due <= latest,
    ensures
        ring_drain(v, latest).0.contains(th),
    decreases total_parked(v.slots),
{
    lemma_pop_after_deadline(v, latest, th, due);
    lemma_pop_unparks(v, latest);
    let (h, rest) = ring_pop(v, latest);
    let t = h->Some_0;
    let d = ring_drain(v, latest).0;
    assert(d[0] == t);
    if t != th {
        lemma_drain_after_deadline(rest, latest, th, due);
        let more = ring_drain(rest, latest).0;
        let x = choose|x: int| 0 <= x < more.len() && more[x] == th;
        assert(d[x + 1] == th);
    }
}

/// The ring of the executor's sleeping tasks, indexed by the wall clock
/// tick at which each task is due.
pub struct ExeSubmodSleep {
    sleep_ring: Vec<VecDeque<u64>>,
    exe_clock: u64,
}

impl View for ExeSubmodSleep {
    type V = SleepRingView;

    closed spec fn view(&self) -> SleepRingView {
        SleepRingView {
            exe_clock: self.exe_clock,
            slots: Seq::new(self.sleep_ring@.len(), |i: int| self.sleep_ring@[i]@),
        }
    }
}

impl ExeSubmodSleep {
    /// The ring has its fixed number of slots.
    pub open spec fn wf(&self) -> bool {
        self@.slots.len() == SLEEP_RING_SLOTS
    }

    /// An empty ring whose clock starts at 0.
    pub fn new() -> (s: Self)
        ensures
            s.wf(),
            s@ == empty_ring(),
    {
        let mut ring: Vec<VecDeque<u64>> = Vec::new();
        let mut k: usize = 0;
        while k < SLEEP_RING_SLOTS
            invariant
                k <= SLEEP_RING_SLOTS,
                ring@.len() == k,
                forall|i: int| 0 <= i < k ==> (#[trigger] ring@[i])@ == Seq::<u64>::empty(),
            decreases SLEEP_RING_SLOTS - k,
        {
            ring.push(VecDeque::new());
            k = k + 1;
        }
        let s = ExeSubmodSleep { sleep_ring: ring, exe_clock: 0 };
        assert(s@.slots =~= empty_ring().slots);
        s
    }

    /// The clock up to which the ring has been drained.
    pub fn exe_clock(&self) -> (c: u64)
        ensures
            c == self@.exe_clock,
    {
        self.exe_clock
    }

    /// Takes out the next task that is due at wall clock `latest_clock`.
    pub fn pop_front_sleep_task(&mut self, latest_clock: u64) -> (h: Option<u64>)
        requires
            old(self).wf(),
            old(self)@.exe_clock <= latest_clock,
        ensures
            final(self).wf(),
            (h, final(self)@) == ring_pop(old(self)@, latest_clock),
    {
        let ghost v0 = self@;
        let size = self.sleep_ring.len() as u64;
        if size <= 0 {
            return None;
        }
        let mut h: Option<u64> = None;
        loop
            invariant_except_break
                self.wf(),
                size == SLEEP_RING_SLOTS,
                self@.slots == v0.slots,
                v0.exe_clock <= self.exe_clock <= latest_clock,
                first_due(v0.slots, v0.exe_clock as int, latest_clock as int) == first_due(
                    v0.slots,
                    self.exe_clock as int,
                    latest_clock as int,
                ),
                h is None,
            ensures
                self.wf(),
                (h, self@) == ring_pop(v0, latest_clock),
            decreases latest_clock - self.exe_clock,
        {
            let exe_clock = self.exe_clock;
            let idx = exe_clock % size;
            let ghost i = idx as int;
            assert(self@.slots[i] == self.sleep_ring@[i]@);
            h = self.sleep_ring[idx as usize].pop_front();
            if h.is_none() {
                assert(self@.slots =~= v0.slots);
                if exe_clock == latest_clock {
                    assert(first_due(v0.slots, exe_clock as int + 1, latest_clock as int) is None);
                    assert(first_due(v0.slots, exe_clock as int, latest_clock as int) is None);
                    break ;
                } else {
                    self.exe_clock = exe_clock + 1;
                    continue ;
                }
            } else {
                assert(self@.slots =~= v0.slots.update(i, v0.slots[i].drop_first()));
                break ;
            }
        }
        h
    }

    /// Parks task `th` so that it falls due `offset_clock` ticks after the
    /// wall clock `latest_clock`.
    pub fn push_back_sleep_task(&mut self, latest_clock: u64, offset_clock: u64, th: u64) -> (r:
        Result<(), ()>)
        requires
            old(self).wf(),
            old(self)@.exe_clock <= latest_clock ==> offset_clock + latest_clock <= u64::MAX,
        ensures
            final(self).wf(),
            r is Ok,
            final(self)@ == ring_push(old(self)@, latest_clock, offset_clock, th),
    {
        let size = self.sleep_ring.len() as u64;
        if size <= 0 {
            return Err(());
        }
        let mut offset_to_exe = 0u64;
        let exe_clock = self.exe_clock;
        if exe_clock > latest_clock {
            // the ring ran ahead of the wall clock: park in its current slot
        } else {
            offset_to_exe = offset_clock + latest_clock - exe_clock;
        }
        let idx = (offset_to_exe + exe_clock) % size;
        let ghost i = idx as int;
        let ghost v0 = self@;
        if (idx as usize) < self.sleep_ring.len() {
            self.sleep_ring[idx as usize].push_back(th);
            assert(self@.slots =~= v0.slots.update(i, v0.slots[i].push(th)));
            Ok(())
        } else {
            Err(())
        }
    }
}

} // verus!
