//! RAII-style timers and the stack-pause coordinator.
//!
//! A timer captures a start instant for one operation and, when finished,
//! folds the elapsed time into a [`ProfileCollector`]. The registry holds
//! the per-thread bookkeeping: the stack of live timer ids, the set of
//! ids whose recording `pause_stack` suppressed, and the id counter. The
//! host drives the scope-exit call (`finish`) explicitly, so every exit
//! path records exactly once.

use vstd::prelude::*;

use vstd::string::StringExecFns;

use crate::collector::{record_model, ProfileCollector};
use crate::operation::Operation;

verus! {

broadcast use vstd::seq_lib::group_seq_properties;

// ---------------------------------------------------------------------------
// The clock
// ---------------------------------------------------------------------------
/// A monotonic instant, opaque here: nothing is known of its value.
#[verifier::external_body]
pub struct MonotonicInstant {
    inner: std::time::Instant,
}

/// Relies on `std::time::Instant::now`: the current monotonic instant.
/// Nothing is promised of the value.
#[verifier::external_body]
fn instant_now() -> MonotonicInstant {
    MonotonicInstant { inner: std::time::Instant::now() }
}

/// Relies on `std::time::Instant::elapsed`: the microseconds since
/// `start` was taken. Time-dependent, so nothing is promised of the
/// value.
#[verifier::external_body]
fn elapsed_micros_since(start: &MonotonicInstant) -> u64 {
    start.inner.elapsed().as_micros() as u64
}

// ---------------------------------------------------------------------------
// The timer registry: id counter, live-timer stack, paused-id set
// ---------------------------------------------------------------------------
/// Mathematical image of a [`TimerRegistry`].
pub ghost struct TimerRegistryModel {
    /// The next id to hand out.
    pub next: u64,
    /// Ids of live timers, in creation order.
    pub stack: Seq<u64>,
    /// Ids marked by `pause_stack` to not record.
    pub paused: Seq<u64>,
}

/// No value occurs twice.
pub open spec fn seq_distinct(s: Seq<u64>) -> bool {
    forall|i: int, j: int| 0 <= i < j < s.len() ==> s[i] != s[j]
}

/// Every id handed out so far is below the counter, and neither table
/// repeats an id.
pub open spec fn registry_wf(m: TimerRegistryModel) -> bool {
    &&& forall|i: int| 0 <= i < m.stack.len() ==> #[trigger] m.stack[i] < m.next
    &&& seq_distinct(m.stack)
    &&& forall|i: int| 0 <= i < m.paused.len() ==> #[trigger] m.paused[i] < m.next
    &&& seq_distinct(m.paused)
}

/// Per-thread timer bookkeeping: the id counter, the stack of live timer
/// ids, and the set of ids whose recording is suppressed. One registry
/// serves one thread; a pooled thread starts with a fresh one.
pub struct TimerRegistry {
    next_id: u64,
    stack: Vec<u64>,
    paused: Vec<u64>,
}

impl View for TimerRegistry {
    type V = TimerRegistryModel;

    closed spec fn view(&self) -> TimerRegistryModel {
        TimerRegistryModel { next: self.next_id, stack: self.stack@, paused: self.paused@ }
    }
}

/// Whether `v` holds `x`.
fn contains_id(v: &Vec<u64>, x: u64) -> (r: bool)
    ensures
        r == v@.contains(x),
{
    let mut i: usize = 0;
    while i < v.len()
        invariant
            0 <= i <= v@.len(),
            forall|j: int| 0 <= j < i ==> v@[j] != x,
        decreases v@.len() - i,
    {
        if v[i] == x {
            return true;
        }
        i = i + 1;
    }
    false
}

/// Remove every occurrence of `x`, keeping everything else.
fn remove_id(v: &mut Vec<u64>, x: u64)
    ensures
        forall|y: u64| final(v)@.contains(y) <==> old(v)@.contains(y) && y != x,
        forall|i: int| 0 <= i < final(v)@.len() ==> old(v)@.contains(#[trigger] final(v)@[i]),
        seq_distinct(old(v)@) ==> seq_distinct(final(v)@),
{
    let mut out: Vec<u64> = Vec::new();
    let mut i: usize = 0;
    while i < v.len()
        invariant
            0 <= i <= v@.len(),
            forall|j: int| 0 <= j < out@.len() ==> #[trigger] out@[j] != x,
            forall|j: int|
                0 <= j < out@.len() ==> exists|w: int| 0 <= w < i && v@[w] == #[trigger] out@[j],
            forall|w: int| 0 <= w < i && #[trigger] v@[w] != x ==> out@.contains(v@[w]),
            seq_distinct(v@) ==> seq_distinct(out@),
        decreases v@.len() - i,
    {
        let y = v[i];
        if y != x {
            proof {
                if seq_distinct(v@) && out@.contains(y) {
                    let j = choose|j: int| 0 <= j < out@.len() && out@[j] == y;
                    let w = choose|w: int| 0 <= w < i && v@[w] == out@[j];
                    assert(v@[w] == v@[i as int]);
                    assert(false);
                }
            }
            out.push(y);
            proof {
                assert(out@.last() == v@[i as int]);
            }
        }
        i = i + 1;
    }
    proof {
        assert forall|y: u64| old(v)@.contains(y) && y != x implies out@.contains(y) by {
            let w = choose|w: int| 0 <= w < v@.len() && v@[w] == y;
            assert(v@[w] != x);
        }
        assert forall|y: u64| out@.contains(y) implies old(v)@.contains(y) && y != x by {
            let j = choose|j: int| 0 <= j < out@.len() && out@[j] == y;
            let w = choose|w: int| 0 <= w < v@.len() && v@[w] == out@[j];
            assert(old(v)@[w] == y);
        }
        assert forall|j: int| 0 <= j < out@.len() implies old(v)@.contains(
            #[trigger] out@[j],
        ) by {
            let w = choose|w: int| 0 <= w < v@.len() && v@[w] == out@[j];
        }
    }
    *v = out;
}

impl TimerRegistry {
    /// The registry's internal invariant.
    pub open spec fn wf(&self) -> bool {
        registry_wf(self@)
    }

    /// A fresh registry: no live timers, nothing suppressed. Use one per
    /// thread, fresh at thread start.
    pub fn new() -> (r: TimerRegistry)
        ensures
            r.wf(),
            r@.next == 0,
            r@.stack == Seq::<u64>::empty(),
            r@.paused == Seq::<u64>::empty(),
    {
        TimerRegistry { next_id: 0, stack: Vec::new(), paused: Vec::new() }
    }

    /// Hand out a fresh id and push it on the live-timer stack.
    fn register_timer(&mut self) -> (id: u64)
        requires
            old(self).wf(),
            old(self)@.next < u64::MAX,
        ensures
            final(self).wf(),
            id == old(self)@.next,
            final(self)@.next == old(self)@.next + 1,
            final(self)@.stack == old(self)@.stack.push(id),
            final(self)@.paused == old(self)@.paused,
            !old(self)@.paused.contains(id),
    {
        let id = self.next_id;
        self.stack.push(id);
        self.next_id = self.next_id + 1;
        proof {
            if self@.paused.contains(id) {
                let w = choose|w: int| 0 <= w < self@.paused.len() && self@.paused[w] == id;
            }
            assert forall|a: int, b: int| 0 <= a < b < self@.stack.len() implies self@.stack[a]
                != self@.stack[b] by {
                if b == self@.stack.len() - 1 {
                    assert(old(self)@.stack[a] < id);
                }
            }
        }
        id
    }

    /// Take a live timer off the stack (by id, wherever it sits: drops
    /// need not nest).
    fn unregister_timer(&mut self, id: u64)
        requires
            old(self).wf(),
        ensures
            final(self).wf(),
            final(self)@.next == old(self)@.next,
            forall|y: u64|
                final(self)@.stack.contains(y) <==> old(self)@.stack.contains(y) && y != id,
            final(self)@.paused == old(self)@.paused,
    {
        remove_id(&mut self.stack, id);
        proof {
            assert forall|i: int| 0 <= i < self@.stack.len() implies #[trigger] self@.stack[i]
                < self@.next by {
                assert(old(self)@.stack.contains(self@.stack[i]));
                let w = choose|w: int|
                    0 <= w < old(self)@.stack.len() && old(self)@.stack[w] == self@.stack[i];
            }
        }
    }

    /// Drop an id from the paused set (cleanup when a timer dies).
    fn forget_paused(&mut self, id: u64)
        requires
            old(self).wf(),
        ensures
            final(self).wf(),
            final(self)@.next == old(self)@.next,
            final(self)@.stack == old(self)@.stack,
            forall|y: u64|
                final(self)@.paused.contains(y) <==> old(self)@.paused.contains(y) && y != id,
    {
        remove_id(&mut self.paused, id);
        proof {
            assert forall|i: int| 0 <= i < self@.paused.len() implies #[trigger] self@.paused[i]
                < self@.next by {
                assert(old(self)@.paused.contains(self@.paused[i]));
                let w = choose|w: int|
                    0 <= w < old(self)@.paused.len() && old(self)@.paused[w] == self@.paused[i];
            }
        }
    }
}

/// Mark every timer now live on this registry's stack as suppressed:
/// none of them will record. Timers created afterwards are unaffected —
/// there is no persistent "paused mode", only this marked set.
pub fn pause_stack(reg: &mut TimerRegistry)
    requires
        old(reg).wf(),
    ensures
        final(reg).wf(),
        final(reg)@.next == old(reg)@.next,
        final(reg)@.stack == old(reg)@.stack,
        forall|y: u64|
            final(reg)@.paused.contains(y) <==> old(reg)@.paused.contains(y) || old(
                reg,
            )@.stack.contains(y),
{
    let mut i: usize = 0;
    while i < reg.stack.len()
        invariant
            reg.wf(),
            0 <= i <= reg@.stack.len(),
            reg@.next == old(reg)@.next,
            reg@.stack == old(reg)@.stack,
            forall|y: u64|
                #![trigger reg@.paused.contains(y)]
                reg@.paused.contains(y) ==> old(reg)@.paused.contains(y) || old(
                    reg,
                )@.stack.contains(y),
            forall|y: u64|
                #![trigger old(reg)@.paused.contains(y)]
                old(reg)@.paused.contains(y) ==> reg@.paused.contains(y),
            forall|w: int|
                0 <= w < i ==> reg@.paused.contains(#[trigger] old(reg)@.stack[w]),
        decreases reg@.stack.len() - i,
    {
        let id = reg.stack[i];
        proof {
            assert(old(reg)@.stack[i as int] == id);
            assert(old(reg)@.stack.contains(id));
        }
        if !contains_id(&reg.paused, id) {
            let ghost pre = reg@.paused;
            reg.paused.push(id);
            proof {
                assert(reg@.paused.last() == id);
                assert forall|a: int, b: int|
                    0 <= a < b < reg@.paused.len() implies reg@.paused[a] != reg@.paused[b] by {
                    if b == reg@.paused.len() - 1 {
                        assert(pre.contains(reg@.paused[a]));
                    }
                }
                assert forall|q: int|
                    0 <= q < reg@.paused.len() implies #[trigger] reg@.paused[q] < reg@.next by {
                    if q < reg@.paused.len() - 1 {
                        assert(pre[q] == reg@.paused[q]);
                    } else {
                        let w = choose|w: int|
                            0 <= w < reg@.stack.len() && reg@.stack[w] == id;
                    }
                }
            }
        }
        i = i + 1;
    }
    proof {
        assert forall|y: u64|
            old(reg)@.paused.contains(y) || old(reg)@.stack.contains(y) implies reg@.paused.contains(
            y,
        ) by {
            if old(reg)@.stack.contains(y) && !old(reg)@.paused.contains(y) {
                let w = choose|w: int|
                    0 <= w < old(reg)@.stack.len() && old(reg)@.stack[w] == y;
            }
        }
    }
}

/// Un-mark every timer now live on this registry's stack. Only timers
/// still alive are rescued: one that died suppressed stays unrecorded —
/// the library cannot resume a dead timer.
pub fn unpause_stack(reg: &mut TimerRegistry)
    requires
        old(reg).wf(),
    ensures
        final(reg).wf(),
        final(reg)@.next == old(reg)@.next,
        final(reg)@.stack == old(reg)@.stack,
        forall|y: u64|
            final(reg)@.paused.contains(y) <==> old(reg)@.paused.contains(y) && !old(
                reg,
            )@.stack.contains(y),
{
    let mut i: usize = 0;
    while i < reg.stack.len()
        invariant
            reg.wf(),
            0 <= i <= reg@.stack.len(),
            reg@.next == old(reg)@.next,
            reg@.stack == old(reg)@.stack,
            forall|y: u64|
                #![trigger reg@.paused.contains(y)]
                reg@.paused.contains(y) ==> old(reg)@.paused.contains(y),
            forall|w: int|
                0 <= w < i ==> !reg@.paused.contains(#[trigger] old(reg)@.stack[w]),
            forall|y: u64|
                #![trigger old(reg)@.paused.contains(y)]
                old(reg)@.paused.contains(y) && !old(reg)@.stack.contains(y)
                    ==> reg@.paused.contains(y),
        decreases reg@.stack.len() - i,
    {
        let id = reg.stack[i];
        proof {
            assert(old(reg)@.stack[i as int] == id);
            assert(old(reg)@.stack.contains(id));
        }
        let ghost pre = reg@.paused;
        remove_id(&mut reg.paused, id);
        proof {
            assert forall|q: int|
                0 <= q < reg@.paused.len() implies #[trigger] reg@.paused[q] < reg@.next by {
                assert(pre.contains(reg@.paused[q]));
                let w = choose|w: int| 0 <= w < pre.len() && pre[w] == reg@.paused[q];
            }
        }
        i = i + 1;
    }
    proof {
        assert forall|y: u64| reg@.paused.contains(y) implies old(reg)@.paused.contains(y) && !old(
            reg,
        )@.stack.contains(y) by {
            if old(reg)@.stack.contains(y) {
                let w = choose|w: int|
                    0 <= w < old(reg)@.stack.len() && old(reg)@.stack[w] == y;
            }
        }
    }
}

/// Whether the id is in the registry's suppressed set.
pub fn is_timer_paused(reg: &TimerRegistry, timer_id: u64) -> (r: bool)
    ensures
        r == reg@.paused.contains(timer_id),
{
    contains_id(&reg.paused, timer_id)
}


// ---------------------------------------------------------------------------
// Timers
// ---------------------------------------------------------------------------
/// Mathematical image of a [`ProfileTimer`] (the start instant carries no
/// specification).
pub ghost struct TimerModel {
    /// The operation key measurements aggregate under.
    pub key: Seq<char>,
    /// Whether this timer has already recorded (or been told not to).
    pub recorded: bool,
    /// This timer's id in the registry.
    pub id: u64,
    /// Whether this one timer was individually marked not to record.
    pub individually_paused: bool,
}

/// A timer's recording is suppressed when it was individually paused or
/// its id sits in the registry's paused set.
pub open spec fn timer_suppressed(t: TimerModel, r: TimerRegistryModel) -> bool {
    t.individually_paused || r.paused.contains(t.id)
}

/// Build the operation key `"<category-name>::<operation-name>"`.
pub fn operation_key(category_name: &str, operation_name: &str) -> (r: String)
    ensures
        r@ == category_name@ + "::"@ + operation_name@,
{
    let mut key = category_name.to_owned();
    key.append("::");
    key.append(operation_name);
    key
}

/// A timer measuring one operation from creation to `finish`. The host
/// calls [`ProfileTimer::finish`] on every exit path (a scope guard in
/// unverified glue makes that automatic), so the elapsed time is
/// recorded exactly once.
pub struct ProfileTimer {
    key: String,
    start: MonotonicInstant,
    recorded: bool,
    id: u64,
    individually_paused: bool,
}

impl View for ProfileTimer {
    type V = TimerModel;

    closed spec fn view(&self) -> TimerModel {
        TimerModel {
            key: self.key@,
            recorded: self.recorded,
            id: self.id,
            individually_paused: self.individually_paused,
        }
    }
}

impl ProfileTimer {
    /// Start a timer under an explicit operation key, registering it on
    /// the live-timer stack with a fresh id.
    pub fn with_key(key: String, reg: &mut TimerRegistry) -> (t: ProfileTimer)
        requires
            old(reg).wf(),
            old(reg)@.next < u64::MAX,
        ensures
            final(reg).wf(),
            t@.key == key@,
            t@.recorded == false,
            t@.individually_paused == false,
            t@.id == old(reg)@.next,
            final(reg)@.next == old(reg)@.next + 1,
            final(reg)@.stack == old(reg)@.stack.push(t@.id),
            final(reg)@.paused == old(reg)@.paused,
            !timer_suppressed(t@, final(reg)@),
    {
        let id = reg.register_timer();
        ProfileTimer {
            key,
            start: instant_now(),
            recorded: false,
            id,
            individually_paused: false,
        }
    }

    /// Start a timer for the given operation; the key is derived from the
    /// operation's category name and its own name.
    pub fn new<O: Operation>(operation: &O, reg: &mut TimerRegistry) -> (t: ProfileTimer)
        requires
            old(reg).wf(),
            old(reg)@.next < u64::MAX,
        ensures
            final(reg).wf(),
            t@.recorded == false,
            t@.individually_paused == false,
            t@.id == old(reg)@.next,
            final(reg)@.next == old(reg)@.next + 1,
            final(reg)@.stack == old(reg)@.stack.push(t@.id),
            final(reg)@.paused == old(reg)@.paused,
            !timer_suppressed(t@, final(reg)@),
    {
        let category = operation.get_category();
        let name = operation.to_str();
        let key = operation_key(category.name.as_str(), name.as_str());
        ProfileTimer::with_key(key, reg)
    }

    /// The key this timer records under.
    pub fn key(&self) -> (r: &String)
        ensures
            r@ == self@.key,
    {
        &self.key
    }

    /// The unique id of this timer.
    pub fn id(&self) -> (r: u64)
        ensures
            r == self@.id,
    {
        self.id
    }

    /// Elapsed microseconds since creation, without recording. The value
    /// is the clock's; nothing is promised of it.
    pub fn elapsed_micros(&self) -> u64 {
        elapsed_micros_since(&self.start)
    }

    /// Elapsed milliseconds since creation, without recording.
    pub fn elapsed_millis(&self) -> u64 {
        self.elapsed_micros() / 1000
    }

    /// Whether this timer would currently be suppressed.
    pub fn is_individually_paused(&self, reg: &TimerRegistry) -> (r: bool)
        ensures
            r == timer_suppressed(self@, reg@),
    {
        self.individually_paused || is_timer_paused(reg, self.id)
    }

    /// Mark this one timer to not record.
    pub fn pause_individual(&mut self)
        ensures
            final(self)@ == (TimerModel { individually_paused: true, ..old(self)@ }),
    {
        self.individually_paused = true;
    }

    /// Clear this timer's individual mark.
    pub fn resume_individual(&mut self)
        ensures
            final(self)@ == (TimerModel { individually_paused: false, ..old(self)@ }),
    {
        self.individually_paused = false;
    }

    /// Record the elapsed time once. Idempotent: the first call records
    /// (unless suppression says otherwise), every later call leaves the
    /// collector untouched. A suppressed timer is marked recorded without
    /// touching the collector.
    pub fn record(&mut self, collector: &mut ProfileCollector, reg: &TimerRegistry)
        requires
            old(collector).wf(),
        ensures
            final(collector).wf(),
            final(self)@ == (TimerModel { recorded: true, ..old(self)@ }),
            old(self)@.recorded ==> final(collector)@ == old(collector)@,
            !old(self)@.recorded && timer_suppressed(old(self)@, reg@) ==> final(collector)@
                == old(collector)@,
            !old(self)@.recorded && !timer_suppressed(old(self)@, reg@) ==> exists|d: u64|
                final(collector)@ == #[trigger] record_model(old(collector)@, old(self)@.key, d),
    {
        let suppressed = self.individually_paused || is_timer_paused(reg, self.id);
        if !self.recorded && !suppressed {
            let d = self.elapsed_micros();
            collector.record(self.key.as_str(), d);
            self.recorded = true;
        } else {
            self.recorded = true;
        }
    }

    /// Stop without recording: consume the timer, take it off the stack,
    /// clean its suppression mark, and hand back the elapsed time. The
    /// collector is never touched — no signature here can reach one.
    pub fn stop(self, reg: &mut TimerRegistry) -> (r: u64)
        requires
            old(reg).wf(),
        ensures
            final(reg).wf(),
            final(reg)@.next == old(reg)@.next,
            forall|y: u64|
                final(reg)@.stack.contains(y) <==> old(reg)@.stack.contains(y) && y != self@.id,
            forall|y: u64|
                final(reg)@.paused.contains(y) <==> old(reg)@.paused.contains(y) && y != self@.id,
    {
        let r = self.elapsed_micros();
        reg.unregister_timer(self.id);
        reg.forget_paused(self.id);
        r
    }

    /// Stop, record (subject to the suppression checks), and hand back
    /// the elapsed time that was recorded.
    pub fn stop_and_record(self, collector: &mut ProfileCollector, reg: &mut TimerRegistry) -> (r:
        u64)
        requires
            old(collector).wf(),
            old(reg).wf(),
        ensures
            final(collector).wf(),
            final(reg).wf(),
            final(reg)@.next == old(reg)@.next,
            forall|y: u64|
                final(reg)@.stack.contains(y) <==> old(reg)@.stack.contains(y) && y != self@.id,
            forall|y: u64|
                final(reg)@.paused.contains(y) <==> old(reg)@.paused.contains(y) && y != self@.id,
            self@.recorded || timer_suppressed(self@, old(reg)@) ==> final(collector)@ == old(
                collector,
            )@,
            !self@.recorded && !timer_suppressed(self@, old(reg)@) ==> final(collector)@
                == record_model(old(collector)@, self@.key, r),
    {
        let mut t = self;
        let suppressed = t.individually_paused || is_timer_paused(reg, t.id);
        let r = t.elapsed_micros();
        if !t.recorded && !suppressed {
            collector.record(t.key.as_str(), r);
        }
        reg.unregister_timer(t.id);
        reg.forget_paused(t.id);
        r
    }

    /// The scope-exit path: take the timer off the stack, record if it
    /// has not yet (checking suppression at this moment, as the stack
    /// pause design demands), then clean the suppression mark so a dead
    /// timer's id cannot leak into a later timer's fate.
    pub fn finish(self, collector: &mut ProfileCollector, reg: &mut TimerRegistry)
        requires
            old(collector).wf(),
            old(reg).wf(),
        ensures
            final(collector).wf(),
            final(reg).wf(),
            final(reg)@.next == old(reg)@.next,
            forall|y: u64|
                final(reg)@.stack.contains(y) <==> old(reg)@.stack.contains(y) && y != self@.id,
            forall|y: u64|
                final(reg)@.paused.contains(y) <==> old(reg)@.paused.contains(y) && y != self@.id,
            self@.recorded || timer_suppressed(self@, old(reg)@) ==> final(collector)@ == old(
                collector,
            )@,
            !self@.recorded && !timer_suppressed(self@, old(reg)@) ==> exists|d: u64|
                final(collector)@ == #[trigger] record_model(old(collector)@, self@.key, d),
    {
        let mut t = self;
        reg.unregister_timer(t.id);
        if !t.recorded {
            t.record(collector, reg);
        }
        reg.forget_paused(t.id);
    }
}

// ---------------------------------------------------------------------------
// Laws of the stack pause
// ---------------------------------------------------------------------------
/// LAW: a timer created after `pause_stack` is unaffected by that pause —
/// the id it will get is not in the paused set the pause left behind.
pub proof fn lemma_pause_stack_spares_future_timers(
    before: TimerRegistryModel,
    after: TimerRegistryModel,
)
    requires
        registry_wf(before),
        after.next == before.next,
        forall|y: u64|
            after.paused.contains(y) <==> before.paused.contains(y) || before.stack.contains(y),
    ensures
        !after.paused.contains(after.next),
{
    if after.paused.contains(after.next) {
        if before.paused.contains(before.next) {
            let w = choose|w: int|
                0 <= w < before.paused.len() && before.paused[w] == before.next;
        } else {
            assert(before.stack.contains(before.next));
            let w = choose|w: int| 0 <= w < before.stack.len() && before.stack[w] == before.next;
        }
    }
}

/// LAW: a fresh, never-paused timer is not suppressed, so its `record`
/// reaches the collector — even right after a `pause_stack` that marked
/// every older timer.
pub proof fn lemma_fresh_timer_records(t: TimerModel, m: TimerRegistryModel)
    requires
        registry_wf(m),
        t.id == m.next,
        !t.individually_paused,
    ensures
        !timer_suppressed(t, m),
{
    if m.paused.contains(t.id) {
        let w = choose|w: int| 0 <= w < m.paused.len() && m.paused[w] == t.id;
    }
}


// ---------------------------------------------------------------------------
// The pausable timer
// ---------------------------------------------------------------------------
/// Mathematical image of a [`PausableTimer`]: its accumulated time is
/// exact while it is not running.
pub ghost struct PausableTimerModel {
    /// The operation key measurements aggregate under.
    pub key: Seq<char>,
    /// Microseconds accumulated over completed running intervals.
    pub total: u64,
    /// Whether an interval is currently being measured.
    pub running: bool,
    /// Whether this timer has already recorded (or been told not to).
    pub recorded: bool,
    /// This timer's id in the registry.
    pub id: u64,
    /// Whether this one timer was individually marked not to record.
    pub individually_paused: bool,
}

/// A pausable timer's recording is suppressed under the same conditions
/// as a plain timer's.
pub open spec fn pausable_suppressed(t: PausableTimerModel, r: TimerRegistryModel) -> bool {
    t.individually_paused || r.paused.contains(t.id)
}

/// A timer accumulating only its non-paused intervals: `pause` folds the
/// running interval into the total, `resume` opens a new one. Distinct
/// from the stack pause, which suppresses the recording decision and
/// never subtracts time.
pub struct PausableTimer {
    key: String,
    total_micros: u64,
    started: Option<MonotonicInstant>,
    recorded: bool,
    id: u64,
    individually_paused: bool,
}

impl View for PausableTimer {
    type V = PausableTimerModel;

    closed spec fn view(&self) -> PausableTimerModel {
        PausableTimerModel {
            key: self.key@,
            total: self.total_micros,
            running: self.started is Some,
            recorded: self.recorded,
            id: self.id,
            individually_paused: self.individually_paused,
        }
    }
}

impl PausableTimer {
    /// Start a running pausable timer under an explicit key.
    pub fn with_key(key: String, reg: &mut TimerRegistry) -> (t: PausableTimer)
        requires
            old(reg).wf(),
            old(reg)@.next < u64::MAX,
        ensures
            final(reg).wf(),
            t@.key == key@,
            t@.total == 0,
            t@.running == true,
            t@.recorded == false,
            t@.individually_paused == false,
            t@.id == old(reg)@.next,
            final(reg)@.next == old(reg)@.next + 1,
            final(reg)@.stack == old(reg)@.stack.push(t@.id),
            final(reg)@.paused == old(reg)@.paused,
            !pausable_suppressed(t@, final(reg)@),
    {
        let id = reg.register_timer();
        PausableTimer {
            key,
            total_micros: 0,
            started: Some(instant_now()),
            recorded: false,
            id,
            individually_paused: false,
        }
    }

    /// Start a pausable timer for the given operation.
    pub fn new<O: Operation>(operation: &O, reg: &mut TimerRegistry) -> (t: PausableTimer)
        requires
            old(reg).wf(),
            old(reg)@.next < u64::MAX,
        ensures
            final(reg).wf(),
            t@.total == 0,
            t@.running == true,
            t@.recorded == false,
            t@.individually_paused == false,
            t@.id == old(reg)@.next,
            final(reg)@.next == old(reg)@.next + 1,
            final(reg)@.stack == old(reg)@.stack.push(t@.id),
            final(reg)@.paused == old(reg)@.paused,
    {
        let category = operation.get_category();
        let name = operation.to_str();
        let key = operation_key(category.name.as_str(), name.as_str());
        PausableTimer::with_key(key, reg)
    }

    /// Start a pausable timer pre-paused: no interval runs until the
    /// first `resume`.
    pub fn new_paused<O: Operation>(operation: &O, reg: &mut TimerRegistry) -> (t: PausableTimer)
        requires
            old(reg).wf(),
            old(reg)@.next < u64::MAX,
        ensures
            final(reg).wf(),
            t@.total == 0,
            t@.running == false,
            t@.recorded == false,
            t@.individually_paused == false,
            t@.id == old(reg)@.next,
            final(reg)@.next == old(reg)@.next + 1,
            final(reg)@.stack == old(reg)@.stack.push(t@.id),
            final(reg)@.paused == old(reg)@.paused,
    {
        let category = operation.get_category();
        let name = operation.to_str();
        let key = operation_key(category.name.as_str(), name.as_str());
        let id = reg.register_timer();
        PausableTimer {
            key,
            total_micros: 0,
            started: None,
            recorded: false,
            id,
            individually_paused: false,
        }
    }

    /// Fold the running interval into the total and stop running. On an
    /// already-paused timer this is a no-op. The total only grows.
    pub fn pause(&mut self)
        ensures
            final(self)@.running == false,
            final(self)@.key == old(self)@.key,
            final(self)@.recorded == old(self)@.recorded,
            final(self)@.id == old(self)@.id,
            final(self)@.individually_paused == old(self)@.individually_paused,
            final(self)@.total >= old(self)@.total,
            !old(self)@.running ==> final(self)@ == old(self)@,
    {
        match &self.started {
            Some(start) => {
                let d = elapsed_micros_since(start);
                self.total_micros = self.total_micros.saturating_add(d);
                self.started = None;
            },
            None => {},
        }
    }

    /// Open a new running interval. On a running timer this is a no-op;
    /// the accumulated total never changes here.
    pub fn resume(&mut self)
        ensures
            final(self)@.running == true,
            final(self)@.key == old(self)@.key,
            final(self)@.total == old(self)@.total,
            final(self)@.recorded == old(self)@.recorded,
            final(self)@.id == old(self)@.id,
            final(self)@.individually_paused == old(self)@.individually_paused,
            old(self)@.running ==> final(self)@ == old(self)@,
    {
        match &self.started {
            Some(_) => {},
            None => {
                self.started = Some(instant_now());
            },
        }
    }

    /// The accumulated time, excluding paused periods: exactly the total
    /// while paused; while running, the total plus the open interval so
    /// far (never less than the total).
    pub fn total_elapsed(&self) -> (r: u64)
        ensures
            !self@.running ==> r == self@.total,
            r >= self@.total,
    {
        match &self.started {
            Some(start) => {
                let d = elapsed_micros_since(start);
                self.total_micros.saturating_add(d)
            },
            None => self.total_micros,
        }
    }

    /// The accumulated time in microseconds; the same quantity as
    /// [`Self::total_elapsed`].
    pub fn total_elapsed_micros(&self) -> (r: u64)
        ensures
            !self@.running ==> r == self@.total,
            r >= self@.total,
    {
        self.total_elapsed()
    }

    /// The accumulated time in milliseconds.
    pub fn total_elapsed_millis(&self) -> (r: u64)
        ensures
            !self@.running ==> r == self@.total / 1000,
    {
        self.total_elapsed() / 1000
    }

    /// Whether an interval is currently being measured.
    pub fn is_running(&self) -> (r: bool)
        ensures
            r == self@.running,
    {
        match &self.started {
            Some(_) => true,
            None => false,
        }
    }

    /// The key this timer records under.
    pub fn key(&self) -> (r: &String)
        ensures
            r@ == self@.key,
    {
        &self.key
    }

    /// The unique id of this timer.
    pub fn id(&self) -> (r: u64)
        ensures
            r == self@.id,
    {
        self.id
    }

    /// Whether this timer would currently be suppressed.
    pub fn is_individually_paused(&self, reg: &TimerRegistry) -> (r: bool)
        ensures
            r == pausable_suppressed(self@, reg@),
    {
        self.individually_paused || is_timer_paused(reg, self.id)
    }

    /// Mark this one timer to not record.
    pub fn pause_individual(&mut self)
        ensures
            final(self)@ == (PausableTimerModel { individually_paused: true, ..old(self)@ }),
    {
        self.individually_paused = true;
    }

    /// Clear this timer's individual mark.
    pub fn resume_individual(&mut self)
        ensures
            final(self)@ == (PausableTimerModel { individually_paused: false, ..old(self)@ }),
    {
        self.individually_paused = false;
    }

    /// Record the accumulated time once; idempotent like
    /// [`ProfileTimer::record`]. A paused timer records exactly its
    /// accumulated total.
    pub fn record(&mut self, collector: &mut ProfileCollector, reg: &TimerRegistry)
        requires
            old(collector).wf(),
        ensures
            final(collector).wf(),
            final(self)@ == (PausableTimerModel { recorded: true, ..old(self)@ }),
            old(self)@.recorded ==> final(collector)@ == old(collector)@,
            !old(self)@.recorded && pausable_suppressed(old(self)@, reg@) ==> final(collector)@
                == old(collector)@,
            !old(self)@.recorded && !pausable_suppressed(old(self)@, reg@) && !old(self)@.running
                ==> final(collector)@ == record_model(old(collector)@, old(self)@.key, old(
                self,
            )@.total),
            !old(self)@.recorded && !pausable_suppressed(old(self)@, reg@) ==> exists|d: u64|
                final(collector)@ == #[trigger] record_model(old(collector)@, old(self)@.key, d),
    {
        let suppressed = self.individually_paused || is_timer_paused(reg, self.id);
        if !self.recorded && !suppressed {
            let d = self.total_elapsed();
            collector.record(self.key.as_str(), d);
            self.recorded = true;
        } else {
            self.recorded = true;
        }
    }

    /// Stop without recording: fold the running interval, clean up the
    /// registry, and hand back the accumulated time. The collector is
    /// never touched.
    pub fn stop(self, reg: &mut TimerRegistry) -> (r: u64)
        requires
            old(reg).wf(),
        ensures
            final(reg).wf(),
            final(reg)@.next == old(reg)@.next,
            forall|y: u64|
                final(reg)@.stack.contains(y) <==> old(reg)@.stack.contains(y) && y != self@.id,
            forall|y: u64|
                final(reg)@.paused.contains(y) <==> old(reg)@.paused.contains(y) && y != self@.id,
            r >= self@.total,
            !self@.running ==> r == self@.total,
    {
        let mut t = self;
        t.pause();
        let r = t.total_micros;
        reg.unregister_timer(t.id);
        reg.forget_paused(t.id);
        r
    }

    /// Stop, record the accumulated time (subject to the suppression
    /// checks), clean up the registry, and hand the time back.
    pub fn stop_and_record(self, collector: &mut ProfileCollector, reg: &mut TimerRegistry) -> (r:
        u64)
        requires
            old(collector).wf(),
            old(reg).wf(),
        ensures
            final(collector).wf(),
            final(reg).wf(),
            final(reg)@.next == old(reg)@.next,
            forall|y: u64|
                final(reg)@.stack.contains(y) <==> old(reg)@.stack.contains(y) && y != self@.id,
            forall|y: u64|
                final(reg)@.paused.contains(y) <==> old(reg)@.paused.contains(y) && y != self@.id,
            self@.recorded || pausable_suppressed(self@, old(reg)@) ==> final(collector)@ == old(
                collector,
            )@,
            !self@.recorded && !pausable_suppressed(self@, old(reg)@) ==> final(collector)@
                == record_model(old(collector)@, self@.key, r),
            r >= self@.total,
            !self@.running ==> r == self@.total,
    {
        let mut t = self;
        t.pause();
        let r = t.total_micros;
        let suppressed = t.individually_paused || is_timer_paused(reg, t.id);
        if !t.recorded && !suppressed {
            collector.record(t.key.as_str(), r);
        }
        reg.unregister_timer(t.id);
        reg.forget_paused(t.id);
        r
    }

    /// Zero the accumulated time and start a fresh running interval.
    pub fn reset(&mut self)
        ensures
            final(self)@.key == old(self)@.key,
            final(self)@.id == old(self)@.id,
            final(self)@.individually_paused == old(self)@.individually_paused,
            final(self)@.total == 0,
            final(self)@.running == true,
            final(self)@.recorded == false,
    {
        self.total_micros = 0;
        self.started = Some(instant_now());
        self.recorded = false;
    }

    /// Zero the accumulated time and leave the timer paused.
    pub fn reset_paused(&mut self)
        ensures
            final(self)@.key == old(self)@.key,
            final(self)@.id == old(self)@.id,
            final(self)@.individually_paused == old(self)@.individually_paused,
            final(self)@.total == 0,
            final(self)@.running == false,
            final(self)@.recorded == false,
    {
        self.total_micros = 0;
        self.started = None;
        self.recorded = false;
    }

    /// The scope-exit path, as for [`ProfileTimer::finish`].
    pub fn finish(self, collector: &mut ProfileCollector, reg: &mut TimerRegistry)
        requires
            old(collector).wf(),
            old(reg).wf(),
        ensures
            final(collector).wf(),
            final(reg).wf(),
            final(reg)@.next == old(reg)@.next,
            forall|y: u64|
                final(reg)@.stack.contains(y) <==> old(reg)@.stack.contains(y) && y != self@.id,
            forall|y: u64|
                final(reg)@.paused.contains(y) <==> old(reg)@.paused.contains(y) && y != self@.id,
            self@.recorded || pausable_suppressed(self@, old(reg)@) ==> final(collector)@ == old(
                collector,
            )@,
            !self@.recorded && !pausable_suppressed(self@, old(reg)@) ==> exists|d: u64|
                final(collector)@ == #[trigger] record_model(old(collector)@, self@.key, d),
    {
        let mut t = self;
        reg.unregister_timer(t.id);
        if !t.recorded {
            t.record(collector, reg);
        }
        reg.forget_paused(t.id);
    }
}

// ---------------------------------------------------------------------------
// The asynchronous timer
// ---------------------------------------------------------------------------
/// Mathematical image of a [`ProfileTimerAsync`].
pub ghost struct AsyncTimerModel {
    /// The operation key measurements aggregate under.
    pub key: Seq<char>,
}

/// A timer for asynchronous work: wall-clock time from creation to
/// `finish`, however often the wrapped task yields in between. It is not
/// registered on the live-timer stack and the stack pause does not apply
/// to it. The unverified glue awaits the wrapped future and then calls
/// [`ProfileTimerAsync::finish`].
pub struct ProfileTimerAsync {
    key: String,
    start: MonotonicInstant,
}

impl View for ProfileTimerAsync {
    type V = AsyncTimerModel;

    closed spec fn view(&self) -> AsyncTimerModel {
        AsyncTimerModel { key: self.key@ }
    }
}

impl ProfileTimerAsync {
    /// Start an asynchronous timer under an explicit key.
    pub fn with_key(key: String) -> (t: ProfileTimerAsync)
        ensures
            t@.key == key@,
    {
        ProfileTimerAsync { key, start: instant_now() }
    }

    /// Start an asynchronous timer for the given operation.
    pub fn new<O: Operation>(operation: &O) -> (t: ProfileTimerAsync) {
        let category = operation.get_category();
        let name = operation.to_str();
        let key = operation_key(category.name.as_str(), name.as_str());
        ProfileTimerAsync::with_key(key)
    }

    /// The key this timer records under.
    pub fn key(&self) -> (r: &String)
        ensures
            r@ == self@.key,
    {
        &self.key
    }

    /// Elapsed microseconds since creation, without recording.
    pub fn elapsed_micros(&self) -> u64 {
        elapsed_micros_since(&self.start)
    }

    /// Record the elapsed wall-clock time: the one recording this timer
    /// ever makes (the global pause still applies inside the collector).
    pub fn finish(self, collector: &mut ProfileCollector)
        requires
            old(collector).wf(),
        ensures
            final(collector).wf(),
            exists|d: u64|
                final(collector)@ == #[trigger] record_model(old(collector)@, self@.key, d),
    {
        let d = self.elapsed_micros();
        collector.record(self.key.as_str(), d);
        proof {
            assert(collector@ == record_model(old(collector)@, self@.key, d));
        }
    }
}

/// A guard measuring the time spent in one scope; the host finishes it
/// on scope exit.
pub type ScopedTimer = ProfileTimer;

} // verus!
