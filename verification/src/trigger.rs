use vstd::prelude::*;

use crate::ring_buffer::RingBuffer;
use crate::sample::{key_le, key_lt, SampleKey};

verus! {

#[derive(Debug, Clone, Copy, PartialEq, Eq, Structural)]
pub enum TriggerMode {
    /// Fires on edges, and by itself when no edge came for the auto timeout.
    Auto,
    /// Fires on edges only.
    Normal,
    /// Fires on the first edge, then stops until armed again.
    Single,
}

#[derive(Debug, Clone, Copy, PartialEq, Eq, Structural)]
pub enum TriggerEdge {
    Rising,
    Falling,
}

#[derive(Debug, Clone, Copy, PartialEq, Eq, Structural)]
pub enum TriggerState {
    Running,
    Waiting,
    Stopped,
}

/// The signal passes `level` between `prev` and `curr` in the direction of `edge`:
/// rising when `prev < level <= curr`, falling when `prev > level >= curr`.
pub open spec fn crosses(edge: TriggerEdge, prev: SampleKey, curr: SampleKey, level: SampleKey) -> bool {
    match edge {
        TriggerEdge::Rising => key_lt(prev, level) && key_le(level, curr),
        TriggerEdge::Falling => key_lt(level, prev) && key_le(curr, level),
    }
}

/// A crossing needs the signal to move: up for a rising edge, down for a
/// falling one; and a sample on the level crosses it only when coming from
/// the other side.
pub proof fn lemma_crossing_moves(edge: TriggerEdge, prev: SampleKey, curr: SampleKey, level: SampleKey)
    ensures
        crosses(edge, prev, curr, level) && edge == TriggerEdge::Rising ==> key_lt(prev, curr)
            && key_lt(prev, level) && !key_lt(curr, level),
        crosses(edge, prev, curr, level) && edge == TriggerEdge::Falling ==> key_lt(curr, prev)
            && key_lt(level, prev) && !key_lt(level, curr),
        prev == level ==> !crosses(edge, prev, curr, level),
{
}

/// `n - 1`, or 0 for `n == 0`: the index of the newest sample of a buffer of `n`.
pub open spec fn newest_index(n: usize) -> usize {
    if n > 0 {
        (n - 1) as usize
    } else {
        0
    }
}

fn edge_crossed(edge: TriggerEdge, prev: SampleKey, curr: SampleKey, level: SampleKey) -> (b: bool)
    ensures
        b == crosses(edge, prev, curr, level),
{
    match edge {
        TriggerEdge::Rising => prev.less_than(&level) && level.less_or_equal(&curr),
        TriggerEdge::Falling => level.less_than(&prev) && curr.less_or_equal(&level),
    }
}

/// Decides, sample by sample, when the display is triggered.
pub struct TriggerEngine {
    pub mode: TriggerMode,
    pub edge: TriggerEdge,
    pub level: SampleKey,
    pub source_channel: usize,
    pub holdoff_samples: usize,
    pub state: TriggerState,
    /// The sample seen by the previous call of `check`.
    pub prev_sample: Option<SampleKey>,
    /// Samples checked since the last trigger (or since the engine was armed).
    pub samples_since_trigger: usize,
    /// Buffer index of the last trigger, if any.
    pub triggered_at: Option<usize>,
    /// Samples after which the Auto mode fires without an edge.
    pub auto_timeout_samples: usize,
}

impl TriggerEngine {
    /// A call of `check` with `sample` fires on an edge: the engine runs, the
    /// holdoff has passed, there is a previous sample and the signal crosses the level.
    pub open spec fn fires_on_edge(&self, sample: SampleKey) -> bool {
        &&& self.state != TriggerState::Stopped
        &&& self.samples_since_trigger + 1 > self.holdoff_samples
        &&& self.prev_sample is Some
        &&& crosses(self.edge, self.prev_sample.unwrap(), sample, self.level)
    }

    /// A call of `check` with `sample` fires by the Auto timeout: in Auto mode,
    /// no edge, and the auto timeout is reached.
    pub open spec fn fires_on_timeout(&self, sample: SampleKey) -> bool {
        &&& self.state != TriggerState::Stopped
        &&& !self.fires_on_edge(sample)
        &&& self.mode == TriggerMode::Auto
        &&& self.samples_since_trigger + 1 >= self.auto_timeout_samples
    }

    /// `check` with `sample` fires, on an edge or by the timeout.
    pub open spec fn fires(&self, sample: SampleKey) -> bool {
        self.fires_on_edge(sample) || self.fires_on_timeout(sample)
    }

    /// What `check(sample, buffer_len)` returns: the index of the newest
    /// sample when it fires, else nothing.
    pub open spec fn check_result(&self, sample: SampleKey, buffer_len: usize) -> Option<usize> {
        if self.fires(sample) {
            Some(newest_index(buffer_len))
        } else {
            None
        }
    }

    /// The engine after `check(sample, buffer_len)`. A stopped engine ignores
    /// the sample. Otherwise the sample becomes the previous one, and the count
    /// of samples since the last trigger grows by one or, when the check fires,
    /// starts again at 0 with the trigger index recorded; an edge in Single
    /// mode stops the engine.
    pub open spec fn after_check(&self, sample: SampleKey, buffer_len: usize) -> TriggerEngine {
        if self.state == TriggerState::Stopped {
            *self
        } else {
            TriggerEngine {
                state: if self.fires_on_edge(sample) && self.mode == TriggerMode::Single {
                    TriggerState::Stopped
                } else {
                    self.state
                },
                prev_sample: Some(sample),
                samples_since_trigger: if self.fires(sample) {
                    0
                } else {
                    (self.samples_since_trigger + 1) as usize
                },
                triggered_at: if self.fires(sample) {
                    Some(newest_index(buffer_len))
                } else {
                    self.triggered_at
                },
                ..*self
            }
        }
    }

    pub fn new() -> (t: Self)
        ensures
            t.mode == TriggerMode::Auto,
            t.edge == TriggerEdge::Rising,
            t.level == SampleKey::Ordered(0),
            t.source_channel == 0,
            t.holdoff_samples == 0,
            t.state == TriggerState::Running,
            t.prev_sample == None::<SampleKey>,
            t.samples_since_trigger == 0,
            t.triggered_at == None::<usize>,
            t.auto_timeout_samples == 5000,
    {
        TriggerEngine {
            mode: TriggerMode::Auto,
            edge: TriggerEdge::Rising,
            level: SampleKey::Ordered(0),
            source_channel: 0,
            holdoff_samples: 0,
            state: TriggerState::Running,
            prev_sample: None,
            samples_since_trigger: 0,
            triggered_at: None,
            auto_timeout_samples: 5000,
        }
    }

    /// Checks a new sample against the trigger condition; `buffer_len` is the
    /// length of the source buffer, which already holds the sample.
    /// Returns the buffer index where the trigger fired, if it did.
    pub fn check(&mut self, sample: SampleKey, buffer_len: usize) -> (r: Option<usize>)
        requires
            old(self).state == TriggerState::Stopped || old(self).samples_since_trigger
                < usize::MAX,
        ensures
            r == old(self).check_result(sample, buffer_len),
            *final(self) == old(self).after_check(sample, buffer_len),
            r is Some ==> final(self).samples_since_trigger == 0 && final(self).triggered_at == r,
            r is None ==> final(self).triggered_at == old(self).triggered_at,
    {
        if let TriggerState::Stopped = self.state {
            return None;
        }
        self.samples_since_trigger += 1;
        let result = if self.samples_since_trigger > self.holdoff_samples {
            match self.prev_sample {
                Some(prev) => {
                    if edge_crossed(self.edge, prev, sample, self.level) {
                        self.samples_since_trigger = 0;
                        let idx: usize = buffer_len.saturating_sub(1);
                        self.triggered_at = Some(idx);
                        if let TriggerMode::Single = self.mode {
                            self.state = TriggerState::Stopped;
                        }
                        Some(idx)
                    } else {
                        None
                    }
                },
                None => None,
            }
        } else {
            None
        };

        self.prev_sample = Some(sample);

        if result.is_none() {
            if let TriggerMode::Auto = self.mode {
                if self.samples_since_trigger >= self.auto_timeout_samples {
                    self.samples_since_trigger = 0;
                    let idx: usize = buffer_len.saturating_sub(1);
                    self.triggered_at = Some(idx);
                    return Some(idx);
                }
            }
        }
        result
    }

    /// The newest index `i` in the last `auto_timeout` samples of `buf` (never
    /// index 0 or the first of that span) where the signal crosses the level
    /// between samples `i - 1` and `i`. Used to re-locate the trigger after scrolling.
    pub fn find_trigger_in_buffer(&self, buf: &RingBuffer<SampleKey>) -> (r: Option<usize>)
        ensures
            ({
                let s = buf@;
                let lo: int = if s.len() > self.auto_timeout_samples {
                    s.len() - self.auto_timeout_samples
                } else {
                    0
                };
                match r {
                    Some(i) => {
                        &&& lo < i < s.len()
                        &&& crosses(self.edge, s[i - 1], s[i as int], self.level)
                        &&& forall|j: int|
                            i < j < s.len() ==> !crosses(
                                self.edge,
                                #[trigger] s[j - 1],
                                s[j],
                                self.level,
                            )
                    },
                    None => forall|j: int|
                        lo < j < s.len() ==> !crosses(self.edge, #[trigger] s[j - 1], s[j], self.level),
                }
            }),
    {
        let n: usize = buf.len();
        if n < 2 {
            return None;
        }
        let start: usize = n.saturating_sub(self.auto_timeout_samples);
        let mut i: usize = n - 1;
        while i > start
            invariant
                n == buf@.len(),
                n >= 2,
                start == (if n > self.auto_timeout_samples {
                    n - self.auto_timeout_samples
                } else {
                    0
                }),
                i < n,
                forall|j: int|
                    i < j < n ==> !crosses(self.edge, #[trigger] buf@[j - 1], buf@[j], self.level),
            decreases i,
        {
            let curr = match buf.get(i) {
                Some(v) => v,
                None => return None,
            };
            let prev = match buf.get(i - 1) {
                Some(v) => v,
                None => return None,
            };
            if edge_crossed(self.edge, prev, curr, self.level) {
                return Some(i);
            }
            i -= 1;
        }
        None
    }

    pub fn last_trigger_index(&self) -> (r: Option<usize>)
        ensures
            r == self.triggered_at,
    {
        self.triggered_at
    }

    /// Waits for the next trigger: forgets the last one and restarts the counting.
    pub fn arm(&mut self)
        ensures
            final(self).state == TriggerState::Waiting,
            final(self).triggered_at == None::<usize>,
            final(self).samples_since_trigger == 0,
            final(self).mode == old(self).mode,
            final(self).edge == old(self).edge,
            final(self).level == old(self).level,
            final(self).source_channel == old(self).source_channel,
            final(self).holdoff_samples == old(self).holdoff_samples,
            final(self).prev_sample == old(self).prev_sample,
            final(self).auto_timeout_samples == old(self).auto_timeout_samples,
    {
        self.state = TriggerState::Waiting;
        self.triggered_at = None;
        self.samples_since_trigger = 0;
    }

    /// Triggers now, at the newest sample of a buffer of `buffer_len`; in Single
    /// mode this stops the engine.
    pub fn force_trigger(&mut self, buffer_len: usize)
        ensures
            final(self).triggered_at == Some(newest_index(buffer_len)),
            final(self).samples_since_trigger == 0,
            final(self).state == (if old(self).mode == TriggerMode::Single {
                TriggerState::Stopped
            } else {
                old(self).state
            }),
            final(self).mode == old(self).mode,
            final(self).edge == old(self).edge,
            final(self).level == old(self).level,
            final(self).source_channel == old(self).source_channel,
            final(self).holdoff_samples == old(self).holdoff_samples,
            final(self).prev_sample == old(self).prev_sample,
            final(self).auto_timeout_samples == old(self).auto_timeout_samples,
    {
        self.triggered_at = Some(buffer_len.saturating_sub(1));
        self.samples_since_trigger = 0;
        if let TriggerMode::Single = self.mode {
            self.state = TriggerState::Stopped;
        }
    }

    pub fn set_auto_timeout(&mut self, samples: usize)
        ensures
            final(self).auto_timeout_samples == samples,
            final(self).triggered_at == old(self).triggered_at,
            final(self).state == old(self).state,
            final(self).samples_since_trigger == old(self).samples_since_trigger,
            final(self).mode == old(self).mode,
            final(self).edge == old(self).edge,
            final(self).level == old(self).level,
            final(self).source_channel == old(self).source_channel,
            final(self).holdoff_samples == old(self).holdoff_samples,
            final(self).prev_sample == old(self).prev_sample,
    {
        self.auto_timeout_samples = samples;
    }
}

/// The engine after checking each `(sample, buffer_len)` of `events` in order.
pub open spec fn run(engine: TriggerEngine, events: Seq<(SampleKey, usize)>) -> TriggerEngine
    decreases events.len(),
{
    if events.len() == 0 {
        engine
    } else {
        run(engine, events.drop_last()).after_check(events.last().0, events.last().1)
    }
}

/// In Single mode the engine fires at most once: after a check that fires,
/// every later check returns nothing until the engine is armed again.
pub proof fn lemma_single_fires_once(
    engine: TriggerEngine,
    first: SampleKey,
    first_len: usize,
    later: Seq<(SampleKey, usize)>,
)
    requires
        engine.mode == TriggerMode::Single,
        engine.check_result(first, first_len) is Some,
    ensures
        forall|k: int|
            0 <= k < later.len() ==> #[trigger] run(
                engine.after_check(first, first_len),
                later.take(k),
            ).check_result(later[k].0, later[k].1) == None::<usize>,
{
    let s1 = engine.after_check(first, first_len);
    assert(s1.state == TriggerState::Stopped);
    assert forall|k: int| 0 <= k < later.len() implies #[trigger] run(s1, later.take(k)).check_result(
        later[k].0,
        later[k].1,
    ) == None::<usize> by {
        lemma_run_stopped(s1, later.take(k));
    }
}

/// Running a stopped engine leaves it as it is.
pub proof fn lemma_run_stopped(engine: TriggerEngine, events: Seq<(SampleKey, usize)>)
    requires
        engine.state == TriggerState::Stopped,
    ensures
        run(engine, events) == engine,
    decreases events.len(),
{
    if events.len() > 0 {
        lemma_run_stopped(engine, events.drop_last());
    }
}

/// Holdoff: right after a trigger no edge fires for `holdoff_samples` checks,
/// in every mode. (In Auto mode the timeout may still fire; it only restarts
/// the count.)
pub proof fn lemma_holdoff_suppresses_edges(engine: TriggerEngine, events: Seq<(SampleKey, usize)>)
    requires
        engine.samples_since_trigger == 0,
        events.len() <= engine.holdoff_samples,
    ensures
        forall|k: int|
            0 <= k < events.len() ==> !(#[trigger] run(engine, events.take(k))).fires_on_edge(
                events[k].0,
            ),
{
    assert forall|k: int| 0 <= k < events.len() implies !(#[trigger] run(
        engine,
        events.take(k),
    )).fires_on_edge(events[k].0) by {
        lemma_holdoff_count(engine, events.take(k));
    }
}

/// Within the holdoff, the count of samples since the last trigger is at most
/// the number of samples checked.
proof fn lemma_holdoff_count(engine: TriggerEngine, events: Seq<(SampleKey, usize)>)
    requires
        engine.samples_since_trigger == 0,
        events.len() < engine.holdoff_samples,
    ensures
        run(engine, events).holdoff_samples == engine.holdoff_samples,
        run(engine, events).samples_since_trigger <= events.len(),
    decreases events.len(),
{
    if events.len() > 0 {
        lemma_holdoff_count(engine, events.drop_last());
    }
}

/// Every check that fires, on an edge or by the Auto timeout, restarts the
/// count of samples since the last trigger at 0 and records the index it
/// returns; a check that does not fire counts the sample (unless the engine
/// is stopped).
pub proof fn lemma_fire_restarts_count(engine: TriggerEngine, sample: SampleKey, buffer_len: usize)
    requires
        engine.samples_since_trigger < usize::MAX,
    ensures
        engine.check_result(sample, buffer_len) is Some ==> {
            &&& engine.after_check(sample, buffer_len).samples_since_trigger == 0
            &&& engine.after_check(sample, buffer_len).triggered_at == engine.check_result(
                sample,
                buffer_len,
            )
        },
        engine.check_result(sample, buffer_len) is None && engine.state != TriggerState::Stopped
            ==> engine.after_check(sample, buffer_len).samples_since_trigger
            == engine.samples_since_trigger + 1,
{
}

/// Counting only ever adds one per check, so after `events` the count of
/// samples since the last trigger is at most its start plus the number of checks.
proof fn lemma_count_bound(engine: TriggerEngine, events: Seq<(SampleKey, usize)>)
    requires
        engine.samples_since_trigger + events.len() < usize::MAX,
    ensures
        run(engine, events).samples_since_trigger <= engine.samples_since_trigger + events.len(),
        run(engine, events).auto_timeout_samples == engine.auto_timeout_samples,
        run(engine, events).mode == engine.mode,
    decreases events.len(),
{
    if events.len() > 0 {
        lemma_count_bound(engine, events.drop_last());
    }
}

/// In Auto mode the timeout fires at most once per `auto_timeout_samples`
/// checks: from a fresh count (right after a trigger), none of the next
/// `auto_timeout_samples - 1` checks fires by the timeout.
pub proof fn lemma_timeout_spacing(engine: TriggerEngine, events: Seq<(SampleKey, usize)>)
    requires
        engine.samples_since_trigger == 0,
        events.len() < engine.auto_timeout_samples,
    ensures
        forall|k: int|
            0 <= k < events.len() ==> !(#[trigger] run(engine, events.take(k))).fires_on_timeout(
                events[k].0,
            ),
{
    assert forall|k: int| 0 <= k < events.len() implies !(#[trigger] run(
        engine,
        events.take(k),
    )).fires_on_timeout(events[k].0) by {
        lemma_count_bound(engine, events.take(k));
    }
}

/// What one `check` amounts to: a stopped engine returns nothing and stays
/// as it is; a returned index is the newest index of the buffer and is
/// recorded as the last trigger; in Single mode a check that fires stops the
/// engine; outside Auto mode a check fires only when the previous sample and
/// this one cross the level on the selected edge.
pub proof fn lemma_check_outcomes(engine: TriggerEngine, sample: SampleKey, buffer_len: usize)
    ensures
        engine.state == TriggerState::Stopped ==> engine.check_result(sample, buffer_len)
            == None::<usize> && engine.after_check(sample, buffer_len) == engine,
        engine.check_result(sample, buffer_len) matches Some(i) ==> {
            &&& i == newest_index(buffer_len)
            &&& engine.after_check(sample, buffer_len).triggered_at == Some(i)
        },
        engine.mode == TriggerMode::Single && engine.check_result(sample, buffer_len) is Some
            ==> engine.after_check(sample, buffer_len).state == TriggerState::Stopped,
        engine.mode != TriggerMode::Auto && engine.check_result(sample, buffer_len) is Some ==> {
            &&& engine.prev_sample is Some
            &&& crosses(engine.edge, engine.prev_sample.unwrap(), sample, engine.level)
        },
{
}

/// In Auto mode with a timeout of `T >= 1` samples, any `T` consecutive checks
/// include one that fires, counted from a state with fewer than `T` samples
/// since the last trigger.
pub proof fn lemma_auto_fires_within_timeout(engine: TriggerEngine, events: Seq<(SampleKey, usize)>)
    requires
        engine.mode == TriggerMode::Auto,
        engine.state != TriggerState::Stopped,
        engine.samples_since_trigger < engine.auto_timeout_samples,
        events.len() >= engine.auto_timeout_samples,
    ensures
        exists|k: int|
            0 <= k < engine.auto_timeout_samples && (#[trigger] run(engine, events.take(k))).fires(
                events[k].0,
            ),
{
    let t: int = engine.auto_timeout_samples as int;
    let k0 = t - 1 - engine.samples_since_trigger;
    if forall|k: int| 0 <= k < t ==> !(#[trigger] run(engine, events.take(k))).fires(events[k].0) {
        lemma_auto_count(engine, events.take(k0), events);
        assert(run(engine, events.take(k0)).fires(events[k0].0));
        assert(false);
    }
}

/// Without a firing, an engine in Auto mode counts each checked sample.
proof fn lemma_auto_count(
    engine: TriggerEngine,
    prefix: Seq<(SampleKey, usize)>,
    events: Seq<(SampleKey, usize)>,
)
    requires
        engine.mode == TriggerMode::Auto,
        engine.state != TriggerState::Stopped,
        engine.samples_since_trigger < engine.auto_timeout_samples,
        prefix.len() <= events.len(),
        prefix.len() + engine.samples_since_trigger < engine.auto_timeout_samples,
        prefix == events.take(prefix.len() as int),
        forall|k: int|
            0 <= k < prefix.len() ==> !(#[trigger] run(engine, events.take(k))).fires(events[k].0),
    ensures
        run(engine, prefix).mode == TriggerMode::Auto,
        run(engine, prefix).state == engine.state,
        run(engine, prefix).auto_timeout_samples == engine.auto_timeout_samples,
        run(engine, prefix).samples_since_trigger == engine.samples_since_trigger + prefix.len(),
    decreases prefix.len(),
{
    if prefix.len() > 0 {
        let n: int = prefix.len() - 1;
        assert(prefix.drop_last() == events.take(n));
        lemma_auto_count(engine, prefix.drop_last(), events);
        assert(prefix.last() == events[n]);
    }
}

impl Default for TriggerEngine {
    fn default() -> (t: Self)
        ensures
            t.mode == TriggerMode::Auto,
            t.edge == TriggerEdge::Rising,
            t.level == SampleKey::Ordered(0),
            t.source_channel == 0,
            t.holdoff_samples == 0,
            t.state == TriggerState::Running,
            t.prev_sample == None::<SampleKey>,
            t.samples_since_trigger == 0,
            t.triggered_at == None::<usize>,
            t.auto_timeout_samples == 5000,
    {
        Self::new()
    }
}

} // verus!
