use vstd::prelude::*;

verus! {

/// Coarse kind of a filesystem change; consumers re-read the whole file on
/// any of them, so no finer detail is carried.
#[derive(Clone, Copy, Debug, PartialEq, Eq, Structural)]
pub enum EventKind {
    Create,
    Modify,
    Remove,
    Rename,
    Rescan,
    WatchError,
}

/// A signal that the watched configuration file changed and must be re-read.
#[derive(Clone, Debug)]
pub struct ChangeEvent {
    /// The path the change was observed on.
    pub path: String,
    /// What coarse kind of change it was.
    pub kind: EventKind,
}

/// The debouncing state machine of the change-watcher bridge.
///
/// The watcher thread feeds it the arrival time of every raw filesystem
/// event; the machine answers whether that event is forwarded to the
/// consumer. A burst of raw events collapses into the one event that opened
/// the burst; a raw event further than `window_ms` after the last forwarded
/// one opens a new burst and is forwarded again.
pub struct Debouncer {
    /// Width of the debounce window in milliseconds.
    pub window_ms: u64,
    /// Arrival time of the last forwarded event, if any was forwarded yet.
    pub last_emit: Option<u64>,
}

/// Whether a raw event arriving at `now_ms` is forwarded.
pub open spec fn spec_emits(d: Debouncer, now_ms: u64) -> bool {
    match d.last_emit {
        None => true,
        Some(t) => now_ms - t > d.window_ms,
    }
}

/// The debouncer state after a raw event arriving at `now_ms`.
pub open spec fn spec_step(d: Debouncer, now_ms: u64) -> Debouncer {
    if spec_emits(d, now_ms) {
        Debouncer { window_ms: d.window_ms, last_emit: Some(now_ms) }
    } else {
        d
    }
}

/// The debouncer state after a whole run of raw events.
pub open spec fn spec_run(d: Debouncer, ts: Seq<u64>) -> Debouncer
    decreases ts.len(),
{
    if ts.len() == 0 {
        d
    } else {
        spec_run(spec_step(d, ts[0]), ts.skip(1))
    }
}

/// How many of a run of raw events are forwarded.
pub open spec fn spec_emit_count(d: Debouncer, ts: Seq<u64>) -> nat
    decreases ts.len(),
{
    if ts.len() == 0 {
        0
    } else {
        (if spec_emits(d, ts[0]) {
            1nat
        } else {
            0nat
        }) + spec_emit_count(spec_step(d, ts[0]), ts.skip(1))
    }
}

impl Debouncer {
    /// A fresh debouncer: nothing forwarded yet, so the first raw event
    /// always goes through.
    pub fn new(window_ms: u64) -> (d: Debouncer)
        ensures
            d.window_ms == window_ms,
            d.last_emit is None,
    {
        Debouncer { window_ms, last_emit: None }
    }

    /// Feed one raw event, arriving at `now_ms`, through the machine; the
    /// answer says whether the bridge forwards it to the consumer.
    ///
    /// Arrival times must not run backwards (the bridge reads a monotonic
    /// clock).
    pub fn observe(&mut self, now_ms: u64) -> (emit: bool)
        requires
            match old(self).last_emit {
                Some(t) => t <= now_ms,
                None => true,
            },
        ensures
            emit == spec_emits(*old(self), now_ms),
            *final(self) == spec_step(*old(self), now_ms),
    {
        match self.last_emit {
            None => {
                self.last_emit = Some(now_ms);
                true
            },
            Some(t) => {
                if now_ms - t > self.window_ms {
                    self.last_emit = Some(now_ms);
                    true
                } else {
                    false
                }
            },
        }
    }
}

/// While every raw event of a run stays within the window that the last
/// forwarded event opened, nothing more is forwarded and the state stands
/// still.
proof fn lemma_burst_swallowed(d: Debouncer, ts: Seq<u64>)
    requires
        d.last_emit is Some,
        forall|i: int|
            0 <= i < ts.len() ==> d.last_emit->0 <= #[trigger] ts[i] <= d.last_emit->0
                + d.window_ms,
    ensures
        spec_emit_count(d, ts) == 0,
        spec_run(d, ts) == d,
    decreases ts.len(),
{
    if ts.len() > 0 {
        assert(!spec_emits(d, ts[0]));
        lemma_burst_swallowed(d, ts.skip(1));
    }
}

/// Debounce collapsing, the burst half: a fresh debouncer fed a nonempty
/// run of raw events that all arrive within one window of the first
/// forwards exactly one event.
pub proof fn lemma_debounce_collapses(d: Debouncer, ts: Seq<u64>)
    requires
        d.last_emit is None,
        ts.len() >= 1,
        forall|i: int| 0 <= i < ts.len() ==> ts[0] <= #[trigger] ts[i] <= ts[0] + d.window_ms,
    ensures
        spec_emit_count(d, ts) == 1,
{
    assert(spec_emits(d, ts[0]));
    let d1 = spec_step(d, ts[0]);
    assert(forall|i: int|
        0 <= i < ts.skip(1).len() ==> d1.last_emit->0 <= #[trigger] ts.skip(1)[i]
            <= d1.last_emit->0 + d1.window_ms);
    lemma_burst_swallowed(d1, ts.skip(1));
}

/// Debounce collapsing, the separation half: raw events that each arrive
/// more than one window after the one before are all forwarded.
pub proof fn lemma_debounce_separates(d: Debouncer, ts: Seq<u64>)
    requires
        match d.last_emit {
            None => true,
            Some(t) => ts.len() == 0 || ts[0] - t > d.window_ms,
        },
        forall|i: int| 0 <= i < ts.len() - 1 ==> ts[i + 1] - #[trigger] ts[i] > d.window_ms,
        forall|i: int| 0 <= i < ts.len() - 1 ==> #[trigger] ts[i] <= ts[i + 1],
    ensures
        spec_emit_count(d, ts) == ts.len(),
    decreases ts.len(),
{
    if ts.len() > 0 {
        assert(spec_emits(d, ts[0]));
        let d1 = spec_step(d, ts[0]);
        assert(forall|i: int|
            0 <= i < ts.skip(1).len() - 1 ==> ts.skip(1)[i + 1] - #[trigger] ts.skip(1)[i]
                > d1.window_ms && ts.skip(1)[i] <= ts.skip(1)[i + 1]);
        if ts.len() > 1 {
            assert(ts.skip(1)[0] == ts[1]);
        }
        lemma_debounce_separates(d1, ts.skip(1));
    }
}

} // verus!
