use vstd::prelude::*;

use crate::monitor::{MonitorConfig, MonitorState};
use crate::reading::Status;

verus! {

/// One independent monitor per configured battery source.
///
/// Each battery owns its ratchet exclusively; ticking one entry never touches
/// any other, which the contract of [`MonitorFleet::tick_at`] states. There is
/// no cross-battery coordination or shared state of any kind.
pub struct MonitorFleet {
    monitors: Vec<MonitorState>,
}

impl View for MonitorFleet {
    type V = Seq<MonitorState>;

    closed spec fn view(&self) -> Seq<MonitorState> {
        self.monitors@
    }
}

impl MonitorFleet {
    /// One fresh monitor per source, each armed at the configured threshold.
    pub fn new(cfg: &MonitorConfig, sources: usize) -> (f: Self)
        ensures
            f@.len() == sources,
            forall|i: int| 0 <= i < sources ==> (#[trigger] f@[i]).alert_threshold == cfg.threshold as int,
    {
        let mut monitors: Vec<MonitorState> = Vec::new();
        let mut made: usize = 0;
        while made < sources
            invariant
                made <= sources,
                monitors@.len() == made,
                forall|i: int| 0 <= i < made ==> (#[trigger] monitors@[i]).alert_threshold == cfg.threshold as int,
            decreases sources - made,
        {
            monitors.push(MonitorState::new(cfg));
            made = made + 1;
        }
        MonitorFleet { monitors }
    }

    /// How many batteries are being watched.
    pub fn len(&self) -> (n: usize)
        ensures
            n == self@.len(),
    {
        self.monitors.len()
    }

    /// The current state of one battery's monitor.
    pub fn state_at(&self, i: usize) -> (m: MonitorState)
        requires
            i < self@.len(),
        ensures
            m == self@[i as int],
    {
        self.monitors[i]
    }

    /// One poll tick for the battery at position `i`.
    ///
    /// Law of multi-battery independence: firing or resetting battery `i`
    /// leaves the state of every other battery exactly as it was.
    pub fn tick_at(&mut self, i: usize, cfg: &MonitorConfig, capacity: i8, status: &Status) -> (fired: bool)
        requires
            i < old(self)@.len(),
        ensures
            final(self)@.len() == old(self)@.len(),
            fired == old(self)@[i as int].spec_fires(capacity, *status),
            final(self)@[i as int] == old(self)@[i as int].spec_next(*cfg, capacity, *status),
            forall|j: int|
                0 <= j < old(self)@.len() && j != i ==> final(self)@[j] == old(self)@[j],
    {
        let mut m = self.monitors[i];
        let fired = m.tick(cfg, capacity, status);
        self.monitors.set(i, m);
        fired
    }
}

} // verus!
