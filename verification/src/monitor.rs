use vstd::prelude::*;

use crate::reading::{BatteryReading, Status};

verus! {

/// How long a monitor waits between two polls of its battery source.
pub const POLL_INTERVAL_MS: u64 = 5000;

/// Immutable per-process configuration of the alert logic: parsed once at
/// startup and shared read-only by every monitor.
#[derive(Debug, Clone, Copy)]
pub struct MonitorConfig {
    /// Capacity level at which the first alert of a discharge episode fires;
    /// the ratchet resets here whenever the battery charges.
    pub threshold: i8,
    /// How many further percent the battery must lose before the alert is
    /// repeated.
    pub step: i8,
}

/// Mutable ratchet state of one monitored battery, owned exclusively by that
/// battery's polling loop.
///
/// The state is a single armament level: an alert fires when the battery is
/// discharging at or below `alert_threshold`. Firing re-arms `step` percent
/// lower, so sustained discharge alerts again only after `step` more percent
/// are lost. The field is wider than a capacity percentage because repeated
/// ratcheting near empty may drive it below zero; that is harmless and must
/// not wrap.
#[derive(Debug, Clone, Copy)]
pub struct MonitorState {
    /// The capacity level at or below which the next alert fires.
    pub alert_threshold: i16,
}

/// A request to deliver one desktop alert, handed to the notification glue.
#[derive(Debug, Clone)]
pub struct Alert {
    /// Display identifier of the battery the alert is about.
    pub name: String,
    /// Capacity percentage at the moment the alert fired.
    pub capacity: i8,
}

impl MonitorState {
    /// True when a tick with this reading fires an alert: the battery is
    /// discharging and its capacity has reached the armament level.
    pub open spec fn spec_fires(self, capacity: i8, status: Status) -> bool {
        &&& status is Discharging
        &&& capacity as int <= self.alert_threshold as int
    }

    /// The state after one tick: firing re-arms `step` below the observed
    /// capacity; a charging reading resets to the configured threshold; any
    /// other reading leaves the ratchet alone. The firing rule is decided
    /// first, but a single status field cannot be both.
    pub open spec fn spec_next(self, cfg: MonitorConfig, capacity: i8, status: Status) -> MonitorState {
        if self.spec_fires(capacity, status) {
            MonitorState { alert_threshold: (capacity as int - cfg.step as int) as i16 }
        } else if status is Charging {
            MonitorState { alert_threshold: cfg.threshold as i16 }
        } else {
            self
        }
    }

    /// A fresh monitor is armed at the configured threshold.
    pub fn new(cfg: &MonitorConfig) -> (s: Self)
        ensures
            s.alert_threshold == cfg.threshold as int,
    {
        MonitorState { alert_threshold: cfg.threshold as i16 }
    }

    /// One poll tick: decide whether an alert fires for this capacity and
    /// status, and advance the ratchet accordingly.
    pub fn tick(&mut self, cfg: &MonitorConfig, capacity: i8, status: &Status) -> (fired: bool)
        ensures
            fired == old(self).spec_fires(capacity, *status),
            *final(self) == old(self).spec_next(*cfg, capacity, *status),
    {
        if status.is_discharging() && capacity as i16 <= self.alert_threshold {
            self.alert_threshold = capacity as i16 - cfg.step as i16;
            true
        } else {
            if status.is_charging() {
                self.alert_threshold = cfg.threshold as i16;
            }
            false
        }
    }

    /// One poll tick on a full reading: returns the alert to deliver, if one
    /// is due, carrying the battery's name and current capacity.
    pub fn observe(&mut self, cfg: &MonitorConfig, reading: &BatteryReading) -> (alert: Option<Alert>)
        ensures
            *final(self) == old(self).spec_next(*cfg, reading.capacity, reading.status),
            alert is Some <==> old(self).spec_fires(reading.capacity, reading.status),
            alert is Some ==> alert->0.name@ == reading.name@ && alert->0.capacity == reading.capacity,
    {
        if self.tick(cfg, reading.capacity, &reading.status) {
            Some(Alert { name: reading.name.clone(), capacity: reading.capacity })
        } else {
            None
        }
    }
}

/// The state a monitor reaches after ticking through a sequence of readings,
/// oldest first, each a `(capacity, status)` pair.
pub open spec fn run_state(cfg: MonitorConfig, st: MonitorState, rs: Seq<(i8, Status)>) -> MonitorState
    decreases rs.len(),
{
    if rs.len() == 0 {
        st
    } else {
        run_state(cfg, st, rs.drop_last()).spec_next(cfg, rs.last().0, rs.last().1)
    }
}

/// Whether the tick at position `i` of the sequence fires an alert.
pub open spec fn run_fires_at(cfg: MonitorConfig, st: MonitorState, rs: Seq<(i8, Status)>, i: int) -> bool {
    run_state(cfg, st, rs.take(i)).spec_fires(rs[i].0, rs[i].1)
}

/// Unrolling a run by one tick.
proof fn lemma_run_state_step(cfg: MonitorConfig, st: MonitorState, rs: Seq<(i8, Status)>, j: int)
    requires
        0 <= j < rs.len(),
    ensures
        run_state(cfg, st, rs.take(j + 1)) == run_state(cfg, st, rs.take(j)).spec_next(
            cfg,
            rs[j].0,
            rs[j].1,
        ),
{
    assert(rs.take(j + 1).drop_last() =~= rs.take(j));
    assert(rs.take(j + 1).last() == rs[j]);
}

/// Law: until its first alert of a discharge episode, a monitor keeps its
/// ratchet where it started, and the tick at `j` fires exactly when the
/// observed capacity is at or below that initial level.
pub proof fn lemma_discharging_before_first_fire(
    cfg: MonitorConfig,
    st0: MonitorState,
    rs: Seq<(i8, Status)>,
    j: int,
)
    requires
        forall|k: int| 0 <= k < rs.len() ==> (#[trigger] rs[k]).1 is Discharging,
        0 <= j < rs.len(),
        forall|k: int| 0 <= k < j ==> !run_fires_at(cfg, st0, rs, k),
    ensures
        run_state(cfg, st0, rs.take(j)) == st0,
        run_fires_at(cfg, st0, rs, j) == (rs[j].0 as int <= st0.alert_threshold as int),
    decreases j,
{
    if j == 0 {
        assert(rs.take(0) =~= Seq::<(i8, Status)>::empty());
    } else {
        lemma_discharging_before_first_fire(cfg, st0, rs, j - 1);
        lemma_run_state_step(cfg, st0, rs, j - 1);
        assert(!run_fires_at(cfg, st0, rs, j - 1));
    }
}

/// Law: while a battery keeps discharging, once the tick at `i` fires, the
/// ratchet stands at `capacity(i) - step` for every later comparison up to
/// the next fire; in particular the tick at `j` fires exactly when the
/// capacity has dropped to `capacity(i) - step` or below.
pub proof fn lemma_discharging_ratchet(
    cfg: MonitorConfig,
    st0: MonitorState,
    rs: Seq<(i8, Status)>,
    i: int,
    j: int,
)
    requires
        forall|k: int| 0 <= k < rs.len() ==> (#[trigger] rs[k]).1 is Discharging,
        0 <= i < j < rs.len(),
        run_fires_at(cfg, st0, rs, i),
        forall|k: int| i < k < j ==> !run_fires_at(cfg, st0, rs, k),
    ensures
        run_state(cfg, st0, rs.take(j)).alert_threshold == rs[i].0 as int - cfg.step as int,
        run_fires_at(cfg, st0, rs, j) == (rs[j].0 as int <= rs[i].0 as int - cfg.step as int),
    decreases j,
{
    if j == i + 1 {
        lemma_run_state_step(cfg, st0, rs, i);
    } else {
        lemma_discharging_ratchet(cfg, st0, rs, i, j - 1);
        lemma_run_state_step(cfg, st0, rs, j - 1);
        assert(!run_fires_at(cfg, st0, rs, j - 1));
    }
}

/// Law: a charging reading resets the ratchet to the configured threshold,
/// whatever ratcheting a previous discharge episode had accumulated.
pub proof fn lemma_charging_resets(cfg: MonitorConfig, st: MonitorState, capacity: i8, status: Status)
    requires
        status is Charging,
    ensures
        st.spec_next(cfg, capacity, status).alert_threshold == cfg.threshold as int,
{
}

/// Law: of two consecutive ticks with the same capacity and status, a first
/// tick that fires forbids the second from firing again, because firing
/// re-arms strictly below the observed capacity whenever the repeat step is
/// positive. (With a step of zero the same reading would fire again.)
pub proof fn lemma_no_repeat_alert(cfg: MonitorConfig, st: MonitorState, capacity: i8, status: Status)
    requires
        cfg.step >= 1,
        st.spec_fires(capacity, status),
    ensures
        !st.spec_next(cfg, capacity, status).spec_fires(capacity, status),
{
}

} // verus!
