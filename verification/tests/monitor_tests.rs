use batalert::monitor::{MonitorConfig, MonitorState};
use batalert::reading::{BatteryReading, Status};
use batalert::supervisor::MonitorFleet;

fn cfg(threshold: i8, step: i8) -> MonitorConfig {
    MonitorConfig { threshold, step }
}

#[test]
fn fresh_monitor_is_armed_at_the_configured_threshold() {
    let c = cfg(15, 3);
    let st = MonitorState::new(&c);
    assert_eq!(st.alert_threshold, 15);
}

#[test]
fn discharge_scenario_alerts_at_15_and_12_only() {
    // threshold 15, step 3; capacities while discharging: 20,16,15,14,12,11.
    let c = cfg(15, 3);
    let mut st = MonitorState::new(&c);
    let caps = [20i8, 16, 15, 14, 12, 11];
    let mut fired_at = Vec::new();
    for &cap in caps.iter() {
        if st.tick(&c, cap, &Status::Discharging) {
            fired_at.push(cap);
        }
    }
    assert_eq!(fired_at, vec![15, 12]);
    assert_eq!(st.alert_threshold, 9);
}

#[test]
fn charging_resets_and_rearms_the_ratchet() {
    // Discharging at 10 fires and re-arms to 7; any charging reading resets to
    // 15; a later discharging reading at 14 fires at once since 14 <= 15.
    let c = cfg(15, 3);
    let mut st = MonitorState::new(&c);
    assert!(st.tick(&c, 10, &Status::Discharging));
    assert_eq!(st.alert_threshold, 7);
    assert!(!st.tick(&c, 35, &Status::Charging));
    assert_eq!(st.alert_threshold, 15);
    assert!(st.tick(&c, 14, &Status::Discharging));
    assert_eq!(st.alert_threshold, 11);
}

#[test]
fn identical_tick_does_not_alert_twice() {
    let c = cfg(15, 3);
    let mut st = MonitorState::new(&c);
    assert!(st.tick(&c, 10, &Status::Discharging));
    assert!(!st.tick(&c, 10, &Status::Discharging));
}

#[test]
fn other_status_leaves_the_ratchet_alone() {
    let c = cfg(15, 3);
    let mut st = MonitorState::new(&c);
    assert!(st.tick(&c, 10, &Status::Discharging));
    assert_eq!(st.alert_threshold, 7);
    let full = Status::Other(String::from("Full"));
    assert!(!st.tick(&c, 10, &full));
    assert_eq!(st.alert_threshold, 7);
    let unknown = Status::Other(String::from("Unknown"));
    assert!(!st.tick(&c, 3, &unknown));
    assert_eq!(st.alert_threshold, 7);
}

#[test]
fn ratchet_may_drop_below_zero_without_wrapping() {
    let c = cfg(15, 3);
    let mut st = MonitorState::new(&c);
    assert!(st.tick(&c, 1, &Status::Discharging));
    assert_eq!(st.alert_threshold, -2);
    assert!(!st.tick(&c, 0, &Status::Discharging));
    assert_eq!(st.alert_threshold, -2);

    let wide = cfg(15, 127);
    let mut st = MonitorState::new(&wide);
    assert!(st.tick(&wide, -128, &Status::Discharging));
    assert_eq!(st.alert_threshold, -255);
}

#[test]
fn observe_carries_name_and_capacity_into_the_alert() {
    let c = cfg(15, 3);
    let mut st = MonitorState::new(&c);
    let reading = BatteryReading {
        name: String::from("BAT0"),
        capacity: 12,
        status: Status::Discharging,
    };
    let alert = st.observe(&c, &reading).expect("an alert is due at 12 <= 15");
    assert_eq!(alert.name, "BAT0");
    assert_eq!(alert.capacity, 12);
    assert_eq!(st.alert_threshold, 9);
}

#[test]
fn observe_stays_quiet_above_the_threshold() {
    let c = cfg(15, 3);
    let mut st = MonitorState::new(&c);
    let reading = BatteryReading {
        name: String::from("BAT0"),
        capacity: 80,
        status: Status::Discharging,
    };
    assert!(st.observe(&c, &reading).is_none());
    assert_eq!(st.alert_threshold, 15);
}

#[test]
fn batteries_are_monitored_independently() {
    let c = cfg(15, 3);
    let mut fleet = MonitorFleet::new(&c, 3);
    assert_eq!(fleet.len(), 3);

    // Ratchet battery 1 down; batteries 0 and 2 keep their state.
    assert!(fleet.tick_at(1, &c, 10, &Status::Discharging));
    assert_eq!(fleet.state_at(0).alert_threshold, 15);
    assert_eq!(fleet.state_at(1).alert_threshold, 7);
    assert_eq!(fleet.state_at(2).alert_threshold, 15);

    // Reset battery 2 by charging; battery 1 keeps its ratchet.
    assert!(!fleet.tick_at(2, &c, 50, &Status::Charging));
    assert_eq!(fleet.state_at(1).alert_threshold, 7);
    assert_eq!(fleet.state_at(2).alert_threshold, 15);
}
