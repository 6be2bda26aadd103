use vstd::prelude::*;

verus! {

/// Charging status of a battery, classified from the raw status field of a
/// power-supply source. The classification is case-insensitive; a field that
/// is neither "Charging" nor "Discharging" keeps its raw text.
#[derive(Debug, Clone)]
pub enum Status {
    Charging,
    Discharging,
    Other(String),
}

impl Status {
    pub fn is_charging(&self) -> (b: bool)
        ensures
            b == (self is Charging),
    {
        matches!(self, Status::Charging)
    }

    pub fn is_discharging(&self) -> (b: bool)
        ensures
            b == (self is Discharging),
    {
        matches!(self, Status::Discharging)
    }
}

/// One immutable snapshot of a battery source, produced fresh on each poll.
#[derive(Debug, Clone)]
pub struct BatteryReading {
    /// Display identifier of the battery.
    pub name: String,
    /// Charge percentage; the source is expected to report 0 to 100.
    pub capacity: i8,
    /// Charging status.
    pub status: Status,
}

/// Everything that can go wrong between a battery source and an alert.
#[derive(Debug, Clone, Copy, PartialEq, Eq, Structural)]
pub enum SourceError {
    /// The source path is missing or cannot be read.
    SourceUnavailable,
    /// A required key is absent from the source blob, or its value does not
    /// parse as expected.
    MalformedSource,
    /// The notification service rejected or failed a delivery.
    NotificationDeliveryFailed,
}

} // verus!
