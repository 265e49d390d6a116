//! Notifications from the GPIO lines that report power and battery events.
use vstd::prelude::*;

verus! {

/// The line a notification came from.
#[derive(Debug, Clone, Copy, PartialEq, Eq, Structural, Hash)]
pub enum NotifySource {
    /// Battery monitor alert.
    Batmon,
    /// Charger status.
    ChgOn,
    /// USB power present.
    UsbOn,
    /// Running from the battery.
    BatOn,
    /// Storage charge limit requested.
    StoreOn,
}

/// A line's new level.
#[derive(Debug, Clone, Copy, PartialEq, Eq, Structural, Hash)]
pub struct LineNotification {
    pub source: NotifySource,
    pub value: bool,
}

impl LineNotification {
    pub fn new(source: NotifySource, value: bool) -> (n: Self)
        ensures
            n.source == source,
            n.value == value,
    {
        LineNotification { source, value }
    }
}

} // verus!
