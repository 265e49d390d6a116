//! Charging decisions of the battery controller: when charging is turned on
//! and off, and what each line notification calls for.
use crate::notify_lines::{LineNotification, NotifySource};
use vstd::prelude::*;

verus! {

/// Charging stops at this voltage while the storage limit is requested.
pub const STORAGE_CHARGE_LIMIT_MILLIVOLTS: u16 = 3700;

/// Whether the battery is beyond its charge limits: above the storage
/// voltage while storage mode is on, or at the configured maximum state of
/// charge.
pub open spec fn limits_reached(storage_voltage: bool, millivolts: u16, raw_soc: u8, soc_max: u8) -> bool {
    (storage_voltage && millivolts > STORAGE_CHARGE_LIMIT_MILLIVOLTS) || raw_soc >= soc_max
}

pub fn charge_limits_reached(storage_voltage: bool, millivolts: u16, raw_soc: u8, soc_max: u8) -> (b:
    bool)
    ensures
        b == limits_reached(storage_voltage, millivolts, raw_soc, soc_max),
{
    let storage_stop = storage_voltage && (millivolts > STORAGE_CHARGE_LIMIT_MILLIVOLTS);
    let soc_stop = raw_soc >= soc_max;
    storage_stop || soc_stop
}

/// A change to the charge-enable line.
#[derive(Debug, Clone, Copy, PartialEq, Eq, Structural)]
pub enum ChargingChange {
    Unchanged,
    Enable,
    Disable,
}

/// What a line notification calls for.
#[derive(Debug, Clone, Copy, PartialEq, Eq, Structural)]
pub enum NotificationAction {
    /// Read the battery statistics, then pass them to
    /// [`ChargeController::on_battery_stats`].
    RefreshBattery,
    /// The charger started or stopped charging.
    ChargerStatus(bool),
    /// USB power changed: turn charging off first; when `start_tuning`,
    /// start a new charge set-up.
    UsbPower { start_tuning: bool },
    /// Running from the battery: turn the monitor's sleep mode on.
    SleepMonitor,
    /// Nothing to do.
    Ignore,
    /// The storage limit was switched on or off.
    StorageMode(bool),
}

/// The charging state of the battery controller.
pub struct ChargeController {
    charging: bool,
    storage_voltage: bool,
}

impl ChargeController {
    pub closed spec fn spec_charging(&self) -> bool {
        self.charging
    }

    pub closed spec fn spec_storage_voltage(&self) -> bool {
        self.storage_voltage
    }

    /// Not charging, storage limit off.
    pub fn new() -> (c: Self)
        ensures
            !c.spec_charging(),
            !c.spec_storage_voltage(),
    {
        ChargeController { charging: false, storage_voltage: false }
    }

    pub fn is_charging(&self) -> (b: bool)
        ensures
            b == self.spec_charging(),
    {
        self.charging
    }

    pub fn storage_voltage(&self) -> (b: bool)
        ensures
            b == self.spec_storage_voltage(),
    {
        self.storage_voltage
    }

    /// New battery statistics: charging is on exactly when the battery is
    /// within its limits, and the enable line is switched only when that
    /// flips. Charging is never switched on while the battery is beyond its
    /// limits, nor off while it is within them.
    pub fn on_battery_stats(&mut self, raw_soc: u8, soc_max: u8, millivolts: u16) -> (change:
        ChargingChange)
        ensures
            final(self).spec_charging() == !limits_reached(
                old(self).spec_storage_voltage(),
                millivolts,
                raw_soc,
                soc_max,
            ),
            final(self).spec_storage_voltage() == old(self).spec_storage_voltage(),
            change == (if final(self).spec_charging() == old(self).spec_charging() {
                ChargingChange::Unchanged
            } else if final(self).spec_charging() {
                ChargingChange::Enable
            } else {
                ChargingChange::Disable
            }),
            change == ChargingChange::Enable ==> !limits_reached(
                old(self).spec_storage_voltage(),
                millivolts,
                raw_soc,
                soc_max,
            ),
            change == ChargingChange::Disable ==> limits_reached(
                old(self).spec_storage_voltage(),
                millivolts,
                raw_soc,
                soc_max,
            ),
            old(self).spec_storage_voltage() && millivolts > STORAGE_CHARGE_LIMIT_MILLIVOLTS
                ==> !final(self).spec_charging() && change != ChargingChange::Enable,
    {
        let disable_charging = charge_limits_reached(self.storage_voltage, millivolts, raw_soc, soc_max);
        let prev_charge_state = self.charging;
        self.charging = !disable_charging;
        // If they match, the charging state flipped.
        if disable_charging == prev_charge_state {
            if disable_charging {
                ChargingChange::Disable
            } else {
                ChargingChange::Enable
            }
        } else {
            ChargingChange::Unchanged
        }
    }

    /// USB power was attached: returns whether to start charging, which is
    /// skipped when the battery is beyond its limits.
    pub fn on_usb_attached(&mut self, raw_soc: u8, soc_max: u8, millivolts: u16) -> (start: bool)
        ensures
            start == !limits_reached(old(self).spec_storage_voltage(), millivolts, raw_soc, soc_max),
            final(self).spec_charging() == start,
            final(self).spec_storage_voltage() == old(self).spec_storage_voltage(),
    {
        let skip_charging = charge_limits_reached(self.storage_voltage, millivolts, raw_soc, soc_max);
        self.charging = !skip_charging;
        !skip_charging
    }

    /// What a line notification calls for; `tuning_idle` tells whether no
    /// charge set-up is running.
    pub fn respond(&mut self, notification: LineNotification, tuning_idle: bool) -> (action:
        NotificationAction)
        ensures
            action == (match notification.source {
                NotifySource::Batmon => NotificationAction::RefreshBattery,
                NotifySource::ChgOn => NotificationAction::ChargerStatus(notification.value),
                NotifySource::UsbOn => NotificationAction::UsbPower {
                    start_tuning: notification.value && tuning_idle,
                },
                NotifySource::BatOn => if notification.value {
                    NotificationAction::SleepMonitor
                } else {
                    NotificationAction::Ignore
                },
                NotifySource::StoreOn => NotificationAction::StorageMode(notification.value),
            }),
            final(self).spec_charging() == old(self).spec_charging(),
            final(self).spec_storage_voltage() == (if notification.source == NotifySource::StoreOn {
                notification.value
            } else {
                old(self).spec_storage_voltage()
            }),
    {
        match notification.source {
            NotifySource::Batmon => NotificationAction::RefreshBattery,
            NotifySource::ChgOn => NotificationAction::ChargerStatus(notification.value),
            NotifySource::UsbOn => NotificationAction::UsbPower {
                start_tuning: notification.value && tuning_idle,
            },
            NotifySource::BatOn => {
                if notification.value {
                    NotificationAction::SleepMonitor
                } else {
                    NotificationAction::Ignore
                }
            },
            NotifySource::StoreOn => {
                self.storage_voltage = notification.value;
                NotificationAction::StorageMode(notification.value)
            },
        }
    }
}

} // verus!
