use stenoswitch::charge_control::{
    charge_limits_reached, ChargeController, ChargingChange, NotificationAction,
};
use stenoswitch::notify_lines::{LineNotification, NotifySource};

#[test]
fn limits() {
    assert!(charge_limits_reached(false, 4000, 80, 80));
    assert!(!charge_limits_reached(false, 4000, 79, 80));
    assert!(charge_limits_reached(true, 3701, 10, 80));
    assert!(!charge_limits_reached(true, 3700, 10, 80));
    assert!(!charge_limits_reached(false, 3701, 10, 80));
}

#[test]
fn stats_switch_on_flip_only() {
    let mut c = ChargeController::new();
    assert!(!c.is_charging());
    assert_eq!(c.on_battery_stats(50, 80, 3600), ChargingChange::Enable);
    assert!(c.is_charging());
    assert_eq!(c.on_battery_stats(60, 80, 3600), ChargingChange::Unchanged);
    assert_eq!(c.on_battery_stats(80, 80, 3600), ChargingChange::Disable);
    assert!(!c.is_charging());
    assert_eq!(c.on_battery_stats(90, 80, 3600), ChargingChange::Unchanged);
}

#[test]
fn storage_mode_stops_charging() {
    let mut c = ChargeController::new();
    assert_eq!(
        c.respond(LineNotification::new(NotifySource::StoreOn, true), true),
        NotificationAction::StorageMode(true)
    );
    assert!(c.storage_voltage());
    assert_eq!(c.on_battery_stats(50, 80, 3800), ChargingChange::Unchanged);
    assert!(!c.is_charging());
    assert_eq!(c.on_battery_stats(50, 80, 3650), ChargingChange::Enable);
}

#[test]
fn usb_attach() {
    let mut c = ChargeController::new();
    assert!(c.on_usb_attached(50, 80, 3600));
    assert!(c.is_charging());
    assert!(!c.on_usb_attached(85, 80, 3600));
    assert!(!c.is_charging());
}

#[test]
fn notification_actions() {
    let mut c = ChargeController::new();
    let n = |source, value| LineNotification::new(source, value);
    assert_eq!(c.respond(n(NotifySource::Batmon, true), true), NotificationAction::RefreshBattery);
    assert_eq!(
        c.respond(n(NotifySource::ChgOn, false), true),
        NotificationAction::ChargerStatus(false)
    );
    assert_eq!(
        c.respond(n(NotifySource::UsbOn, true), true),
        NotificationAction::UsbPower { start_tuning: true }
    );
    assert_eq!(
        c.respond(n(NotifySource::UsbOn, true), false),
        NotificationAction::UsbPower { start_tuning: false }
    );
    assert_eq!(
        c.respond(n(NotifySource::UsbOn, false), true),
        NotificationAction::UsbPower { start_tuning: false }
    );
    assert_eq!(c.respond(n(NotifySource::BatOn, true), true), NotificationAction::SleepMonitor);
    assert_eq!(c.respond(n(NotifySource::BatOn, false), true), NotificationAction::Ignore);
    assert!(!c.storage_voltage());
}
