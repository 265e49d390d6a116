use stenoswitch::usb_comms::{
    battery_config_max_power, keyboard_config_max_power, secondary_config_max_power,
    KeyboardReport, MAX_CHARGE_MA, MAX_SYSTEM_MA,
};

#[test]
fn power_budget() {
    assert_eq!(battery_config_max_power(false), 1600);
    assert_eq!(battery_config_max_power(true), 1800);
    assert_eq!(secondary_config_max_power(), MAX_SYSTEM_MA);
    assert_eq!(keyboard_config_max_power(), MAX_CHARGE_MA + MAX_SYSTEM_MA);
}

#[test]
fn nine_byte_report() {
    let r = KeyboardReport::new();
    assert_eq!(r.full(), [0; 9]);
    let r = KeyboardReport { modifier: 0x02, keycodes: [4, 5, 6, 7, 8, 9] };
    assert_eq!(r.full(), [0x02, 0, 0, 4, 5, 6, 7, 8, 9]);
    assert_eq!(KeyboardReport::default().full(), [0; 9]);
}
