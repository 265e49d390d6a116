use stenoswitch::current_monitor::{
    adc_from_response, cc_sample, request, AmpLimit, CC1, CC2, CHRG_DIVH, CHRG_DIVL,
};
use stenoswitch::current_rheostat::{
    energize_wait_step, CurrentRheostat, EnergizeAction, RheostatTuner, TunerAction,
    CUR_LIMIT_DEFAULT, CUR_LIMIT_MAX,
};

#[test]
fn adc_request_bytes() {
    assert_eq!(request(CC1), [7, 0x80, 0]);
    assert_eq!(request(CC2), [7, 0xC0, 0]);
    assert_eq!(request(CHRG_DIVH), [7, 0x40, 0]);
    assert_eq!(request(CHRG_DIVL), [7, 0x00, 0]);
}

#[test]
fn adc_response_value() {
    assert_eq!(adc_from_response([0xFF, 0xFA, 0xBC]), 0xABC);
    assert_eq!(adc_from_response([0x00, 0x0F, 0xFF]), 4095);
    assert_eq!(adc_from_response([0x12, 0xF0, 0x00]), 0);
}

#[test]
fn cc_larger_sample() {
    assert_eq!(cc_sample(10, 20), 20);
    assert_eq!(cc_sample(30, 20), 30);
    assert_eq!(cc_sample(7, 7), 7);
}

#[test]
fn amp_limits() {
    assert_eq!(AmpLimit::PreConnect.to_milliamps(), 100);
    assert_eq!(AmpLimit::Standard.to_milliamps(), 500);
    assert_eq!(AmpLimit::OneHalf.to_milliamps(), 1500);
    assert_eq!(AmpLimit::Three.to_milliamps(), 3000);
}

#[test]
fn rheostat_settings() {
    let mut r = CurrentRheostat::new();
    assert_eq!(r.setting(), CUR_LIMIT_MAX);
    assert_eq!(r.write_command(), [0, CUR_LIMIT_MAX]);
    r.step_up();
    assert_eq!(r.setting(), CUR_LIMIT_MAX);
    r.new_setting(200);
    assert_eq!(r.setting(), CUR_LIMIT_MAX);
    r.new_setting(1);
    r.step_down();
    assert_eq!(r.setting(), 0);
    r.step_down();
    assert_eq!(r.setting(), 0);
    r.step_up();
    assert_eq!(r.setting(), 1);
    assert_eq!(r.write_command(), [0, 1]);
    r.set_max();
    assert_eq!(r.setting(), CUR_LIMIT_MAX);
    assert!(CurrentRheostat::is_clean_boot(CUR_LIMIT_DEFAULT));
    assert!(!CurrentRheostat::is_clean_boot(0));
}

#[test]
fn tuner_raises_then_lowers() {
    let mut t = RheostatTuner::new();
    assert_eq!(t.on_measurement(true, false, 10), TunerAction::StepUp);
    assert_eq!(t.on_measurement(false, true, 11), TunerAction::Measure);
    assert_eq!(t.on_measurement(false, true, 11), TunerAction::StepDown);
    assert!(!t.is_done());
    assert_eq!(t.on_measurement(false, false, 10), TunerAction::Finished);
    assert!(t.is_done());
    assert_eq!(t.on_measurement(true, false, 10), TunerAction::Finished);
}

#[test]
fn tuner_limits() {
    let mut t = RheostatTuner::new();
    assert_eq!(t.on_measurement(true, false, CUR_LIMIT_MAX), TunerAction::ToppedOut);
    assert_eq!(t.on_measurement(false, true, 0), TunerAction::BottomedOut);
    assert!(t.is_done());
}

#[test]
fn tuner_drives_rheostat_to_end() {
    // Simulate a charger whose limit matches the target at code 40.
    let mut r = CurrentRheostat::new();
    r.new_setting(5);
    let mut t = RheostatTuner::new();
    let mut steps = 0;
    while !t.is_done() {
        let s = r.setting();
        match t.on_measurement(s < 40, s > 40, s) {
            TunerAction::StepUp => r.step_up(),
            TunerAction::StepDown => r.step_down(),
            _ => {}
        }
        steps += 1;
        assert!(steps <= 2 * CUR_LIMIT_MAX as usize + 3);
    }
    assert_eq!(r.setting(), 40);
}

#[test]
fn energize_wait_decisions() {
    assert_eq!(energize_wait_step(true, false), EnergizeAction::Tune);
    assert_eq!(energize_wait_step(true, true), EnergizeAction::Tune);
    assert_eq!(energize_wait_step(false, false), EnergizeAction::GiveUp);
    assert_eq!(energize_wait_step(false, true), EnergizeAction::WaitAgain);
}
