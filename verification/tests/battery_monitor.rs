use stenoswitch::battery_monitor::{
    block_data_register, block_select_writes, blockupdate_checksum, blockupdate_writes,
    cfgupdate_reached, check_block_write, opconfig_with_sleep, required_spacing,
    u16_command_writes, u16_from_le_bytes, u16_to_le_bytes, CommandSpacing, SocCalibration,
    SocReading, BLOCK_DATA_CHECKSUM, DEFAULT_SOC_MAX, DEFAULT_SOC_OFFSET,
};
use stenoswitch::battery_monitor::{
    cfgupdate_step, step_actions, BusAction, CfgupdateAction, CFGUPDATE_DEADLINE_NANOS,
};
use stenoswitch::i2c::I2CError;

#[test]
fn spacing_write_then_read() {
    assert_eq!(required_spacing(true, false, 0), 2_000_000_000);
    assert_eq!(required_spacing(true, false, 500_000_000), 1_500_000_000);
    assert_eq!(required_spacing(true, false, 3_000_000_000), 0);
}

#[test]
fn spacing_busy_and_quiet() {
    assert_eq!(required_spacing(false, false, 10_000), 56_000);
    assert_eq!(required_spacing(true, true, 10_000), 56_000);
    assert_eq!(required_spacing(false, true, 100_000), 0);
    assert_eq!(required_spacing(false, true, 999_999_999), 0);
    assert_eq!(required_spacing(false, false, 1_000_000_000), 0);
    assert_eq!(required_spacing(false, false, u128::MAX), 0);
}

#[test]
fn command_spacing_tracks_writes() {
    let mut s = CommandSpacing::new();
    let first = s.next_spacing(true);
    assert!(first <= 2_000_000_000);
    // A read right after a write waits for most of the write-read spacing.
    let second = s.next_spacing(false);
    assert!(second > 1_000_000_000 && second <= 2_000_000_000);
    let third = s.next_spacing(false);
    assert!(third <= 66_000);
    let _ = CommandSpacing::default();
}

#[test]
fn command_spacing_at_given_times() {
    let mut s = CommandSpacing::new();
    // A write 10 us after the start waits out the short spacing.
    assert_eq!(s.next_spacing_at(true, 10_000), 56_000);
    // A read 0.5 s after that write waits for the rest of 2 s.
    assert_eq!(s.next_spacing_at(false, 500_010_000), 1_500_000_000);
    // A read 3 s later needs no wait.
    assert_eq!(s.next_spacing_at(false, 3_500_010_000), 0);
    // A command 1 s after a quiet read needs none either.
    assert_eq!(s.next_spacing_at(true, 4_500_010_000), 0);
    // A reading before the last one counts as no time passed.
    assert_eq!(s.next_spacing_at(true, 0), 66_000);
}

#[test]
fn u16_bytes() {
    assert_eq!(u16_to_le_bytes(0x1234), [0x34, 0x12]);
    assert_eq!(u16_from_le_bytes(0x34, 0x12), 0x1234);
    for v in [0u16, 1, 255, 256, 3500, 0x8000, u16::MAX] {
        let b = u16_to_le_bytes(v);
        assert_eq!(u16_from_le_bytes(b[0], b[1]), v);
    }
    assert_eq!(u16_command_writes(0x00, 0x8000), [(0x00, 0x00), (0x01, 0x80)]);
}

#[test]
fn block_bounds() {
    assert_eq!(check_block_write(0, 2), Ok(()));
    assert_eq!(check_block_write(29, 2), Ok(()));
    // A write may not reach the last byte of the block.
    assert_eq!(check_block_write(30, 1), Ok(()));
    assert_eq!(check_block_write(30, 2), Err(I2CError::OversizedBlockWrite));
    assert_eq!(check_block_write(62, 1), Ok(()));
    assert_eq!(check_block_write(63, 1), Err(I2CError::OversizedBlockWrite));
    assert_eq!(check_block_write(0, 31), Ok(()));
    assert_eq!(check_block_write(0, 32), Err(I2CError::OversizedBlockWrite));
}

#[test]
fn block_write_to_highest_register() {
    let writes = blockupdate_writes(30, &[0xAB], 0x11);
    assert_eq!(writes, vec![(0x5E, 0xAB), (BLOCK_DATA_CHECKSUM, 0x11)]);
}

#[test]
fn block_selection() {
    assert_eq!(block_select_writes(0x52, 23), [(0x61, 0), (0x3E, 0x52), (0x3F, 0)]);
    assert_eq!(block_select_writes(64, 33), [(0x61, 0), (0x3E, 64), (0x3F, 1)]);
    assert_eq!(block_data_register(23), 0x57);
    assert_eq!(block_data_register(33), 0x41);
}

#[test]
fn checksum_example() {
    // Replacing bytes [0x0D, 0xAC] by [0xAC, 0x0D] leaves the sum unchanged.
    assert_eq!(blockupdate_checksum(0x42, &[0x0D, 0xAC], &[0xAC, 0x0D]), 0x42);
    // Raising one byte by one lowers the checksum by one.
    assert_eq!(blockupdate_checksum(0x42, &[0x10], &[0x11]), 0x41);
    assert_eq!(blockupdate_checksum(0x00, &[0x00], &[0x01]), 0xFF);
}

#[test]
fn checksum_stays_consistent() {
    let mut block = [0u8; 32];
    for (i, b) in block.iter_mut().enumerate() {
        *b = (i * 37 + 11) as u8;
    }
    let sum = |b: &[u8]| b.iter().fold(0u8, |a, x| a.wrapping_add(*x));
    let old_checksum = 255 - sum(&block);
    let value = [0x0D, 0xAC];
    let checksum = blockupdate_checksum(old_checksum, &block[23..25], &value);
    block[23..25].copy_from_slice(&value);
    assert_eq!(checksum, 255 - sum(&block));
}

#[test]
fn blockupdate_write_list() {
    assert_eq!(
        blockupdate_writes(23, &[0x2C, 0x01], 0x99),
        vec![(0x57, 0x2C), (0x58, 0x01), (BLOCK_DATA_CHECKSUM, 0x99)]
    );
}

#[test]
fn opconfig_sleep() {
    assert_eq!(opconfig_with_sleep(0x78, true), 0x78);
    assert_eq!(opconfig_with_sleep(0x78, false), 0x58);
    assert_eq!(opconfig_with_sleep(0x00, true), 0x20);
    assert_eq!(opconfig_with_sleep(0xFF, false), 0xDF);
}

#[test]
fn cfgupdate_flag() {
    assert!(cfgupdate_reached(0x10, true));
    assert!(!cfgupdate_reached(0x10, false));
    assert!(cfgupdate_reached(0xEF, false));
    assert!(!cfgupdate_reached(0xEF, true));
}

#[test]
fn soc_adjusted() {
    let c = SocCalibration::new(10, 90);
    assert_eq!(c.state_of_charge(50, true), SocReading::Adjusted(50));
    assert_eq!(c.state_of_charge(90, false), SocReading::Adjusted(100));
    assert_eq!(c.state_of_charge(11, false), SocReading::Adjusted(1));
    assert_eq!(c.state_of_charge(50, true).percent(), 50);
}

#[test]
fn soc_below_offset() {
    let mut c = SocCalibration::new(DEFAULT_SOC_OFFSET, DEFAULT_SOC_MAX);
    assert_eq!(c.state_of_charge(42, true), SocReading::NewMinimum(42));
    assert_eq!(c.state_of_charge(42, false), SocReading::Empty);
    assert_eq!(c.state_of_charge(100, true).percent(), 0);
    c.record_minimum(42);
    assert_eq!(c.soc_offset, 42);
    assert_eq!(c.state_of_charge_max(), 80);
    assert_eq!(c.state_of_charge(61, false), SocReading::Adjusted(50));
}

#[test]
fn soc_wide_range_keeps_low_byte() {
    let c = SocCalibration::new(0, 1);
    assert_eq!(c.state_of_charge(255, false), SocReading::Adjusted((25_500u32 % 256) as u8));
}

use stenoswitch::battery_monitor::{
    default_opconfig_steps, init_steps, percent_from_register, sleep_steps, ConfigStep,
};

#[test]
fn soc_register_low_byte() {
    assert_eq!(percent_from_register(0x0042), 0x42);
    assert_eq!(percent_from_register(0x0164), 0x64);
}

#[test]
fn init_routine() {
    assert_eq!(
        init_steps(),
        vec![
            ConfigStep::ForceTimeout,
            ConfigStep::Unseal,
            ConfigStep::SetCfgupdate,
            ConfigStep::SleepMode(false),
            ConfigStep::BlockValue { subclass: 0x52, offset: 0, value: 3500 },
            ConfigStep::Control(0x0032),
            ConfigStep::BlockValue { subclass: 0x52, offset: 23, value: 300 },
            ConfigStep::BlockValue { subclass: 0x52, offset: 20, value: 1 },
            ConfigStep::SoftReset,
            ConfigStep::Seal,
        ]
    );
}

#[test]
fn sleep_and_opconfig_routines() {
    assert_eq!(
        sleep_steps(true),
        vec![
            ConfigStep::Unseal,
            ConfigStep::SetCfgupdate,
            ConfigStep::SleepMode(true),
            ConfigStep::SoftReset,
            ConfigStep::Seal,
        ]
    );
    assert_eq!(
        default_opconfig_steps(),
        vec![
            ConfigStep::Unseal,
            ConfigStep::BlockValue { subclass: 64, offset: 0, value: 0x6478 },
            ConfigStep::Seal,
        ]
    );
}

#[test]
fn routines_end_sealed() {
    for steps in [init_steps(), sleep_steps(false), sleep_steps(true), default_opconfig_steps()] {
        assert!(steps.contains(&ConfigStep::Unseal));
        assert_eq!(steps.last(), Some(&ConfigStep::Seal));
    }
}

#[test]
fn cfgupdate_wait_decisions() {
    assert_eq!(CFGUPDATE_DEADLINE_NANOS, 5_000_000_000);
    assert_eq!(cfgupdate_step(true, 0), CfgupdateAction::Done);
    assert_eq!(cfgupdate_step(true, 9_000_000_000), CfgupdateAction::Done);
    assert_eq!(cfgupdate_step(false, 0), CfgupdateAction::Sleep(2_500_000_000));
    assert_eq!(cfgupdate_step(false, 4_000_000_000), CfgupdateAction::Sleep(500_000_000));
    assert_eq!(cfgupdate_step(false, 4_999_999_999), CfgupdateAction::Sleep(0));
    assert_eq!(cfgupdate_step(false, 5_000_000_000), CfgupdateAction::TimedOut);
}

#[test]
fn config_step_bus_actions() {
    assert_eq!(
        step_actions(ConfigStep::Unseal),
        vec![BusAction::ControlWord(0x8000), BusAction::ControlWord(0x8000)]
    );
    assert_eq!(
        step_actions(ConfigStep::SetCfgupdate),
        vec![
            BusAction::ControlWord(0x0013),
            BusAction::Settle(1_200_000_000),
            BusAction::WaitCfgupdate(true)
        ]
    );
    assert_eq!(
        step_actions(ConfigStep::SoftReset),
        vec![BusAction::ControlWord(0x0042), BusAction::WaitCfgupdate(false)]
    );
    assert_eq!(step_actions(ConfigStep::Seal), vec![BusAction::ControlWord(0x0020)]);
    assert_eq!(step_actions(ConfigStep::ForceTimeout), vec![BusAction::HoldBusLow(3_000_000_000)]);
    assert_eq!(step_actions(ConfigStep::Control(0x0032)), vec![BusAction::ControlWord(0x0032)]);
    assert_eq!(step_actions(ConfigStep::SleepMode(true)), vec![BusAction::RewriteSleepBit(true)]);
    assert_eq!(
        step_actions(ConfigStep::BlockValue { subclass: 0x52, offset: 0, value: 3500 }),
        vec![BusAction::WriteBlock { subclass: 0x52, offset: 0, value: 3500 }]
    );
}
