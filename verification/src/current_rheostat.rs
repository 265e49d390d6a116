//! MCP40D19 digital rheostat that sets the charger's input current limit,
//! and the tuning of its wiper against the limit the USB port advertises.
use vstd::prelude::*;

verus! {

/// Maximum code for the current limiter rheostat.
pub const CUR_LIMIT_MAX: u8 = 0x7F;

/// Wiper code after a clean power-up.
pub const CUR_LIMIT_DEFAULT: u8 = 0x3F;

/// Maximum variance in ohms for the current limit rheostat.
pub const WIPER_RES_VARIANCE: u8 = 100;

/// The wiper can be safely measured after waiting this long, in
/// nanoseconds; the worst settling time on the datasheet is 817
/// microseconds.
pub const WIPER_SET_WAIT_NANOS: u64 = 1_000_000;

/// 0101110 -> 0x2E.
pub const RHEO_ADDR: u8 = 0x2E;

/// The wiper setting of the rheostat; a higher code is a higher resistance
/// and so a lower current limit.
pub struct CurrentRheostat {
    setting: u8,
}

impl CurrentRheostat {
    #[verifier::type_invariant]
    closed spec fn setting_in_range(&self) -> bool {
        self.setting <= CUR_LIMIT_MAX
    }

    pub closed spec fn spec_setting(&self) -> u8 {
        self.setting
    }

    /// Starts at the minimum allowed current, the maximum code. On the low
    /// tolerance parts the maximum is 80 kOhm, a 0.5A limit; on the high
    /// tolerance parts it is 120 kOhm.
    pub fn new() -> (r: Self)
        ensures
            r.spec_setting() == CUR_LIMIT_MAX,
    {
        CurrentRheostat { setting: CUR_LIMIT_MAX }
    }

    pub fn setting(&self) -> (s: u8)
        ensures
            s == self.spec_setting(),
            s <= CUR_LIMIT_MAX,
    {
        proof {
            use_type_invariant(self);
        }
        self.setting
    }

    /// The bytes written to the rheostat to apply the setting.
    pub fn write_command(&self) -> (bytes: [u8; 2])
        ensures
            bytes@ == seq![0u8, self.spec_setting()],
    {
        let bytes: [u8; 2] = [0, self.setting];
        assert(bytes@ =~= seq![0u8, self.spec_setting()]);
        bytes
    }

    /// Whether a value read back at start-up shows a clean boot.
    pub fn is_clean_boot(read_value: u8) -> (b: bool)
        ensures
            b == (read_value == CUR_LIMIT_DEFAULT),
    {
        read_value == CUR_LIMIT_DEFAULT
    }

    /// Sets a new code, capped at the maximum.
    pub fn new_setting(&mut self, setting: u8)
        ensures
            final(self).spec_setting() == (if setting < CUR_LIMIT_MAX {
                setting
            } else {
                CUR_LIMIT_MAX
            }),
    {
        self.setting = if setting < CUR_LIMIT_MAX {
            setting
        } else {
            CUR_LIMIT_MAX
        };
    }

    /// One code up (lower current), capped at the maximum.
    pub fn step_up(&mut self)
        ensures
            final(self).spec_setting() == (if old(self).spec_setting() < CUR_LIMIT_MAX {
                old(self).spec_setting() + 1
            } else {
                CUR_LIMIT_MAX as int
            }),
    {
        proof {
            use_type_invariant(&*self);
        }
        let next = self.setting + 1;
        self.new_setting(next);
    }

    /// One code down (higher current), stopping at zero.
    pub fn step_down(&mut self)
        ensures
            final(self).spec_setting() == (if old(self).spec_setting() > 0 {
                old(self).spec_setting() - 1
            } else {
                0
            }),
    {
        proof {
            use_type_invariant(&*self);
        }
        let next = self.setting.saturating_sub(1);
        self.new_setting(next);
    }

    /// Back to the minimum current.
    pub fn set_max(&mut self)
        ensures
            final(self).spec_setting() == CUR_LIMIT_MAX,
    {
        self.new_setting(CUR_LIMIT_MAX);
    }
}

/// How long to wait between checks that the current limit is energized, in
/// nanoseconds.
pub const ENERGIZE_POLL_NANOS: u64 = 1_000_000_000;

/// What to do while waiting for the current limit to energize before
/// tuning.
#[derive(Debug, Clone, Copy, PartialEq, Eq, Structural)]
pub enum EnergizeAction {
    /// The limit can be read: tune the rheostat.
    Tune,
    /// Charging is disabled, so the limit never energizes: stop.
    GiveUp,
    /// Wait [`ENERGIZE_POLL_NANOS`] and check again.
    WaitAgain,
}

/// The decision after checking whether the current limit is energized and,
/// when it is not, whether charging is enabled.
pub fn energize_wait_step(energized: bool, charging_enabled: bool) -> (a: EnergizeAction)
    ensures
        energized ==> a == EnergizeAction::Tune,
        !energized && !charging_enabled ==> a == EnergizeAction::GiveUp,
        !energized && charging_enabled ==> a == EnergizeAction::WaitAgain,
{
    if energized {
        EnergizeAction::Tune
    } else if !charging_enabled {
        // Current limit will never energize if charging is disabled.
        EnergizeAction::GiveUp
    } else {
        EnergizeAction::WaitAgain
    }
}

/// Which loop of the tuning is running.
#[derive(Debug, Clone, Copy, PartialEq, Eq, Structural)]
pub enum TunerPhase {
    /// Stepping the code up while the measured limit is below the target.
    Raising,
    /// Stepping the code down while the measured limit is above the target.
    Lowering,
    Done,
}

/// What to do after a measurement of the current limit.
#[derive(Debug, Clone, Copy, PartialEq, Eq, Structural)]
pub enum TunerAction {
    /// Step the rheostat up, wait for the wiper, and measure again.
    StepUp,
    /// Step the rheostat down, wait for the wiper, and measure again.
    StepDown,
    /// Raising is over; measure again for lowering.
    Measure,
    /// The rheostat topped out below the target; measure again for lowering.
    ToppedOut,
    /// The rheostat bottomed out above the target; tuning is over.
    BottomedOut,
    /// Tuning is over.
    Finished,
}

/// The code after an action is applied.
pub open spec fn setting_after(action: TunerAction, setting: u8) -> int {
    match action {
        TunerAction::StepUp => setting + 1,
        TunerAction::StepDown => setting - 1,
        _ => setting as int,
    }
}

/// An upper bound on the measurements still to come.
pub open spec fn tuning_budget(phase: TunerPhase, setting: int) -> int {
    match phase {
        TunerPhase::Raising => (CUR_LIMIT_MAX - setting) + CUR_LIMIT_MAX + 3,
        TunerPhase::Lowering => setting + 1,
        TunerPhase::Done => 0,
    }
}

/// Calibrates the charging rheostat against the target limit: raise the
/// code while the measured limit is below the target, then lower it while
/// the limit is above.
pub struct RheostatTuner {
    phase: TunerPhase,
}

impl RheostatTuner {
    pub closed spec fn spec_phase(&self) -> TunerPhase {
        self.phase
    }

    pub fn new() -> (t: Self)
        ensures
            t.spec_phase() == TunerPhase::Raising,
    {
        RheostatTuner { phase: TunerPhase::Raising }
    }

    pub fn is_done(&self) -> (b: bool)
        ensures
            b == (self.spec_phase() == TunerPhase::Done),
    {
        match self.phase {
            TunerPhase::Done => true,
            _ => false,
        }
    }

    /// Decides on a measurement: whether the measured limit is below and
    /// whether it is above the target, at rheostat code `setting`.
    ///
    /// Each decision uses up part of a budget, so tuning ends within
    /// `2 * CUR_LIMIT_MAX + 3` measurements and never steps past either
    /// end of the rheostat.
    pub fn on_measurement(&mut self, below_target: bool, above_target: bool, setting: u8) -> (action:
        TunerAction)
        requires
            setting <= CUR_LIMIT_MAX,
        ensures
            old(self).spec_phase() == TunerPhase::Raising ==> (if below_target {
                if setting >= CUR_LIMIT_MAX {
                    action == TunerAction::ToppedOut && final(self).spec_phase()
                        == TunerPhase::Lowering
                } else {
                    action == TunerAction::StepUp && final(self).spec_phase()
                        == TunerPhase::Raising
                }
            } else {
                action == TunerAction::Measure && final(self).spec_phase() == TunerPhase::Lowering
            }),
            old(self).spec_phase() == TunerPhase::Lowering ==> (if above_target {
                if setting == 0 {
                    action == TunerAction::BottomedOut && final(self).spec_phase()
                        == TunerPhase::Done
                } else {
                    action == TunerAction::StepDown && final(self).spec_phase()
                        == TunerPhase::Lowering
                }
            } else {
                action == TunerAction::Finished && final(self).spec_phase() == TunerPhase::Done
            }),
            old(self).spec_phase() == TunerPhase::Done ==> action == TunerAction::Finished
                && final(self).spec_phase() == TunerPhase::Done,
            0 <= setting_after(action, setting) <= CUR_LIMIT_MAX,
            old(self).spec_phase() != TunerPhase::Done ==> tuning_budget(
                final(self).spec_phase(),
                setting_after(action, setting),
            ) < tuning_budget(old(self).spec_phase(), setting as int),
    {
        match self.phase {
            TunerPhase::Raising => {
                if below_target {
                    // Prevent infinite loops if the rheostat can't raise far enough.
                    if setting >= CUR_LIMIT_MAX {
                        self.phase = TunerPhase::Lowering;
                        TunerAction::ToppedOut
                    } else {
                        TunerAction::StepUp
                    }
                } else {
                    self.phase = TunerPhase::Lowering;
                    TunerAction::Measure
                }
            },
            TunerPhase::Lowering => {
                if above_target {
                    // Prevent infinite loops if the rheostat can't lower far enough.
                    if setting == 0 {
                        self.phase = TunerPhase::Done;
                        TunerAction::BottomedOut
                    } else {
                        TunerAction::StepDown
                    }
                } else {
                    self.phase = TunerPhase::Done;
                    TunerAction::Finished
                }
            },
            TunerPhase::Done => TunerAction::Finished,
        }
    }
}

} // verus!
