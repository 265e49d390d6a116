//! USB gadget power budget and the nine byte keyboard report of the
//! gadget bring-up program.
use vstd::prelude::*;

verus! {

/// Charging current, from R_{ISET}.
pub const MAX_CHARGE_MA: u16 = 1600;

/// System current, from R_{OLIM}.
pub const MAX_SYSTEM_MA: u16 = 200;

/// Current requested by the battery configuration: the charging current,
/// plus the system current when a second configuration is offered.
pub fn battery_config_max_power(has_secondary: bool) -> (ma: u16)
    ensures
        ma == (if has_secondary { MAX_CHARGE_MA + MAX_SYSTEM_MA } else { MAX_CHARGE_MA as int }),
{
    if !has_secondary {
        MAX_CHARGE_MA
    } else {
        MAX_CHARGE_MA + MAX_SYSTEM_MA
    }
}

/// Current requested by the secondary (keyboard) configuration.
pub fn secondary_config_max_power() -> (ma: u16)
    ensures
        ma == MAX_SYSTEM_MA,
{
    MAX_SYSTEM_MA
}

/// Current requested by the stand-alone keyboard configuration.
pub fn keyboard_config_max_power() -> (ma: u16)
    ensures
        ma == MAX_CHARGE_MA + MAX_SYSTEM_MA,
{
    MAX_CHARGE_MA + MAX_SYSTEM_MA
}

/// Keyboard report with a modifier byte, reserved and LED bytes, and six
/// keycodes.
pub struct KeyboardReport {
    pub modifier: u8,
    pub keycodes: [u8; 6],
}

/// The nine bytes sent for a report: modifier, two zero bytes, keycodes.
pub open spec fn report_bytes(modifier: u8, keycodes: Seq<u8>) -> Seq<u8> {
    seq![modifier, 0u8, 0u8] + keycodes
}

impl KeyboardReport {
    pub fn new() -> (r: Self)
        ensures
            r.modifier == 0,
            r.keycodes@ == seq![0u8, 0u8, 0u8, 0u8, 0u8, 0u8],
    {
        let r = KeyboardReport { modifier: 0, keycodes: [0u8, 0u8, 0u8, 0u8, 0u8, 0u8] };
        assert(r.keycodes@ =~= seq![0u8, 0u8, 0u8, 0u8, 0u8, 0u8]);
        r
    }

    /// Serializes the report; the reserved and LED bytes are always zero.
    pub fn full(&self) -> (bytes: [u8; 9])
        ensures
            bytes@ == report_bytes(self.modifier, self.keycodes@),
    {
        let k = self.keycodes;
        let bytes: [u8; 9] = [self.modifier, 0, 0, k[0], k[1], k[2], k[3], k[4], k[5]];
        assert(bytes@ =~= report_bytes(self.modifier, self.keycodes@));
        bytes
    }
}

impl Default for KeyboardReport {
    fn default() -> (r: Self)
        ensures
            r.modifier == 0,
            r.keycodes@ == seq![0u8, 0u8, 0u8, 0u8, 0u8, 0u8],
    {
        Self::new()
    }
}

} // verus!
