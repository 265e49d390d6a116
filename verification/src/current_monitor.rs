//! MCP3204 analog-to-digital converter framing and USB Type-C current
//! advertisement levels.
use vstd::prelude::*;

verus! {

/// Channel selector bits; only the top two bits of the second request
/// byte choose the channel.
pub type ChannelId = u8;

/// Packet size for a full communication.
pub const REQUEST_LEN: usize = 3;

/// Request single line reading with the ignored D2 bit set.
pub const START_SINGLE: u8 = 7;

pub const CH0: ChannelId = 0;
pub const CH1: ChannelId = 64;
pub const CH2: ChannelId = 128;
pub const CH3: ChannelId = 192;

/// The configuration channel pins of the USB-C port.
pub const CC1: ChannelId = CH2;
pub const CC2: ChannelId = CH3;

/// High and low taps of the charger current-limit divider.
pub const CHRG_DIVH: ChannelId = CH1;
pub const CHRG_DIVL: ChannelId = CH0;

/// Largest value of the 12-bit converter.
pub const ADC_MAX: u16 = 4095;

/// Generates the bytes written to read an ADC channel.
pub fn request(id: ChannelId) -> (req: [u8; 3])
    ensures
        req@ == seq![START_SINGLE, id, 0u8],
{
    // Last line is ignored, 0 avoids a line change.
    let req: [u8; 3] = [START_SINGLE, id, 0];
    assert(req@ =~= seq![START_SINGLE, id, 0u8]);
    req
}

/// The 12-bit sample carried in the last two bytes of a response.
pub open spec fn spec_adc_value(response: Seq<u8>) -> int {
    (response[1] % 16) * 256 + response[2]
}

/// Extracts the 12-bit sample from a converter response; the first four
/// bits of the second byte are not part of the sample.
pub fn adc_from_response(response: [u8; 3]) -> (val: u16)
    ensures
        val == spec_adc_value(response@),
        val <= ADC_MAX,
{
    let b1: u8 = response[1];
    let lo: u8 = response[2];
    let hi: u8 = b1 & 0x0F;
    assert(hi == b1 % 16) by (bit_vector)
        requires hi == b1 & 0x0F;
    let val: u16 = (hi as u16) * 256 + (lo as u16);
    val
}

/// The larger of the two configuration-channel samples; the port
/// advertises its current on whichever line is connected.
pub fn cc_sample(cc1: u16, cc2: u16) -> (val: u16)
    ensures
        val == (if cc1 >= cc2 { cc1 } else { cc2 }),
{
    if cc1 >= cc2 { cc1 } else { cc2 }
}

/// Current advertisement from the USB Type-C specification.
#[derive(Debug, Clone, Copy, PartialEq, Eq, Structural)]
pub enum AmpLimit {
    PreConnect,
    Standard,
    OneHalf,
    Three,
}

/// Milliamps allowed by each advertisement level.
pub open spec fn spec_milliamps(limit: AmpLimit) -> u16 {
    match limit {
        AmpLimit::PreConnect => 100,
        AmpLimit::Standard => 500,
        AmpLimit::OneHalf => 1500,
        AmpLimit::Three => 3000,
    }
}

impl AmpLimit {
    pub fn to_milliamps(self) -> (ma: u16)
        ensures
            ma == spec_milliamps(self),
    {
        match self {
            AmpLimit::PreConnect => 100,
            AmpLimit::Standard => 500,
            AmpLimit::OneHalf => 1500,
            AmpLimit::Three => 3000,
        }
    }
}

} // verus!
