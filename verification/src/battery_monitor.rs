//! BQ27427 battery fuel gauge: command spacing, register encoding, block
//! data updates with their checksum, and the state-of-charge calibration.
use crate::i2c::I2CError;
use std::time::Instant;
use vstd::prelude::*;

verus! {

/// Chemical ID for charging at 4.2V (BQ27427 Technical Reference Manual,
/// page 20).
pub const CHEM_ID: u16 = 0x0032;

/// From the EVE 35V datasheet.
pub const BATTERY_DESIGN_CAPACITY: u16 = 3500;

/// Puts the battery monitor in sleep mode during battery operation.
/// This may be exceeded during constant current charging.
pub const SLEEP_CURRENT: u16 = 300;

pub const STATE_SUBCLASS: u8 = 0x52;

/// BQ27427 Technical Reference Manual, page 34.
pub const REGISTERS_SUBCLASS: u8 = 64;

pub const OPCONFIG_OFFSET: u8 = 0;

/// Offset of the design capacity in the state subclass.
pub const DESIGN_CAPACITY_OFFSET: u8 = 0;

/// Offset of the SOCI delta in the state subclass.
pub const SOCI_DELTA_OFFSET: u8 = 20;

/// Offset of the sleep current in the state subclass.
pub const SLEEP_CURRENT_OFFSET: u8 = 23;

/// Default operation configuration (BQ27427 Technical Reference Manual,
/// page 34), bytes 0x64 0x78 in big-endian order.
pub const DEFAULT_OPCONFIG: u16 = 0x6478;

/// Monitor address on the bus (BQ27427 manual pages 7 and 10).
pub const MONITOR_ADDRESS: u8 = 0b1010101;

/// Control subcommand that unseals the configuration (sent twice).
pub const UNSEAL_KEY: u16 = 0x8000;

/// Control subcommand that seals the configuration.
pub const SEAL: u16 = 0x0020;

/// Control subcommand that enters configuration-update mode.
pub const SET_CFGUPDATE: u16 = 0x0013;

/// Control subcommand that reboots the monitor.
pub const SOFT_RESET: u16 = 0x0042;

/// Register that reads back the chemical ID.
pub const CHEM_ID_REGISTER: u8 = 0x08;

/// Configuration-update bit of the low flags byte.
pub const CFGUPDATE_FLAG: u8 = 0x10;

/// Sleep-enable bit of the low operation configuration byte.
pub const SLEEP_BIT: u8 = 0x20;

/// Size of a block of data memory.
pub const BLOCK_SIZE: u8 = 32;

/// Standard commands; all registers are two bytes wide (BQ27427 Technical
/// Reference Manual, page 19).
pub const CONTROL: u8 = 0x00;
pub const TEMPERATURE: u8 = 0x02;
pub const VOLTAGE: u8 = 0x04;
pub const FLAGS: u8 = 0x06;
pub const NOMINAL_AVAILABLE_CAPACITY: u8 = 0x08;
pub const FULL_AVAILABLE_CAPACITY: u8 = 0x0A;
pub const REMAINING_CAPACITY: u8 = 0x0C;
pub const FULL_CHARGE_CAPACITY: u8 = 0x0E;
pub const AVERAGE_CURRENT: u8 = 0x10;
pub const AVERAGE_POWER: u8 = 0x18;
pub const STATE_OF_CHARGE: u8 = 0x1C;
pub const INTERNAL_TEMPERATURE: u8 = 0x1E;
pub const REMAINING_CAPACITY_UNFILTERED: u8 = 0x28;
pub const REMAINING_CAPACITY_FILTERED: u8 = 0x2A;
pub const FULL_CHARGE_CAPACITY_UNFILTERED: u8 = 0x2C;
pub const FULL_CHARGE_CAPACITY_FILTERED: u8 = 0x2E;
pub const STATE_OF_CHARGE_UNFILTERED: u8 = 0x30;

/// Extended commands (BQ27427 Technical Reference Manual, page 19).
pub const DATA_CLASS: u8 = 0x3E;
pub const DATA_BLOCK: u8 = 0x3F;
pub const BLOCK_DATA_START: u8 = 0x40;
pub const BLOCK_DATA_CHECKSUM: u8 = 0x60;
pub const BLOCK_DATA_CONTROL: u8 = 0x61;

/// Spacing between any two commands, in nanoseconds (BQ27427 Technical
/// Reference Manual, page 16).
pub const ALL_COMMAND_SPACING_NANOS: u64 = 66_000;

/// Spacing between a write and a following read, in nanoseconds.
pub const WRITE_READ_COMMAND_SPACING_NANOS: u64 = 2_000_000_000;

/// Spacing inserted between every two commands after a quiet period, in
/// nanoseconds.
pub const TWO_COMMAND_SPACING_NANOS: u64 = 1_000_000_000;

/// Time after a soft reset, in nanoseconds (manual page 18).
pub const SOFT_RESET_DELAY_NANOS: u64 = 1_000_000_000;

/// How many soft-reset delays a configuration flag may take to change.
pub const CFGUPDATE_DEADLINE_MULTIPLIER: u64 = 5;

/// Mandatory wait after entering configuration-update mode, in nanoseconds
/// (Reference Manual page 21: SET_CFGUPDATE).
pub const CFGUPDATE_SETTLE_NANOS: u64 = 1_200_000_000;

/// Length of the forced bus time-out at start-up, in nanoseconds (manual
/// page 15).
pub const FORCE_TIMEOUT_NANOS: u64 = 3_000_000_000;

/// The spacing the monitor needs between two commands, in nanoseconds:
/// after a write a read waits the longest; otherwise a command close to
/// the previous one takes the short spacing and one after a quiet period
/// the two-command spacing.
pub open spec fn needed_spacing(last_write: bool, is_write: bool, time_passed: int) -> int {
    if last_write && !is_write {
        WRITE_READ_COMMAND_SPACING_NANOS as int
    } else if time_passed < 1_000_000_000 {
        ALL_COMMAND_SPACING_NANOS as int
    } else {
        TWO_COMMAND_SPACING_NANOS as int
    }
}

/// The wait required before a command, in nanoseconds, given whether the
/// previous command was a write, whether this one is, and the time since
/// the previous command: what is left of the needed spacing.
pub open spec fn spec_spacing(last_write: bool, is_write: bool, time_passed: int) -> int {
    let spacing = needed_spacing(last_write, is_write, time_passed);
    if spacing > time_passed {
        spacing - time_passed
    } else {
        0
    }
}

/// Nanoseconds from the reading `earlier` to the reading `later`, zero when
/// `later` is not after `earlier`.
pub open spec fn elapsed_nanos(earlier: u128, later: u128) -> int {
    if later >= earlier {
        later - earlier
    } else {
        0
    }
}

/// How long to wait before sending a command, in nanoseconds.
///
/// The spacing might be longer than necessary but is always sufficient;
/// zero is a valid result.
pub fn required_spacing(last_write: bool, is_write: bool, time_passed: u128) -> (nanos: u64)
    ensures
        nanos == spec_spacing(last_write, is_write, time_passed as int),
        nanos <= WRITE_READ_COMMAND_SPACING_NANOS,
{
    let command_spacing: u64 = if last_write && !is_write {
        WRITE_READ_COMMAND_SPACING_NANOS
    } else if time_passed < 1_000_000_000 {
        ALL_COMMAND_SPACING_NANOS
    } else {
        TWO_COMMAND_SPACING_NANOS
    };
    if (command_spacing as u128) > time_passed {
        command_spacing - (time_passed as u64)
    } else {
        0
    }
}

#[verifier::external_type_specification]
#[verifier::external_body]
pub struct ExInstant(Instant);

/// Reads the monotonic clock with `std::time::Instant::now`; nothing is
/// claimed of the reading.
#[verifier::external_body]
fn instant_now() -> Instant {
    Instant::now()
}

/// Nanoseconds from `earlier` to `later` by `Instant::duration_since`
/// (zero when `earlier` is the later of the two); nothing is claimed of
/// the count, which depends on when the instants were read.
#[verifier::external_body]
fn nanos_between(later: &Instant, earlier: &Instant) -> u128 {
    later.duration_since(*earlier).as_nanos()
}

/// Tracks the last command sent to the monitor to space commands.
///
/// Times are clock readings in nanoseconds since the moment the tracker
/// was made.
pub struct CommandSpacing {
    origin: Instant,
    last_command_nanos: u128,
    last_command_write: bool,
}

impl CommandSpacing {
    /// Whether the last command sent was a write.
    pub closed spec fn last_was_write(&self) -> bool {
        self.last_command_write
    }

    /// When the last command was sent, in nanoseconds since the tracker was
    /// made.
    pub closed spec fn last_time(&self) -> u128 {
        self.last_command_nanos
    }

    /// The clock reading that times are measured from.
    pub closed spec fn origin(&self) -> Instant {
        self.origin
    }

    /// A tracker made now, as if a read had just been sent.
    pub fn new() -> (s: Self)
        ensures
            !s.last_was_write(),
            s.last_time() == 0,
    {
        CommandSpacing { origin: instant_now(), last_command_nanos: 0, last_command_write: false }
    }

    /// Records a command sent at `now_nanos` (nanoseconds since the tracker
    /// was made) and returns how long to wait before sending it, in
    /// nanoseconds.
    pub fn next_spacing_at(&mut self, is_write: bool, now_nanos: u128) -> (nanos: u64)
        ensures
            final(self).last_was_write() == is_write,
            final(self).last_time() == now_nanos,
            final(self).origin() == old(self).origin(),
            nanos == spec_spacing(
                old(self).last_was_write(),
                is_write,
                elapsed_nanos(old(self).last_time(), now_nanos),
            ),
    {
        let time_passed: u128 = if now_nanos >= self.last_command_nanos {
            now_nanos - self.last_command_nanos
        } else {
            0
        };
        let nanos = required_spacing(self.last_command_write, is_write, time_passed);
        self.last_command_nanos = now_nanos;
        // Update the new write/read status.
        self.last_command_write = is_write;
        nanos
    }

    /// Updates internal state and returns how long to wait before sending,
    /// in nanoseconds.
    ///
    /// The wait is measured from the previous command, whose time this call
    /// replaces with its own reading of the clock.
    pub fn next_spacing(&mut self, is_write: bool) -> (nanos: u64)
        ensures
            final(self).last_was_write() == is_write,
            final(self).origin() == old(self).origin(),
            nanos == spec_spacing(
                old(self).last_was_write(),
                is_write,
                elapsed_nanos(old(self).last_time(), final(self).last_time()),
            ),
    {
        let now = instant_now();
        let now_nanos = nanos_between(&now, &self.origin);
        self.next_spacing_at(is_write, now_nanos)
    }
}

impl Default for CommandSpacing {
    fn default() -> (s: Self)
        ensures
            !s.last_was_write(),
            s.last_time() == 0,
    {
        Self::new()
    }
}

} // verus!

verus! {

/// The little-endian bytes of a two-byte register value.
pub fn u16_to_le_bytes(data: u16) -> (bytes: [u8; 2])
    ensures
        bytes@[0] == data % 256,
        bytes@[1] == data / 256,
{
    [(data % 256) as u8, (data / 256) as u8]
}

/// A two-byte register value from its little-endian bytes.
pub fn u16_from_le_bytes(lsb: u8, msb: u8) -> (data: u16)
    ensures
        data == msb * 256 + lsb,
{
    (msb as u16) * 256 + (lsb as u16)
}

/// A value split into bytes and joined again is unchanged.
pub proof fn law_u16_roundtrip(data: u16)
    ensures
        (data / 256) * 256 + data % 256 == data,
{
}

/// The two single-byte writes that set a two-byte command: the low byte to
/// `command`, the high byte to the next register.
pub fn u16_command_writes(command: u8, data: u16) -> (writes: [(u8, u8); 2])
    requires
        command < 255,
    ensures
        writes@ == seq![(command, (data % 256) as u8), ((command + 1) as u8, (data / 256) as u8)],
{
    let bytes = u16_to_le_bytes(data);
    let writes: [(u8, u8); 2] = [(command, bytes[0]), (command + 1, bytes[1])];
    assert(writes@ =~= seq![(command, (data % 256) as u8), ((command + 1) as u8, (data / 256) as u8)]);
    writes
}

/// Whether a value of `len` bytes may be written at `offset`: it has to
/// end before the last byte of the 32 byte block that holds `offset`.
pub open spec fn block_write_fits(offset: u8, len: int) -> bool {
    (offset % 32) + len < 32
}

/// Refuses a block write that would reach the last byte of its 32 byte
/// block or run past it.
pub fn check_block_write(offset: u8, len: usize) -> (r: Result<(), I2CError>)
    ensures
        r is Ok <==> block_write_fits(offset, len as int),
        r matches Err(e) ==> e == I2CError::OversizedBlockWrite,
{
    // Can't go beyond the 32 byte block
    if len >= 32 || (offset % 32) as usize + len >= 32 {
        Err(I2CError::OversizedBlockWrite)
    } else {
        Ok(())
    }
}

/// The writes that select the data block holding `offset` in `subclass`:
/// enable block data memory control, access the subclass, set the block.
pub fn block_select_writes(subclass: u8, offset: u8) -> (writes: [(u8, u8); 3])
    ensures
        writes@ == seq![(BLOCK_DATA_CONTROL, 0u8), (DATA_CLASS, subclass), (DATA_BLOCK, offset / 32)],
{
    let writes: [(u8, u8); 3] = [
        (BLOCK_DATA_CONTROL, 0),
        (DATA_CLASS, subclass),
        (DATA_BLOCK, offset / 32),
    ];
    assert(writes@ =~= seq![
        (BLOCK_DATA_CONTROL, 0u8),
        (DATA_CLASS, subclass),
        (DATA_BLOCK, offset / 32),
    ]);
    writes
}

/// The register that holds byte `offset` of the selected block.
pub fn block_data_register(offset: u8) -> (register: u8)
    ensures
        register == BLOCK_DATA_START + offset % 32,
{
    BLOCK_DATA_START + (offset % 32)
}

/// Sum of a sequence of bytes.
pub open spec fn byte_sum(s: Seq<u8>) -> int
    decreases s.len(),
{
    if s.len() == 0 {
        0
    } else {
        byte_sum(s.drop_last()) + s.last()
    }
}

/// The checksum the monitor keeps for a block: 255 minus the byte sum,
/// modulo 256.
pub open spec fn block_checksum(block: Seq<u8>) -> u8 {
    (255 - byte_sum(block) % 256) as u8
}

/// The new checksum after replacing `removed` by `value` (manual page 17).
pub open spec fn spec_blockupdate_checksum(old_checksum: u8, removed: Seq<u8>, value: Seq<u8>) -> u8 {
    (255 - (255 - old_checksum - byte_sum(removed) + byte_sum(value)) % 256) as u8
}

proof fn lemma_byte_sum_take(s: Seq<u8>, i: int)
    requires
        0 <= i < s.len(),
    ensures
        byte_sum(s.take(i + 1)) == byte_sum(s.take(i)) + s[i],
{
    assert(s.take(i + 1).drop_last() =~= s.take(i));
}

/// The block checksum after replacing the bytes `removed` by `value`.
pub fn blockupdate_checksum(old_checksum: u8, removed: &[u8], value: &[u8]) -> (checksum: u8)
    requires
        removed.len() == value.len(),
    ensures
        checksum == spec_blockupdate_checksum(old_checksum, removed@, value@),
{
    let mut checksum_temp: u8 = 255u8.wrapping_sub(old_checksum);
    let mut i: usize = 0;
    while i < removed.len()
        invariant
            i <= removed@.len(),
            checksum_temp == (255 - old_checksum - byte_sum(removed@.take(i as int))) % 256,
        decreases removed.len() - i,
    {
        proof {
            lemma_byte_sum_take(removed@, i as int);
        }
        checksum_temp = checksum_temp.wrapping_sub(removed[i]);
        i += 1;
    }
    assert(removed@.take(removed@.len() as int) =~= removed@);
    let mut j: usize = 0;
    while j < value.len()
        invariant
            j <= value@.len(),
            checksum_temp == (255 - old_checksum - byte_sum(removed@) + byte_sum(
                value@.take(j as int),
            )) % 256,
        decreases value.len() - j,
    {
        proof {
            lemma_byte_sum_take(value@, j as int);
        }
        checksum_temp = checksum_temp.wrapping_add(value[j]);
        j += 1;
    }
    assert(value@.take(value@.len() as int) =~= value@);
    255 - checksum_temp
}

/// The writes that store `value` at `offset` of the selected block and then
/// its checksum.
pub fn blockupdate_writes(offset: u8, value: &[u8], checksum: u8) -> (writes: Vec<(u8, u8)>)
    requires
        block_write_fits(offset, value@.len() as int),
    ensures
        writes@.len() == value@.len() + 1,
        forall|i: int|
            0 <= i < value@.len() ==> #[trigger] writes@[i] == (
                (BLOCK_DATA_START + offset % 32 + i) as u8,
                value@[i],
            ),
        writes@[value@.len() as int] == (BLOCK_DATA_CHECKSUM, checksum),
{
    let inner_register = block_data_register(offset);
    let mut writes: Vec<(u8, u8)> = Vec::new();
    let mut i: usize = 0;
    while i < value.len()
        invariant
            i <= value@.len(),
            inner_register == BLOCK_DATA_START + offset % 32,
            block_write_fits(offset, value@.len() as int),
            writes@.len() == i,
            forall|j: int|
                0 <= j < i ==> #[trigger] writes@[j] == (
                    (BLOCK_DATA_START + offset % 32 + j) as u8,
                    value@[j],
                ),
        decreases value.len() - i,
    {
        writes.push((inner_register + i as u8, value[i]));
        i += 1;
    }
    writes.push((BLOCK_DATA_CHECKSUM, checksum));
    writes
}

proof fn lemma_byte_sum_concat(a: Seq<u8>, b: Seq<u8>)
    ensures
        byte_sum(a + b) == byte_sum(a) + byte_sum(b),
    decreases b.len(),
{
    if b.len() == 0 {
        assert(a + b =~= a);
    } else {
        lemma_byte_sum_concat(a, b.drop_last());
        assert((a + b).drop_last() =~= a + b.drop_last());
    }
}

/// Updating part of a block with a checksum computed from the block's
/// previous checksum leaves the block consistent: the new checksum is the
/// checksum of the updated block.
pub proof fn law_blockupdate_checksum(block: Seq<u8>, start: int, value: Seq<u8>)
    requires
        0 <= start,
        start + value.len() <= block.len(),
    ensures
        spec_blockupdate_checksum(
            block_checksum(block),
            block.subrange(start, start + value.len()),
            value,
        ) == block_checksum(
            block.take(start) + value + block.skip(start + value.len()),
        ),
{
    let n = value.len() as int;
    let before = block.take(start);
    let removed = block.subrange(start, start + n);
    let after = block.skip(start + n);
    assert(block =~= before + removed + after);
    lemma_byte_sum_concat(before + removed, after);
    lemma_byte_sum_concat(before, removed);
    lemma_byte_sum_concat(before + value, after);
    lemma_byte_sum_concat(before, value);
    let s_old = byte_sum(block);
    let s_new = byte_sum(before + value + after);
    assert(s_new == s_old - byte_sum(removed) + byte_sum(value));
    let ck = block_checksum(block);
    assert(255 - ck == s_old % 256);
    assert((s_old % 256 - byte_sum(removed) + byte_sum(value)) % 256 == (s_old - byte_sum(removed)
        + byte_sum(value)) % 256) by {
        vstd::arithmetic::div_mod::lemma_add_mod_noop(
            s_old,
            byte_sum(value) - byte_sum(removed),
            256,
        );
        vstd::arithmetic::div_mod::lemma_add_mod_noop(
            s_old % 256,
            byte_sum(value) - byte_sum(removed),
            256,
        );
        vstd::arithmetic::div_mod::lemma_mod_twice(s_old, 256);
    }
}

/// The low operation configuration byte with sleep enabled or disabled.
pub fn opconfig_with_sleep(opconfig: u8, enable: bool) -> (new_opconfig: u8)
    ensures
        new_opconfig == (if enable { opconfig | SLEEP_BIT } else { opconfig & 0xDF }),
{
    // Mask in a 1 to enable, 0 to disable.
    if enable {
        opconfig | SLEEP_BIT
    } else {
        opconfig & 0xDF
    }
}

/// Changing the sleep setting sets the sleep bit as asked and leaves every
/// other bit of the configuration as it was.
pub proof fn law_opconfig_sleep_bit(opconfig: u8, enable: bool)
    ensures
        ((if enable { opconfig | SLEEP_BIT } else { opconfig & 0xDF }) & SLEEP_BIT != 0) == enable,
        (if enable { opconfig | SLEEP_BIT } else { opconfig & 0xDF }) & 0xDF == opconfig & 0xDF,
{
    assert(((opconfig | 0x20u8) & 0x20u8 != 0) && ((opconfig & 0xDFu8) & 0x20u8 == 0) && ((opconfig
        | 0x20u8) & 0xDFu8 == opconfig & 0xDFu8) && ((opconfig & 0xDFu8) & 0xDFu8 == opconfig
        & 0xDFu8)) by (bit_vector);
}

/// How long the configuration-update flag may take to change, in
/// nanoseconds.
pub const CFGUPDATE_DEADLINE_NANOS: u64 = SOFT_RESET_DELAY_NANOS * CFGUPDATE_DEADLINE_MULTIPLIER;

/// What the wait for the configuration-update flag does after a read.
#[derive(Debug, Clone, Copy, PartialEq, Eq, Structural)]
pub enum CfgupdateAction {
    /// The flag reached the wanted value.
    Done,
    /// Sleep this many nanoseconds, then read again.
    Sleep(u64),
    /// The deadline passed without the flag changing.
    TimedOut,
}

/// The decision after reading the flags `elapsed_nanos` into the wait:
/// stop once the flag is at the wanted value; otherwise give up once the
/// deadline has passed, or sleep half of the time left so that polling
/// speeds up as the deadline comes near.
pub fn cfgupdate_step(reached: bool, elapsed_nanos: u64) -> (a: CfgupdateAction)
    ensures
        reached ==> a == CfgupdateAction::Done,
        !reached && elapsed_nanos >= CFGUPDATE_DEADLINE_NANOS ==> a == CfgupdateAction::TimedOut,
        !reached && elapsed_nanos < CFGUPDATE_DEADLINE_NANOS ==> a == CfgupdateAction::Sleep(
            ((CFGUPDATE_DEADLINE_NANOS - elapsed_nanos) / 2) as u64,
        ),
{
    if reached {
        CfgupdateAction::Done
    } else if elapsed_nanos >= CFGUPDATE_DEADLINE_NANOS {
        CfgupdateAction::TimedOut
    } else {
        CfgupdateAction::Sleep((CFGUPDATE_DEADLINE_NANOS - elapsed_nanos) / 2)
    }
}

/// Whether the configuration-update flag in the low flags byte is at `set`.
pub fn cfgupdate_reached(lower_flag: u8, set: bool) -> (b: bool)
    ensures
        b == (((lower_flag & CFGUPDATE_FLAG) != 0) == set),
{
    let lower_flag_true = (lower_flag & CFGUPDATE_FLAG) != 0;
    lower_flag_true == set
}

} // verus!

verus! {

/// Lowest recorded state of charge assumed on a fresh system: 100%
/// guarantees that lower percents get recorded. New systems are expected to
/// do a full charge and discharge cycle; until then the remaining charge is
/// underestimated.
pub const DEFAULT_SOC_OFFSET: u8 = 100;

/// Maximum charge assumed on a fresh system: 80% for improved battery life.
pub const DEFAULT_SOC_MAX: u8 = 80;

/// The adjusted state of charge: the raw charge above the lowest recorded
/// charge, as a percent of the range up to the configured maximum (the
/// result kept to its low byte).
pub open spec fn spec_adjusted_soc(raw_charge: u8, soc_offset: u8, soc_max: u8) -> u8 {
    ((((raw_charge - soc_offset) * 100) / (soc_max - soc_offset)) % 256) as u8
}

/// What a state-of-charge reading calls for.
#[derive(Debug, Clone, Copy, PartialEq, Eq, Structural)]
pub enum SocReading {
    /// The charge is above the lowest recorded charge: the adjusted percent.
    Adjusted(u8),
    /// A new lowest charge reached while discharging: record it, then
    /// report 0%.
    NewMinimum(u8),
    /// At or below the lowest recorded charge: 0%.
    Empty,
}

/// Calibration of the raw state of charge against the lowest charge
/// recorded and the configured maximum charge.
pub struct SocCalibration {
    pub soc_offset: u8,
    pub soc_max: u8,
}

impl SocCalibration {
    pub fn new(soc_offset: u8, soc_max: u8) -> (c: Self)
        ensures
            c.soc_offset == soc_offset,
            c.soc_max == soc_max,
    {
        SocCalibration { soc_offset, soc_max }
    }

    /// The adjusted state of charge for a raw reading.
    pub fn state_of_charge(&self, raw_charge: u8, is_discharging: bool) -> (r: SocReading)
        requires
            raw_charge > self.soc_offset ==> self.soc_max > self.soc_offset,
        ensures
            raw_charge > self.soc_offset ==> r == SocReading::Adjusted(
                spec_adjusted_soc(raw_charge, self.soc_offset, self.soc_max),
            ),
            raw_charge <= self.soc_offset && is_discharging ==> r == SocReading::NewMinimum(
                raw_charge,
            ),
            raw_charge <= self.soc_offset && !is_discharging ==> r == SocReading::Empty,
    {
        if raw_charge > self.soc_offset {
            // Extension allows for the following multiplication
            let extended_num = (raw_charge - self.soc_offset) as u16;
            // Going to do integer division by max soc, want percent * 100.
            let adjusted_num = extended_num * 100;
            let percent = adjusted_num / ((self.soc_max - self.soc_offset) as u16);
            SocReading::Adjusted((percent % 256) as u8)
        } else if is_discharging {
            // Have to update for the new minimum state of charge.
            SocReading::NewMinimum(raw_charge)
        } else {
            SocReading::Empty
        }
    }

    /// Records a newly reached lowest charge.
    pub fn record_minimum(&mut self, raw_charge: u8)
        ensures
            final(self).soc_offset == raw_charge,
            final(self).soc_max == old(self).soc_max,
    {
        self.soc_offset = raw_charge;
    }

    /// Get the set full charge percent.
    pub fn state_of_charge_max(&self) -> (m: u8)
        ensures
            m == self.soc_max,
    {
        self.soc_max
    }
}

impl SocReading {
    /// The percent reported for a reading.
    pub fn percent(self) -> (p: u8)
        ensures
            p == (match self {
                SocReading::Adjusted(p) => p,
                _ => 0,
            }),
    {
        match self {
            SocReading::Adjusted(p) => p,
            _ => 0,
        }
    }
}

/// Between the lowest recorded charge and the configured maximum, the
/// adjusted state of charge is a percent that grows with the raw charge and
/// reaches 100 at the maximum.
pub proof fn law_adjusted_soc_scale(raw1: u8, raw2: u8, soc_offset: u8, soc_max: u8)
    requires
        soc_offset < raw1 <= raw2 <= soc_max,
    ensures
        spec_adjusted_soc(raw1, soc_offset, soc_max) <= spec_adjusted_soc(raw2, soc_offset, soc_max)
            <= 100,
        raw2 == soc_max ==> spec_adjusted_soc(raw2, soc_offset, soc_max) == 100,
{
    let d = soc_max - soc_offset;
    let n1 = (raw1 - soc_offset) * 100;
    let n2 = (raw2 - soc_offset) * 100;
    assert(0 < d);
    assert(n1 <= n2 <= d * 100) by (nonlinear_arith)
        requires
            n1 == (raw1 - soc_offset) * 100,
            n2 == (raw2 - soc_offset) * 100,
            d == soc_max - soc_offset,
            soc_offset < raw1 <= raw2 <= soc_max,
    ;
    assert(n1 / d <= n2 / d <= 100) by (nonlinear_arith)
        requires
            0 <= n1 <= n2 <= d * 100,
            d > 0,
    ;
    assert(raw2 == soc_max ==> n2 / d == 100) by (nonlinear_arith)
        requires
            n2 == (raw2 - soc_offset) * 100,
            d == soc_max - soc_offset,
            d > 0,
    ;
}

} // verus!

verus! {

/// The state of charge held in the low byte of its register.
pub fn percent_from_register(value: u16) -> (p: u8)
    ensures
        p == value % 256,
{
    (value % 256) as u8
}

/// One step of a configuration routine of the monitor.
#[derive(Debug, Clone, Copy, PartialEq, Eq, Structural)]
pub enum ConfigStep {
    /// Hold the bus low to force a communication time-out.
    ForceTimeout,
    /// Make the configuration writable: the unseal key, written twice.
    Unseal,
    /// Enter configuration-update mode, wait out the mandatory delay, and
    /// wait for the update flag to be set.
    SetCfgupdate,
    /// Read the low operation configuration byte and write it back with
    /// sleep enabled or disabled.
    SleepMode(bool),
    /// Write a two-byte value into a block of data memory.
    BlockValue { subclass: u8, offset: u8, value: u16 },
    /// Write a control subcommand.
    Control(u16),
    /// Reboot the monitor and wait for the update flag to clear.
    SoftReset,
    /// Make the configuration read-only.
    Seal,
}

/// The start-up routine: force a time-out, unseal, enter update mode, turn
/// sleep off so other devices get unstretched clocks, program the design
/// capacity, chemistry, sleep current and SOCI delta, reboot, seal.
pub open spec fn spec_init_steps() -> Seq<ConfigStep> {
    seq![
        ConfigStep::ForceTimeout,
        ConfigStep::Unseal,
        ConfigStep::SetCfgupdate,
        ConfigStep::SleepMode(false),
        ConfigStep::BlockValue {
            subclass: STATE_SUBCLASS,
            offset: DESIGN_CAPACITY_OFFSET,
            value: BATTERY_DESIGN_CAPACITY,
        },
        ConfigStep::Control(CHEM_ID),
        ConfigStep::BlockValue {
            subclass: STATE_SUBCLASS,
            offset: SLEEP_CURRENT_OFFSET,
            value: SLEEP_CURRENT,
        },
        ConfigStep::BlockValue { subclass: STATE_SUBCLASS, offset: SOCI_DELTA_OFFSET, value: 1 },
        ConfigStep::SoftReset,
        ConfigStep::Seal,
    ]
}

/// The steps that switch the monitor's sleep mode.
pub open spec fn spec_sleep_steps(enable: bool) -> Seq<ConfigStep> {
    seq![
        ConfigStep::Unseal,
        ConfigStep::SetCfgupdate,
        ConfigStep::SleepMode(enable),
        ConfigStep::SoftReset,
        ConfigStep::Seal,
    ]
}

/// The steps that write the default operation configuration.
pub open spec fn spec_default_opconfig_steps() -> Seq<ConfigStep> {
    seq![
        ConfigStep::Unseal,
        ConfigStep::BlockValue {
            subclass: REGISTERS_SUBCLASS,
            offset: OPCONFIG_OFFSET,
            value: DEFAULT_OPCONFIG,
        },
        ConfigStep::Seal,
    ]
}

/// Performs the full initialization sequence.
pub fn init_steps() -> (steps: Vec<ConfigStep>)
    ensures
        steps@ == spec_init_steps(),
{
    let steps = vec![
        ConfigStep::ForceTimeout,
        ConfigStep::Unseal,
        ConfigStep::SetCfgupdate,
        ConfigStep::SleepMode(false),
        ConfigStep::BlockValue {
            subclass: STATE_SUBCLASS,
            offset: DESIGN_CAPACITY_OFFSET,
            value: BATTERY_DESIGN_CAPACITY,
        },
        ConfigStep::Control(CHEM_ID),
        ConfigStep::BlockValue {
            subclass: STATE_SUBCLASS,
            offset: SLEEP_CURRENT_OFFSET,
            value: SLEEP_CURRENT,
        },
        ConfigStep::BlockValue { subclass: STATE_SUBCLASS, offset: SOCI_DELTA_OFFSET, value: 1 },
        ConfigStep::SoftReset,
        ConfigStep::Seal,
    ];
    assert(steps@ =~= spec_init_steps());
    steps
}

/// Switches the monitor's sleep mode.
pub fn sleep_steps(enable: bool) -> (steps: Vec<ConfigStep>)
    ensures
        steps@ == spec_sleep_steps(enable),
{
    let steps = vec![
        ConfigStep::Unseal,
        ConfigStep::SetCfgupdate,
        ConfigStep::SleepMode(enable),
        ConfigStep::SoftReset,
        ConfigStep::Seal,
    ];
    assert(steps@ =~= spec_sleep_steps(enable));
    steps
}

/// Writes the default operation configuration; the defaults are
/// unmodified, but being explicit doesn't hurt.
pub fn default_opconfig_steps() -> (steps: Vec<ConfigStep>)
    ensures
        steps@ == spec_default_opconfig_steps(),
{
    let steps = vec![
        ConfigStep::Unseal,
        ConfigStep::BlockValue {
            subclass: REGISTERS_SUBCLASS,
            offset: OPCONFIG_OFFSET,
            value: DEFAULT_OPCONFIG,
        },
        ConfigStep::Seal,
    ];
    assert(steps@ =~= spec_default_opconfig_steps());
    steps
}

/// One bus action of a configuration step.
#[derive(Debug, Clone, Copy, PartialEq, Eq, Structural)]
pub enum BusAction {
    /// Hold the bus low for this many nanoseconds.
    HoldBusLow(u64),
    /// Write this control subcommand to the two control registers.
    ControlWord(u16),
    /// Wait this many nanoseconds.
    Settle(u64),
    /// Poll until the configuration-update flag is at this value.
    WaitCfgupdate(bool),
    /// Read the low operation configuration byte and write it back with
    /// sleep enabled or disabled.
    RewriteSleepBit(bool),
    /// Write a two-byte little-endian value into a block of data memory.
    WriteBlock { subclass: u8, offset: u8, value: u16 },
}

/// The bus actions that carry out a configuration step.
pub open spec fn spec_step_actions(step: ConfigStep) -> Seq<BusAction> {
    match step {
        ConfigStep::ForceTimeout => seq![BusAction::HoldBusLow(FORCE_TIMEOUT_NANOS)],
        ConfigStep::Unseal => seq![BusAction::ControlWord(UNSEAL_KEY), BusAction::ControlWord(UNSEAL_KEY)],
        ConfigStep::SetCfgupdate => seq![
            BusAction::ControlWord(SET_CFGUPDATE),
            BusAction::Settle(CFGUPDATE_SETTLE_NANOS),
            BusAction::WaitCfgupdate(true),
        ],
        ConfigStep::SleepMode(enable) => seq![BusAction::RewriteSleepBit(enable)],
        ConfigStep::BlockValue { subclass, offset, value } => seq![
            BusAction::WriteBlock { subclass, offset, value },
        ],
        ConfigStep::Control(subcommand) => seq![BusAction::ControlWord(subcommand)],
        ConfigStep::SoftReset => seq![BusAction::ControlWord(SOFT_RESET), BusAction::WaitCfgupdate(false)],
        ConfigStep::Seal => seq![BusAction::ControlWord(SEAL)],
    }
}

/// What a configuration step sends: unsealing writes the key twice,
/// entering update mode waits out the settling time and then for the flag
/// to be set, and a reboot waits for it to clear.
pub fn step_actions(step: ConfigStep) -> (actions: Vec<BusAction>)
    ensures
        actions@ == spec_step_actions(step),
{
    let actions = match step {
        ConfigStep::ForceTimeout => vec![BusAction::HoldBusLow(FORCE_TIMEOUT_NANOS)],
        ConfigStep::Unseal => vec![BusAction::ControlWord(UNSEAL_KEY), BusAction::ControlWord(UNSEAL_KEY)],
        ConfigStep::SetCfgupdate => vec![
            BusAction::ControlWord(SET_CFGUPDATE),
            BusAction::Settle(CFGUPDATE_SETTLE_NANOS),
            BusAction::WaitCfgupdate(true),
        ],
        ConfigStep::SleepMode(enable) => vec![BusAction::RewriteSleepBit(enable)],
        ConfigStep::BlockValue { subclass, offset, value } => vec![
            BusAction::WriteBlock { subclass, offset, value },
        ],
        ConfigStep::Control(subcommand) => vec![BusAction::ControlWord(subcommand)],
        ConfigStep::SoftReset => vec![BusAction::ControlWord(SOFT_RESET), BusAction::WaitCfgupdate(false)],
        ConfigStep::Seal => vec![BusAction::ControlWord(SEAL)],
    };
    assert(actions@ =~= spec_step_actions(step));
    actions
}

/// Each bus action of a step carries the step's own values: a sleep-mode
/// step rewrites the sleep bit to its own setting, a block step writes its
/// own subclass, offset and value, a control step writes its own
/// subcommand; unsealing writes the unseal key twice and nothing else;
/// only entering update mode waits for the flag to be set, after writing
/// SET_CFGUPDATE and settling 1.2 s, and only a reboot waits for it to
/// clear, after writing SOFT_RESET.
pub proof fn law_step_actions_follow_step(step: ConfigStep)
    ensures
        forall|e: bool|
            spec_step_actions(step).contains(BusAction::RewriteSleepBit(e)) <==> step
                == ConfigStep::SleepMode(e),
        forall|subclass: u8, offset: u8, value: u16|
            spec_step_actions(step).contains(BusAction::WriteBlock { subclass, offset, value })
                <==> step == (ConfigStep::BlockValue { subclass, offset, value }),
        step matches ConfigStep::Control(c) ==> spec_step_actions(step) == seq![BusAction::ControlWord(c)],
        step == ConfigStep::Unseal ==> spec_step_actions(step).len() == 2 && spec_step_actions(step)[0]
            == BusAction::ControlWord(0x8000) && spec_step_actions(step)[1] == BusAction::ControlWord(0x8000),
        spec_step_actions(step).contains(BusAction::WaitCfgupdate(true)) <==> step
            == ConfigStep::SetCfgupdate,
        spec_step_actions(step).contains(BusAction::WaitCfgupdate(false)) <==> step
            == ConfigStep::SoftReset,
        step == ConfigStep::SetCfgupdate ==> spec_step_actions(step) == seq![
            BusAction::ControlWord(0x0013),
            BusAction::Settle(1_200_000_000),
            BusAction::WaitCfgupdate(true),
        ],
        step == ConfigStep::SoftReset ==> spec_step_actions(step) == seq![
            BusAction::ControlWord(0x0042),
            BusAction::WaitCfgupdate(false),
        ],
        step == ConfigStep::Seal ==> spec_step_actions(step) == seq![BusAction::ControlWord(0x0020)],
        step == ConfigStep::ForceTimeout ==> spec_step_actions(step) == seq![
            BusAction::HoldBusLow(3_000_000_000),
        ],
{
    let a = spec_step_actions(step);
    assert forall|e: bool| a.contains(BusAction::RewriteSleepBit(e)) <==> step == ConfigStep::SleepMode(e) by {
        if step == ConfigStep::SleepMode(e) {
            assert(a[0] == BusAction::RewriteSleepBit(e));
        }
    }
    assert forall|subclass: u8, offset: u8, value: u16|
        a.contains(BusAction::WriteBlock { subclass, offset, value }) <==> step == (ConfigStep::BlockValue { subclass, offset, value }) by {
        if step == (ConfigStep::BlockValue { subclass, offset, value }) {
            assert(a[0] == BusAction::WriteBlock { subclass, offset, value });
        }
    }
    if step == ConfigStep::SetCfgupdate {
        assert(a[2] == BusAction::WaitCfgupdate(true));
    }
    if step == ConfigStep::SoftReset {
        assert(a[1] == BusAction::WaitCfgupdate(false));
    }
}

/// Start-up turns the monitor's sleep mode off and never on, the default
/// routine leaves it alone, and the sleep routine sets it to what was asked.
pub proof fn law_routines_sleep_setting(enable: bool)
    ensures
        spec_init_steps().contains(ConfigStep::SleepMode(false)),
        !spec_init_steps().contains(ConfigStep::SleepMode(true)),
        spec_sleep_steps(enable).contains(ConfigStep::SleepMode(enable)),
        !spec_sleep_steps(enable).contains(ConfigStep::SleepMode(!enable)),
        forall|e: bool| !spec_default_opconfig_steps().contains(ConfigStep::SleepMode(e)),
{
    assert(spec_init_steps()[3] == ConfigStep::SleepMode(false));
    assert(spec_sleep_steps(enable)[2] == ConfigStep::SleepMode(enable));
}

/// Every configuration routine opens by unsealing and closes by sealing,
/// so the configuration is left read-only; every routine that enters
/// update mode reboots the monitor before sealing.
pub proof fn law_config_routines_sealed(enable: bool)
    ensures
        ({
            let routines = seq![
                spec_init_steps(),
                spec_sleep_steps(enable),
                spec_default_opconfig_steps(),
            ];
            forall|r: int|
                0 <= r < 3 ==> {
                    let steps = #[trigger] routines[r];
                    &&& steps.contains(ConfigStep::Unseal)
                    &&& steps.last() == ConfigStep::Seal
                    &&& forall|i: int|
                        0 <= i < steps.len() && steps[i] == ConfigStep::SetCfgupdate ==> exists|j: int|
                            i < j < steps.len() - 1 && steps[j] == ConfigStep::SoftReset
                }
        }),
{
    let routines = seq![spec_init_steps(), spec_sleep_steps(enable), spec_default_opconfig_steps()];
    let a = spec_init_steps();
    let b = spec_sleep_steps(enable);
    let c = spec_default_opconfig_steps();
    assert(a[1] == ConfigStep::Unseal && a[8] == ConfigStep::SoftReset);
    assert(b[0] == ConfigStep::Unseal && b[3] == ConfigStep::SoftReset);
    assert(c[0] == ConfigStep::Unseal);
    assert forall|r: int| 0 <= r < 3 implies {
        let steps = #[trigger] routines[r];
        &&& steps.contains(ConfigStep::Unseal)
        &&& steps.last() == ConfigStep::Seal
        &&& forall|i: int|
            0 <= i < steps.len() && steps[i] == ConfigStep::SetCfgupdate ==> exists|j: int|
                i < j < steps.len() - 1 && steps[j] == ConfigStep::SoftReset
    } by {
        if r == 0 {
            assert(routines[r] == a);
            assert forall|i: int| 0 <= i < a.len() && a[i] == ConfigStep::SetCfgupdate implies exists|j: int|
                i < j < a.len() - 1 && a[j] == ConfigStep::SoftReset by {
                assert(a[8] == ConfigStep::SoftReset);
            }
        } else if r == 1 {
            assert(routines[r] == b);
            assert forall|i: int| 0 <= i < b.len() && b[i] == ConfigStep::SetCfgupdate implies exists|j: int|
                i < j < b.len() - 1 && b[j] == ConfigStep::SoftReset by {
                assert(b[3] == ConfigStep::SoftReset);
            }
        } else {
            assert(routines[r] == c);
        }
    }
}

} // verus!

verus! {

/// The wait is always sufficient and never longer than needed: the time
/// already passed plus the wait covers the needed spacing, and no wait is
/// asked once the spacing has passed.
pub proof fn law_spacing_sufficient(last_write: bool, is_write: bool, time_passed: int)
    requires
        0 <= time_passed,
    ensures
        time_passed + spec_spacing(last_write, is_write, time_passed) >= needed_spacing(
            last_write,
            is_write,
            time_passed,
        ),
        time_passed >= needed_spacing(last_write, is_write, time_passed) ==> spec_spacing(
            last_write,
            is_write,
            time_passed,
        ) == 0,
        spec_spacing(last_write, is_write, time_passed) <= needed_spacing(
            last_write,
            is_write,
            time_passed,
        ),
{
}

/// The spacing rules of the monitor, in nanoseconds: after a write, a read
/// waits until 2 s have passed since the write, however long ago it was;
/// any other command waits until 66 us have passed, and needs no wait at
/// all once 1 s has passed. No wait is ever longer than 2 s.
pub proof fn law_spacing_rules(last_write: bool, is_write: bool, time_passed: int)
    requires
        0 <= time_passed,
    ensures
        last_write && !is_write ==> time_passed + spec_spacing(last_write, is_write, time_passed)
            >= 2_000_000_000,
        last_write && !is_write && time_passed < 2_000_000_000 ==> spec_spacing(
            last_write,
            is_write,
            time_passed,
        ) == 2_000_000_000 - time_passed,
        last_write && !is_write && time_passed >= 2_000_000_000 ==> spec_spacing(
            last_write,
            is_write,
            time_passed,
        ) == 0,
        !(last_write && !is_write) && time_passed < 66_000 ==> spec_spacing(
            last_write,
            is_write,
            time_passed,
        ) == 66_000 - time_passed,
        !(last_write && !is_write) && time_passed >= 66_000 ==> spec_spacing(
            last_write,
            is_write,
            time_passed,
        ) == 0,
        time_passed + spec_spacing(last_write, is_write, time_passed) >= 66_000,
        0 <= spec_spacing(last_write, is_write, time_passed) <= 2_000_000_000,
{
}

/// A read that follows a write, recorded at clock readings `write_at` and
/// then `read_at`, is sent no earlier than 2 s after the write.
pub proof fn law_read_waits_after_write(write_at: u128, read_at: u128)
    requires
        write_at <= read_at,
    ensures
        read_at + spec_spacing(true, false, elapsed_nanos(write_at, read_at)) >= write_at
            + 2_000_000_000,
{
}

} // verus!
