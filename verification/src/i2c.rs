//! Framing of the software (bit-banged) I2C bus: address bytes, the order
//! in which bits go on the data line, and the sequence of bus operations of
//! a write or a register read.
use vstd::prelude::*;

verus! {

/// Failures of the bus and of the devices on it.
#[derive(Debug, Clone, Copy, PartialEq, Eq, Structural)]
pub enum I2CError {
    /// NACK from slave.
    Nack,
    /// A block write that does not fit in a 32 byte data block.
    OversizedBlockWrite,
    /// A configuration-update flag that did not reach its value in time.
    CfgupdateTimeout,
}

impl I2CError {
    pub fn nack() -> (e: Self)
        ensures
            e == I2CError::Nack,
    {
        I2CError::Nack
    }
}

/// Clock pulses sent with the data line high to free a stuck bus.
pub const RESET_PULSES: usize = 9;

/// Nanoseconds in a second.
pub const NANOS_PER_SEC: u64 = 1_000_000_000;

/// Time a line is held for one edge of the clock: half a clock period.
pub fn line_hold_nanos(frequency: u32) -> (nanos: u64)
    requires
        0 < frequency <= u32::MAX / 2,
    ensures
        nanos == NANOS_PER_SEC as int / (2 * frequency as int),
{
    // Frequency is doubled to get the duration for a single edge.
    NANOS_PER_SEC / ((frequency * 2) as u64)
}

/// The address byte that opens a write: the address with a 0 in the low
/// bit.
pub fn write_address(device_address: u8) -> (b: u8)
    ensures
        b == (device_address * 2) % 256,
{
    let b = device_address << 1u8;
    assert(b == (device_address * 2) % 256) by (bit_vector)
        requires
            b == device_address << 1u8,
    ;
    b
}

/// The address byte that opens a read: the address with a 1 in the low
/// bit.
pub fn read_address(device_address: u8) -> (b: u8)
    ensures
        b == (device_address * 2) % 256 + 1,
{
    let b = (device_address << 1u8) | 0x01;
    assert(b == (device_address * 2) % 256 + 1) by (bit_vector)
        requires
            b == (device_address << 1u8) | 0x01,
    ;
    b
}

/// Bit `i` of `byte` counting from the most significant bit.
pub open spec fn msb_bit(byte: u8, i: int) -> u8 {
    (byte >> ((7 - i) as u8)) & 1u8
}

/// The bits of a byte in the order they go on the data line, most
/// significant first.
pub fn byte_bits(byte: u8) -> (bits: [u8; 8])
    ensures
        forall|i: int| 0 <= i < 8 ==> #[trigger] bits@[i] == msb_bit(byte, i),
{
    let mut bits: [u8; 8] = [0u8; 8];
    let mut mask: u8 = 0b1000_0000;
    let mut i: usize = 0;
    while i < 8
        invariant
            i <= 8,
            i < 8 ==> mask == mask_for(i as int),
            forall|j: int| 0 <= j < i ==> bits@[j] == msb_bit(byte, j),
        decreases 8 - i,
    {
        // Isolates the particular bit as 0 or 1.
        let bit: u8 = if (byte & mask) != 0 {
            1
        } else {
            0
        };
        proof {
            lemma_mask_bit(byte, i as int);
        }
        bits[i] = bit;
        // Shift mask to the next bit
        let old_mask = mask;
        mask = mask >> 1u8;
        proof {
            lemma_mask_shift(old_mask, mask, i as int);
        }
        i += 1;
    }
    bits
}

/// The mask that isolates bit `i`, counting from the most significant.
pub open spec fn mask_for(i: int) -> u8 {
    if i == 0 {
        128
    } else if i == 1 {
        64
    } else if i == 2 {
        32
    } else if i == 3 {
        16
    } else if i == 4 {
        8
    } else if i == 5 {
        4
    } else if i == 6 {
        2
    } else {
        1
    }
}

proof fn lemma_mask_shift(old_mask: u8, mask: u8, i: int)
    requires
        0 <= i < 8,
        old_mask == mask_for(i),
        mask == old_mask >> 1u8,
    ensures
        i + 1 < 8 ==> mask == mask_for(i + 1),
{
    assert(128u8 >> 1u8 == 64u8 && 64u8 >> 1u8 == 32u8 && 32u8 >> 1u8 == 16u8 && 16u8 >> 1u8 == 8u8
        && 8u8 >> 1u8 == 4u8 && 4u8 >> 1u8 == 2u8 && 2u8 >> 1u8 == 1u8) by (bit_vector);
}

proof fn lemma_mask_bit(byte: u8, i: int)
    requires
        0 <= i < 8,
    ensures
        ((byte & mask_for(i)) != 0) == (msb_bit(byte, i) == 1),
        msb_bit(byte, i) <= 1,
{
    if i == 0 {
        assert(((byte & 128u8) != 0) == ((byte >> 7u8) & 1u8 == 1) && (byte >> 7u8) & 1u8 <= 1)
            by (bit_vector);
    } else if i == 1 {
        assert(((byte & 64u8) != 0) == ((byte >> 6u8) & 1u8 == 1) && (byte >> 6u8) & 1u8 <= 1)
            by (bit_vector);
    } else if i == 2 {
        assert(((byte & 32u8) != 0) == ((byte >> 5u8) & 1u8 == 1) && (byte >> 5u8) & 1u8 <= 1)
            by (bit_vector);
    } else if i == 3 {
        assert(((byte & 16u8) != 0) == ((byte >> 4u8) & 1u8 == 1) && (byte >> 4u8) & 1u8 <= 1)
            by (bit_vector);
    } else if i == 4 {
        assert(((byte & 8u8) != 0) == ((byte >> 3u8) & 1u8 == 1) && (byte >> 3u8) & 1u8 <= 1)
            by (bit_vector);
    } else if i == 5 {
        assert(((byte & 4u8) != 0) == ((byte >> 2u8) & 1u8 == 1) && (byte >> 2u8) & 1u8 <= 1)
            by (bit_vector);
    } else if i == 6 {
        assert(((byte & 2u8) != 0) == ((byte >> 1u8) & 1u8 == 1) && (byte >> 1u8) & 1u8 <= 1)
            by (bit_vector);
    } else {
        assert(((byte & 1u8) != 0) == ((byte >> 0u8) & 1u8 == 1) && (byte >> 0u8) & 1u8 <= 1)
            by (bit_vector);
    }
}

/// The byte built from the first `n` bits read, the first bit read being
/// the most significant.
pub open spec fn accumulate(bits: Seq<u8>, n: int) -> u8
    decreases n,
{
    if n <= 0 {
        0
    } else {
        accumulate(bits, n - 1) | (bits[n - 1] << ((8 - n) as u8))
    }
}

/// Adds one bit read from the data line to a byte being received.
pub fn accumulate_bit(buffer: u8, bit: u8, shift: u8) -> (b: u8)
    requires
        shift < 8,
    ensures
        b == buffer | (bit << shift),
{
    buffer | (bit << shift)
}

/// The byte carried by eight bits read from the data line, most
/// significant first.
pub fn assemble_byte(bits: [u8; 8]) -> (b: u8)
    ensures
        b == accumulate(bits@, 8),
{
    let mut buffer: u8 = 0;
    let mut i: usize = 0;
    while i < 8
        invariant
            i <= 8,
            buffer == accumulate(bits@, i as int),
        decreases 8 - i,
    {
        buffer = accumulate_bit(buffer, bits[i], (7 - i) as u8);
        i += 1;
    }
    buffer
}

/// A byte sent bit by bit and read back bit by bit arrives unchanged.
pub proof fn law_bits_roundtrip(byte: u8, bits: Seq<u8>)
    requires
        bits.len() == 8,
        forall|i: int| 0 <= i < 8 ==> #[trigger] bits[i] == msb_bit(byte, i),
    ensures
        accumulate(bits, 8) == byte,
{
    reveal_with_fuel(accumulate, 9);
    let b0 = bits[0];
    let b1 = bits[1];
    let b2 = bits[2];
    let b3 = bits[3];
    let b4 = bits[4];
    let b5 = bits[5];
    let b6 = bits[6];
    let b7 = bits[7];
    assert(b0 == (byte >> 7u8) & 1u8);
    assert(b7 == (byte >> 0u8) & 1u8);
    assert(((((((((0u8 | (b0 << 7u8)) | (b1 << 6u8)) | (b2 << 5u8)) | (b3 << 4u8)) | (b4 << 3u8))
        | (b5 << 2u8)) | (b6 << 1u8)) | (b7 << 0u8)) == byte) by (bit_vector)
        requires
            b0 == (byte >> 7u8) & 1u8,
            b1 == (byte >> 6u8) & 1u8,
            b2 == (byte >> 5u8) & 1u8,
            b3 == (byte >> 4u8) & 1u8,
            b4 == (byte >> 3u8) & 1u8,
            b5 == (byte >> 2u8) & 1u8,
            b6 == (byte >> 1u8) & 1u8,
            b7 == (byte >> 0u8) & 1u8,
    ;
}

/// One step of a bus transaction.
#[derive(Debug, Clone, Copy, PartialEq, Eq, Structural)]
pub enum BusOp {
    /// Start condition; assumes both lines are high.
    Start,
    /// Sends a byte and expects an ACK.
    Send(u8),
    /// Start condition in the middle of a transaction.
    RepeatedStart,
    /// Receives a byte; the last one of a read is answered with NACK.
    Receive(bool),
    /// Stop condition.
    Stop,
}

/// The operations that write `bytes` to a device.
pub open spec fn spec_write_ops(device_address: u8, bytes: Seq<u8>) -> Seq<BusOp> {
    seq![BusOp::Start, BusOp::Send(((device_address * 2) % 256) as u8)] + bytes.map_values(
        |b: u8| BusOp::Send(b),
    ) + seq![BusOp::Stop]
}

/// The operations that read `len` bytes starting at a device register.
pub open spec fn spec_read_ops(device_address: u8, register: u8, len: nat) -> Seq<BusOp> {
    seq![
        BusOp::Start,
        BusOp::Send(((device_address * 2) % 256) as u8),
        BusOp::Send(register),
        BusOp::RepeatedStart,
        BusOp::Send(((device_address * 2) % 256 + 1) as u8),
    ] + Seq::new(len, |i: int| BusOp::Receive(i == len - 1)) + seq![BusOp::Stop]
}

/// Send data over I2C.
pub fn write_ops(device_address: u8, bytes: &[u8]) -> (ops: Vec<BusOp>)
    ensures
        ops@ == spec_write_ops(device_address, bytes@),
{
    let mut ops: Vec<BusOp> = Vec::new();
    ops.push(BusOp::Start);
    ops.push(BusOp::Send(write_address(device_address)));
    let mut i: usize = 0;
    while i < bytes.len()
        invariant
            i <= bytes@.len(),
            ops@ == seq![BusOp::Start, BusOp::Send(((device_address * 2) % 256) as u8)]
                + bytes@.take(i as int).map_values(|b: u8| BusOp::Send(b)),
        decreases bytes.len() - i,
    {
        ops.push(BusOp::Send(bytes[i]));
        assert(bytes@.take(i + 1) =~= bytes@.take(i as int).push(bytes@[i as int]));
        assert(bytes@.take(i + 1).map_values(|b: u8| BusOp::Send(b)) =~= bytes@.take(
            i as int,
        ).map_values(|b: u8| BusOp::Send(b)).push(BusOp::Send(bytes@[i as int])));
        i += 1;
    }
    ops.push(BusOp::Stop);
    assert(bytes@.take(bytes@.len() as int) =~= bytes@);
    assert(ops@ =~= spec_write_ops(device_address, bytes@));
    ops
}

/// Receive `len` bytes over I2C, starting at `register`.
pub fn read_ops(device_address: u8, register: u8, len: usize) -> (ops: Vec<BusOp>)
    requires
        len >= 1,
    ensures
        ops@ == spec_read_ops(device_address, register, len as nat),
{
    let mut ops: Vec<BusOp> = Vec::new();
    ops.push(BusOp::Start);
    ops.push(BusOp::Send(write_address(device_address)));
    ops.push(BusOp::Send(register));
    ops.push(BusOp::RepeatedStart);
    ops.push(BusOp::Send(read_address(device_address)));
    let ghost head = ops@;
    let final_entry = len - 1;
    let mut i: usize = 0;
    while i < len
        invariant
            i <= len,
            final_entry == len - 1,
            ops@ == head + Seq::new(i as nat, |j: int| BusOp::Receive(j == len - 1)),
        decreases len - i,
    {
        ops.push(BusOp::Receive(i == final_entry));
        assert(ops@ =~= head + Seq::new((i + 1) as nat, |j: int| BusOp::Receive(j == len - 1)));
        i += 1;
    }
    ops.push(BusOp::Stop);
    assert(ops@ =~= spec_read_ops(device_address, register, len as nat));
    ops
}

/// The 7-bit device address an address byte names, and whether it opens a
/// read: the address sits in the upper seven bits, the direction in the
/// lowest bit (1 for a read).
pub open spec fn addressed_device(address_byte: u8) -> (int, bool) {
    ((address_byte / 2) as int, address_byte % 2 == 1)
}

/// A register read of any length addresses the device for a write, sends
/// the register, restarts, and addresses the same device for a read; then
/// it receives exactly `len` bytes, answering only the last with NACK, and
/// stops. A write addresses the device for a write, sends each byte once
/// in order, and stops.
pub proof fn law_bus_framing(device_address: u8, register: u8, len: nat, bytes: Seq<u8>)
    requires
        len >= 1,
    ensures
        ({
            let ops = spec_read_ops(device_address, register, len);
            &&& ops.len() == len + 6
            &&& ops[0] == BusOp::Start
            &&& ops[1] matches BusOp::Send(a) && addressed_device(a) == ((device_address % 128) as int, false)
            &&& ops[2] == BusOp::Send(register)
            &&& ops[3] == BusOp::RepeatedStart
            &&& ops[4] matches BusOp::Send(a) && addressed_device(a) == ((device_address % 128) as int, true)
            &&& forall|i: int| 5 <= i < len + 5 ==> #[trigger] ops[i] == BusOp::Receive(i == len + 4)
            &&& ops[len as int + 5] == BusOp::Stop
        }),
        ({
            let ops = spec_write_ops(device_address, bytes);
            &&& ops.len() == bytes.len() + 3
            &&& ops[0] == BusOp::Start
            &&& ops[1] matches BusOp::Send(a) && addressed_device(a) == ((device_address % 128) as int, false)
            &&& forall|i: int| 0 <= i < bytes.len() ==> #[trigger] ops[i + 2] == BusOp::Send(bytes[i])
            &&& ops[bytes.len() as int + 2] == BusOp::Stop
        }),
{
    let w: u8 = device_address << 1u8;
    let r: u8 = (device_address << 1u8) | 1u8;
    assert(w == (device_address * 2) % 256 && r == (device_address * 2) % 256 + 1) by (bit_vector)
        requires
            w == device_address << 1u8,
            r == (device_address << 1u8) | 1u8,
    ;
    assert(w / 2 == device_address % 128 && w % 2 == 0 && r / 2 == device_address % 128 && r % 2
        == 1) by (bit_vector)
        requires
            w == device_address << 1u8,
            r == (device_address << 1u8) | 1u8,
    ;
    let ops = spec_read_ops(device_address, register, len);
    assert forall|i: int| 5 <= i < len + 5 implies #[trigger] ops[i] == BusOp::Receive(i == len + 4) by {
    }
    let wops = spec_write_ops(device_address, bytes);
    assert forall|i: int| 0 <= i < bytes.len() implies #[trigger] wops[i + 2] == BusOp::Send(bytes[i]) by {
    }
}

} // verus!
