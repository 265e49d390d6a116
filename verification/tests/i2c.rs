use stenoswitch::i2c::{
    accumulate_bit, assemble_byte, byte_bits, line_hold_nanos, read_address, read_ops,
    write_address, write_ops, BusOp, I2CError,
};

#[test]
fn address_bytes() {
    assert_eq!(write_address(0x55), 0xAA);
    assert_eq!(read_address(0x55), 0xAB);
    assert_eq!(write_address(0x2E), 0x5C);
    assert_eq!(read_address(0x2E), 0x5D);
    assert_eq!(write_address(0xFF), 0xFE);
}

#[test]
fn bits_most_significant_first() {
    assert_eq!(byte_bits(0xA5), [1, 0, 1, 0, 0, 1, 0, 1]);
    assert_eq!(byte_bits(0x00), [0; 8]);
    assert_eq!(byte_bits(0xFF), [1; 8]);
}

#[test]
fn bits_roundtrip_every_byte() {
    for b in 0..=255u8 {
        assert_eq!(assemble_byte(byte_bits(b)), b);
    }
}

#[test]
fn accumulate_one_bit() {
    assert_eq!(accumulate_bit(0, 1, 7), 0x80);
    assert_eq!(accumulate_bit(0x80, 1, 0), 0x81);
    assert_eq!(accumulate_bit(0x80, 0, 3), 0x80);
}

#[test]
fn hold_time() {
    assert_eq!(line_hold_nanos(400_000), 1_250);
    assert_eq!(line_hold_nanos(100_000), 5_000);
    assert_eq!(line_hold_nanos(1), 500_000_000);
}

#[test]
fn write_transaction() {
    assert_eq!(
        write_ops(0x55, &[0x61, 0x00]),
        vec![BusOp::Start, BusOp::Send(0xAA), BusOp::Send(0x61), BusOp::Send(0x00), BusOp::Stop]
    );
    assert_eq!(write_ops(0x2E, &[]), vec![BusOp::Start, BusOp::Send(0x5C), BusOp::Stop]);
}

#[test]
fn read_transaction() {
    assert_eq!(
        read_ops(0x55, 0x04, 2),
        vec![
            BusOp::Start,
            BusOp::Send(0xAA),
            BusOp::Send(0x04),
            BusOp::RepeatedStart,
            BusOp::Send(0xAB),
            BusOp::Receive(false),
            BusOp::Receive(true),
            BusOp::Stop,
        ]
    );
    assert_eq!(read_ops(0x2E, 0, 1)[5], BusOp::Receive(true));
}

#[test]
fn nack_error() {
    assert_eq!(I2CError::nack(), I2CError::Nack);
}
