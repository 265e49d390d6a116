use stenoswitch::scan::{is_new_event, GeminiPr, RawScan, ScanAccumulator, EMPTY_TO_END};

fn scan_with(keys: &[usize]) -> RawScan {
    let mut values = [0u8; 30];
    for k in keys {
        values[*k] = 1;
    }
    RawScan::from_scan(values)
}

#[test]
fn gemini_new_packet() {
    assert_eq!(GeminiPr::new().bytes(), [0x80, 0, 0, 0, 0, 0]);
    assert_eq!(GeminiPr::default().bytes(), [0x80, 0, 0, 0, 0, 0]);
}

#[test]
fn raw_scan_empty() {
    let s = RawScan::new();
    assert!(s.is_empty());
    assert_eq!(s.len(), 0);
    assert!(RawScan::default().is_empty());
    assert_eq!(s.create_gemini().bytes(), [0x80, 0, 0, 0, 0, 0]);
}

#[test]
fn raw_scan_len_counts_keys() {
    let s = scan_with(&[0, 5, 29]);
    assert!(!s.is_empty());
    assert_eq!(s.len(), 3);
    let all = scan_with(&(0..30).collect::<Vec<_>>());
    assert_eq!(all.len(), 30);
}

#[test]
fn raw_scan_len_wraps() {
    let s = RawScan::from_scan([10u8; 30]);
    assert_eq!(s.len(), (300 % 256) as u8);
}

#[test]
fn raw_scan_extend_ors() {
    let mut a = scan_with(&[1, 2]);
    a.extend(scan_with(&[2, 3]));
    assert_eq!(a.len(), 3);
    assert_eq!(a.create_gemini().bytes(), scan_with(&[1, 2, 3]).create_gemini().bytes());
}

#[test]
fn gemini_left_bank() {
    // S1- is left column 0 of row 0.
    assert_eq!(scan_with(&[5]).create_gemini().bytes(), [0x80, 0x40, 0, 0, 0, 0]);
    // H- is left column 3 of row 0.
    assert_eq!(scan_with(&[8]).create_gemini().bytes(), [0x80, 0x01, 0, 0, 0, 0]);
    // A- and O-.
    assert_eq!(scan_with(&[28, 29]).create_gemini().bytes(), [0x80, 0, 0x30, 0, 0, 0]);
}

#[test]
fn gemini_right_bank() {
    // -T is right column 0 of row 0.
    assert_eq!(scan_with(&[0]).create_gemini().bytes(), [0x80, 0, 0, 0, 0x04, 0]);
    // -E and -U.
    assert_eq!(scan_with(&[24, 23]).create_gemini().bytes(), [0x80, 0, 0, 0x0C, 0, 0]);
    // -Z, #C and #B.
    assert_eq!(scan_with(&[20]).create_gemini().bytes(), [0x80, 0, 0, 0, 0, 0x01]);
    assert_eq!(scan_with(&[22]).create_gemini().bytes(), [0x80, 0, 0, 0, 0, 0x02]);
    assert_eq!(scan_with(&[27]).create_gemini().bytes(), [0x80, 0, 0, 0, 0, 0x04]);
}

#[test]
fn gemini_every_key() {
    let all = scan_with(&(0..30).collect::<Vec<_>>());
    assert_eq!(all.create_gemini().bytes(), [0x80, 0x7F, 0x7F, 0x3F, 0x7F, 0x07]);
}

#[test]
fn gemini_each_key_one_bit() {
    let mut seen = 0u64;
    for k in 0..30 {
        let bytes = scan_with(&[k]).create_gemini().bytes();
        let bits: u32 = bytes[1..].iter().map(|b| b.count_ones()).sum();
        assert_eq!(bits, 1);
        for (i, b) in bytes[1..].iter().enumerate() {
            if *b != 0 {
                let pos = i * 8 + b.trailing_zeros() as usize;
                assert_eq!(seen & (1 << pos), 0);
                seen |= 1 << pos;
            }
        }
    }
}

#[test]
fn update_keeps_first_byte() {
    let mut packet = GeminiPr::new();
    scan_with(&[5]).update_gemini(&mut packet);
    scan_with(&[8]).update_gemini(&mut packet);
    assert_eq!(packet.bytes(), [0x80, 0x01, 0, 0, 0, 0]);
}

#[test]
fn accumulator_waits_for_release() {
    let mut acc = ScanAccumulator::new();
    assert!(!acc.is_finished());
    acc.add_scan(scan_with(&[5]));
    acc.add_scan(scan_with(&[8]));
    for _ in 0..(EMPTY_TO_END - 1) {
        acc.add_scan(RawScan::new());
        assert!(!acc.is_finished());
    }
    acc.add_scan(RawScan::new());
    assert!(acc.is_finished());
    assert_eq!(acc.finish().bytes(), [0x80, 0x41, 0, 0, 0, 0]);
}

#[test]
fn accumulator_resets_on_press() {
    let mut acc = ScanAccumulator::new();
    for _ in 0..(EMPTY_TO_END - 1) {
        acc.add_scan(RawScan::new());
    }
    acc.add_scan(scan_with(&[0]));
    for _ in 0..(EMPTY_TO_END - 1) {
        acc.add_scan(RawScan::new());
        assert!(!acc.is_finished());
    }
    acc.add_scan(RawScan::new());
    assert!(acc.is_finished());
    assert_eq!(acc.finish().bytes(), [0x80, 0, 0, 0, 0x04, 0]);
}

#[test]
fn new_events_only() {
    assert!(is_new_event(10, 10));
    assert!(is_new_event(11, 10));
    assert!(!is_new_event(9, 10));
}

#[test]
fn extend_keeps_found_keys_in_any_order() {
    let mut a = [0u8; 30];
    a[0] = 1;
    a[7] = 1;
    let mut b = [0u8; 30];
    b[7] = 1;
    b[29] = 1;
    let mut total = RawScan::new();
    total.extend(RawScan::from_scan(a));
    let after_a = total.len();
    total.extend(RawScan::from_scan(b));
    assert!(total.len() >= after_a);
    assert_eq!(total.len(), 3);
    // Other order, and one scan twice.
    let mut other = RawScan::new();
    other.extend(RawScan::from_scan(b));
    other.extend(RawScan::from_scan(a));
    other.extend(RawScan::from_scan(a));
    assert_eq!(other.len(), 3);
    assert_eq!(other.create_gemini().bytes(), total.create_gemini().bytes());
}
