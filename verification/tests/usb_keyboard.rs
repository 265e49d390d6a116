use stenoswitch::usb_keyboard::{
    keystroke_packets, plover_decodable, reports_from_plover, KeyPress, KeyboardReport,
    KeysToReports, ModifierKeys, PloverKeyIter, KEY_PRESSED, KEY_RELEASED,
};

fn key(value: u8, bitfield: u8) -> KeyPress {
    KeyPress { modifiers: ModifierKeys { bitfield }, value }
}

#[test]
fn report_new_is_empty() {
    let r = KeyboardReport::new();
    assert_eq!(r.modifiers, 0);
    assert_eq!(r.keycodes, [0; 6]);
    assert_eq!(r.full(), [0; 8]);
    let d = KeyboardReport::default();
    assert_eq!(d.full(), [0; 8]);
}

#[test]
fn report_full_layout() {
    let r = KeyboardReport { modifiers: 0x02, keycodes: [4, 5, 6, 7, 8, 9] };
    assert_eq!(r.full(), [0x02, 0, 4, 5, 6, 7, 8, 9]);
}

#[test]
fn modifier_constants_and_ops() {
    assert_eq!(ModifierKeys::none().bitfield, 0);
    assert_eq!(ModifierKeys::control_pressed().bitfield, 1);
    assert_eq!(ModifierKeys::shift_pressed().bitfield, 2);
    assert_eq!(ModifierKeys::alt_pressed().bitfield, 4);
    assert_eq!(ModifierKeys::super_pressed().bitfield, 8);
    let both = ModifierKeys::control_pressed().bitor(ModifierKeys::shift_pressed());
    assert_eq!(both.bitfield, 3);
    assert_eq!(both.bitand(ModifierKeys::shift_pressed().not()).bitfield, 1);
    let mut m = ModifierKeys::none();
    m.bitor_assign(ModifierKeys::alt_pressed());
    assert_eq!(m.to_u8(), 4);
    m.bitand_assign(ModifierKeys::alt_pressed().not());
    assert_eq!(m, ModifierKeys::none());
}

#[test]
fn combo_names() {
    let mut s: &[u8] = b"controlx";
    assert_eq!(ModifierKeys::from_plover_combo(&mut s), Some(ModifierKeys::control_pressed()));
    assert_eq!(s, b"x");
    let mut s: &[u8] = b"shift";
    assert_eq!(ModifierKeys::from_plover_combo(&mut s), Some(ModifierKeys::shift_pressed()));
    assert_eq!(s, b"");
    let mut s: &[u8] = b"super!";
    assert_eq!(ModifierKeys::from_plover_combo(&mut s), Some(ModifierKeys::super_pressed()));
    assert_eq!(s, b"!");
    let mut s: &[u8] = b"alt";
    assert_eq!(ModifierKeys::from_plover_combo(&mut s), Some(ModifierKeys::alt_pressed()));
    assert_eq!(s, b"");
}

#[test]
fn combo_without_name_leaves_slice() {
    let mut s: &[u8] = b"contro";
    assert_eq!(ModifierKeys::from_plover_combo(&mut s), None);
    assert_eq!(s, b"contro");
    let mut s: &[u8] = b"";
    assert_eq!(ModifierKeys::from_plover_combo(&mut s), None);
    assert_eq!(s, b"");
}

#[test]
fn combo_takes_one_name() {
    let mut s: &[u8] = b"controlshiftq";
    assert_eq!(ModifierKeys::from_plover_combo(&mut s), Some(ModifierKeys::control_pressed()));
    assert_eq!(s, b"shiftq");
    let mut s: &[u8] = b"controlalt";
    assert_eq!(ModifierKeys::from_plover_combo(&mut s), Some(ModifierKeys::control_pressed()));
    assert_eq!(s, b"alt");
    assert_eq!(ModifierKeys::from_plover_combo(&mut s), Some(ModifierKeys::alt_pressed()));
    assert_eq!(s, b"");
}

#[test]
fn ascii_letters_and_digits() {
    assert_eq!(KeyPress::from_ascii(b'a'), key(0x04, 0));
    assert_eq!(KeyPress::from_ascii(b'z'), key(0x1D, 0));
    assert_eq!(KeyPress::from_ascii(b'A'), key(0x04, 2));
    assert_eq!(KeyPress::from_ascii(b'Z'), key(0x1D, 2));
    assert_eq!(KeyPress::from_ascii(b'1'), key(0x1E, 0));
    assert_eq!(KeyPress::from_ascii(b'9'), key(0x26, 0));
    assert_eq!(KeyPress::from_ascii(b'0'), key(0x27, 0));
}

#[test]
fn ascii_table_entries() {
    assert_eq!(KeyPress::from_ascii(b'!'), key(0x1E, 2));
    assert_eq!(KeyPress::from_ascii(b')'), key(0x27, 2));
    assert_eq!(KeyPress::from_ascii(0x0D), key(0x28, 0));
    assert_eq!(KeyPress::from_ascii(0x1B), key(0x29, 0));
    assert_eq!(KeyPress::from_ascii(0x08), key(0x2A, 0));
    assert_eq!(KeyPress::from_ascii(b'\t'), key(0x2B, 0));
    assert_eq!(KeyPress::from_ascii(b' '), key(0x2C, 0));
    assert_eq!(KeyPress::from_ascii(b'-'), key(0x2D, 0));
    assert_eq!(KeyPress::from_ascii(b'_'), key(0x2D, 2));
    assert_eq!(KeyPress::from_ascii(b'?'), key(0x38, 2));
    assert_eq!(KeyPress::from_ascii(b'/'), key(0x38, 0));
    assert_eq!(KeyPress::from_ascii(b'~'), key(0x35, 2));
    // The letter range is matched first.
    assert_eq!(KeyPress::from_ascii(b'L'), key(0x0F, 2));
}

#[test]
fn ascii_without_key() {
    assert_eq!(KeyPress::ascii_match(0x00), None);
    assert_eq!(KeyPress::ascii_match(0x7F), None);
    assert_eq!(KeyPress::ascii_match(KEY_PRESSED), None);
    assert_eq!(KeyPress::ascii_match(KEY_RELEASED), None);
}

#[test]
fn ascii_distinct_and_nonzero() {
    let mut seen = std::collections::HashSet::new();
    for code in 0..=255u8 {
        if let Some(k) = KeyPress::ascii_match(code) {
            assert!(k.value >= 4);
            assert!(k.modifiers.bitfield == 0 || k.modifiers.bitfield == 2);
            assert!(seen.insert((k.modifiers.bitfield, k.value)));
        }
    }
    // Letters, the digits one to nine, and 38 table entries (`L` is a letter).
    assert_eq!(seen.len(), 26 * 2 + 9 + 38);
}

#[test]
fn key_iter_plain_text() {
    let mut it = PloverKeyIter::from(b"aB");
    assert_eq!(it.next(), Some(key(0x04, 0)));
    assert_eq!(it.next(), Some(key(0x05, 2)));
    assert_eq!(it.next(), None);
    assert_eq!(it.next(), None);
}

#[test]
fn key_iter_held_modifier() {
    let buf = [&[KEY_PRESSED][..], b"control", &[KEY_PRESSED, b'c', KEY_RELEASED], b"control", b"x"]
        .concat();
    let mut it = PloverKeyIter::from(&buf);
    assert_eq!(it.next(), Some(key(0x06, 1)));
    assert_eq!(it.next(), Some(key(0x1B, 0)));
    assert_eq!(it.next(), None);
}

#[test]
fn key_iter_two_held_modifiers() {
    let buf = [&[KEY_PRESSED][..], b"control", &[KEY_PRESSED], b"alt", &[KEY_PRESSED, b'c']].concat();
    let mut it = PloverKeyIter::from(&buf);
    assert_eq!(it.next(), Some(key(0x06, 5)));
    assert_eq!(it.next(), None);
}

#[test]
fn key_iter_reads_only_what_it_needs() {
    // Held modifiers replace the key's own; the unmapped byte further on is
    // not read by these calls.
    let buf = [KEY_PRESSED, b'A', b'b', 0x7F];
    let mut it = PloverKeyIter::from(&buf);
    assert_eq!(it.next(), Some(key(0x04, 0)));
    assert_eq!(it.next(), Some(key(0x05, 0)));
}

#[test]
fn key_iter_released_key_skipped() {
    let buf = [KEY_RELEASED, b'q', b'w'];
    let mut it = PloverKeyIter::from(&buf);
    assert_eq!(it.next(), Some(key(0x1A, 0)));
    assert_eq!(it.next(), None);
}

#[test]
fn key_iter_marker_at_end() {
    let buf = [b'a', KEY_PRESSED];
    let mut it = PloverKeyIter::from(&buf);
    assert_eq!(it.next(), Some(key(0x04, 0)));
    assert_eq!(it.next(), None);
}

#[test]
fn reports_group_until_repeat() {
    // The repeated `l` opens the second report; the `o` read with it is
    // dropped.
    let reports = reports_from_plover(b"hello");
    let views: Vec<(u8, [u8; 6])> = reports.iter().map(|r| (r.modifiers, r.keycodes)).collect();
    assert_eq!(views, vec![(0, [0x0B, 0x08, 0x0F, 0, 0, 0]), (0, [0x0F, 0, 0, 0, 0, 0])]);
}

#[test]
fn reports_split_on_modifier_change() {
    let reports = reports_from_plover(b"Hi");
    let views: Vec<(u8, [u8; 6])> = reports.iter().map(|r| (r.modifiers, r.keycodes)).collect();
    assert_eq!(views, vec![(2, [0x0B, 0, 0, 0, 0, 0]), (0, [0x0C, 0, 0, 0, 0, 0])]);
}

#[test]
fn reports_hold_at_most_six() {
    let reports = reports_from_plover(b"abcdefgh");
    let views: Vec<(u8, [u8; 6])> = reports.iter().map(|r| (r.modifiers, r.keycodes)).collect();
    assert_eq!(views, vec![(0, [4, 5, 6, 7, 8, 9]), (0, [10, 11, 0, 0, 0, 0])]);
}

#[test]
fn reports_cover_every_key() {
    // Full reports only, so no key press is dropped.
    let text = b"abcdefGHIJKLmnopqr";
    let reports = reports_from_plover(text);
    let mut typed = Vec::new();
    for r in &reports {
        for k in r.keycodes.iter().filter(|k| **k != 0) {
            typed.push((r.modifiers, *k));
        }
    }
    let expected: Vec<(u8, u8)> = text
        .iter()
        .map(|c| {
            let k = KeyPress::from_ascii(*c);
            (k.modifiers.bitfield, k.value)
        })
        .collect();
    assert_eq!(typed, expected);
}

#[test]
fn reports_iterator_matches_vec() {
    let mut it = KeysToReports::from(b"aab");
    let a = it.next().unwrap();
    assert_eq!(a.keycodes, [4, 0, 0, 0, 0, 0]);
    // The second `a` opens this report and the `b` read with it is dropped.
    let b = it.next().unwrap();
    assert_eq!(b.keycodes, [4, 0, 0, 0, 0, 0]);
    assert!(it.next().is_none());
    assert!(it.next().is_none());
}

#[test]
fn reports_iterator_reads_only_its_report() {
    // The report reads `a`, `b` and the repeated `a` that opens the next
    // one; the unmapped byte after them is not reached.
    let buf = [b'a', b'b', b'a', 0x7F];
    let mut it = KeysToReports::from(&buf);
    let r = it.next().unwrap();
    assert_eq!(r.keycodes, [4, 5, 0, 0, 0, 0]);
}

#[test]
fn packets_follow_each_report_with_release() {
    let packets = keystroke_packets(b"aA");
    assert_eq!(
        packets,
        vec![
            [0, 0, 4, 0, 0, 0, 0, 0],
            [0, 0, 0, 0, 0, 0, 0, 0],
            [2, 0, 4, 0, 0, 0, 0, 0],
            [2, 0, 0, 0, 0, 0, 0, 0],
        ]
    );
    assert!(keystroke_packets(b"").is_empty());
}

#[test]
fn decodable_detection() {
    assert!(plover_decodable(b"hello world"));
    assert!(plover_decodable(b""));
    assert!(!plover_decodable(&[b'a', 0x7F]));
    assert!(!plover_decodable(&[KEY_PRESSED, 0x01]));
    // A released key is never decoded.
    assert!(plover_decodable(&[KEY_RELEASED, 0x01]));
}
