//! Plover's text output decoded into USB HID boot-keyboard reports.
//!
//! Plover writes plain ASCII for ordinary text and brackets modifier and
//! special key presses between [`KEY_PRESSED`] and [`KEY_RELEASED`] markers.
//! The text is decoded into key presses, and consecutive presses that share
//! modifiers are packed into reports of up to six keycodes.
use vstd::prelude::*;

verus! {

/// From the ASCII table.
pub const END_OF_TEXT: u8 = 0x03;

/// Special handling indicator using unused ASCII characters.
pub const KEY_PRESSED: u8 = 0x81;

/// Special handling indicator using unused ASCII characters.
pub const KEY_RELEASED: u8 = 0x8D;

/// Number of keycode slots in a boot keyboard report.
pub const REPORT_KEYS: usize = 6;

/// An eight byte HID boot keyboard report.
pub struct KeyboardReport {
    pub modifiers: u8,
    pub keycodes: [u8; 6],
}

/// Six empty keycode slots.
pub open spec fn no_keycodes() -> Seq<u8> {
    seq![0u8, 0u8, 0u8, 0u8, 0u8, 0u8]
}

/// The bytes sent on the wire: modifiers, a reserved zero byte, then the
/// six keycodes.
pub open spec fn report_bytes(modifiers: u8, keycodes: Seq<u8>) -> Seq<u8> {
    seq![modifiers, 0u8] + keycodes
}

impl View for KeyboardReport {
    type V = (u8, Seq<u8>);

    open spec fn view(&self) -> (u8, Seq<u8>) {
        (self.modifiers, self.keycodes@)
    }
}

impl KeyboardReport {
    /// A report with no modifiers and no keys held.
    pub fn new() -> (r: Self)
        ensures
            r.modifiers == 0,
            r.keycodes@ == no_keycodes(),
    {
        let r = KeyboardReport { modifiers: 0, keycodes: [0u8, 0u8, 0u8, 0u8, 0u8, 0u8] };
        assert(r.keycodes@ =~= no_keycodes());
        r
    }

    /// Serializes the report; the reserved byte is always zero.
    pub fn full(&self) -> (bytes: [u8; 8])
        ensures
            bytes@ == report_bytes(self.modifiers, self.keycodes@),
    {
        let k = self.keycodes;
        let bytes: [u8; 8] = [self.modifiers, 0, k[0], k[1], k[2], k[3], k[4], k[5]];
        assert(bytes@ =~= report_bytes(self.modifiers, self.keycodes@));
        bytes
    }
}

impl Default for KeyboardReport {
    fn default() -> (r: Self)
        ensures
            r.modifiers == 0,
            r.keycodes@ == no_keycodes(),
    {
        Self::new()
    }
}

/// Modifier bits in the HID order `[control, shift, alt, super]`; the upper
/// four bits are unused.
#[derive(Debug, Clone, Copy, PartialEq, Eq, Structural)]
pub struct ModifierKeys {
    pub bitfield: u8,
}

pub open spec fn mods(bitfield: u8) -> ModifierKeys {
    ModifierKeys { bitfield }
}

/// `"control"` in ASCII.
pub open spec fn control_word() -> Seq<u8> {
    seq![99u8, 111u8, 110u8, 116u8, 114u8, 111u8, 108u8]
}

/// `"shift"` in ASCII.
pub open spec fn shift_word() -> Seq<u8> {
    seq![115u8, 104u8, 105u8, 102u8, 116u8]
}

/// `"super"` in ASCII.
pub open spec fn super_word() -> Seq<u8> {
    seq![115u8, 117u8, 112u8, 101u8, 114u8]
}

/// `"alt"` in ASCII.
pub open spec fn alt_word() -> Seq<u8> {
    seq![97u8, 108u8, 116u8]
}

pub open spec fn starts_with(s: Seq<u8>, word: Seq<u8>) -> bool {
    word.len() <= s.len() && s.take(word.len() as int) == word
}

/// The modifier named at the front of `s`, and what is left of `s`.
///
/// The four names are tried in the order control, shift, super, alt; the
/// first that `s` starts with is reported and removed from its front. When
/// none matches, `s` is left as it is.
pub open spec fn spec_combo(s: Seq<u8>) -> (Option<ModifierKeys>, Seq<u8>) {
    if starts_with(s, control_word()) {
        (Some(mods(1)), s.skip(control_word().len() as int))
    } else if starts_with(s, shift_word()) {
        (Some(mods(2)), s.skip(shift_word().len() as int))
    } else if starts_with(s, super_word()) {
        (Some(mods(8)), s.skip(super_word().len() as int))
    } else if starts_with(s, alt_word()) {
        (Some(mods(4)), s.skip(alt_word().len() as int))
    } else {
        (None, s)
    }
}

/// Whether `word` is a prefix of `s`.
fn slice_starts_with(s: &[u8], word: &[u8]) -> (b: bool)
    ensures
        b == starts_with(s@, word@),
{
    if word.len() > s.len() {
        return false;
    }
    let mut i: usize = 0;
    while i < word.len()
        invariant
            i <= word.len() <= s.len(),
            forall|j: int| 0 <= j < i ==> s@[j] == word@[j],
        decreases word.len() - i,
    {
        if s[i] != word[i] {
            assert(s@.take(word@.len() as int)[i as int] != word@[i as int]);
            return false;
        }
        i += 1;
    }
    assert(s@.take(word@.len() as int) =~= word@);
    true
}

impl ModifierKeys {
    pub fn none() -> (m: Self)
        ensures
            m.bitfield == 0,
    {
        ModifierKeys { bitfield: 0 }
    }

    pub fn control_pressed() -> (m: Self)
        ensures
            m.bitfield == 1,
    {
        ModifierKeys { bitfield: 1 }
    }

    pub fn shift_pressed() -> (m: Self)
        ensures
            m.bitfield == 2,
    {
        ModifierKeys { bitfield: 2 }
    }

    pub fn alt_pressed() -> (m: Self)
        ensures
            m.bitfield == 4,
    {
        ModifierKeys { bitfield: 4 }
    }

    pub fn super_pressed() -> (m: Self)
        ensures
            m.bitfield == 8,
    {
        ModifierKeys { bitfield: 8 }
    }

    /// Union of two modifier sets.
    pub fn bitor(self, rhs: Self) -> (m: Self)
        ensures
            m.bitfield == self.bitfield | rhs.bitfield,
    {
        ModifierKeys { bitfield: self.bitfield | rhs.bitfield }
    }

    pub fn bitor_assign(&mut self, rhs: Self)
        ensures
            final(self).bitfield == old(self).bitfield | rhs.bitfield,
    {
        *self = self.bitor(rhs);
    }

    /// Intersection of two modifier sets.
    pub fn bitand(self, rhs: Self) -> (m: Self)
        ensures
            m.bitfield == self.bitfield & rhs.bitfield,
    {
        ModifierKeys { bitfield: self.bitfield & rhs.bitfield }
    }

    pub fn bitand_assign(&mut self, rhs: Self)
        ensures
            final(self).bitfield == old(self).bitfield & rhs.bitfield,
    {
        *self = self.bitand(rhs);
    }

    /// Complement of a modifier set.
    pub fn not(self) -> (m: Self)
        ensures
            m.bitfield == !self.bitfield,
    {
        ModifierKeys { bitfield: !self.bitfield }
    }

    /// The modifier byte of a report.
    pub fn to_u8(self) -> (b: u8)
        ensures
            b == self.bitfield,
    {
        self.bitfield
    }

    /// Removes `word` from the front of `combo` when it is there.
    fn seq_match<'a>(combo: &mut &'a [u8], word: &[u8]) -> (matched: bool)
        ensures
            matched == starts_with(old(combo)@, word@),
            final(combo)@ == if matched {
                old(combo)@.skip(word@.len() as int)
            } else {
                old(combo)@
            },
    {
        let s: &'a [u8] = *combo;
        if slice_starts_with(s, word) {
            *combo = &s[word.len()..s.len()];
            true
        } else {
            false
        }
    }

    /// Moves the slice forward and returns self on any control sequence.
    ///
    /// Returns None and does not modify the slice otherwise.
    pub fn from_plover_combo(combo: &mut &[u8]) -> (r: Option<Self>)
        ensures
            r == spec_combo(old(combo)@).0,
            final(combo)@ == spec_combo(old(combo)@).1,
    {
        let control: [u8; 7] = [99, 111, 110, 116, 114, 111, 108];
        let shift: [u8; 5] = [115, 104, 105, 102, 116];
        let sup: [u8; 5] = [115, 117, 112, 101, 114];
        let alt: [u8; 3] = [97, 108, 116];
        assert(control@ =~= control_word());
        assert(shift@ =~= shift_word());
        assert(sup@ =~= super_word());
        assert(alt@ =~= alt_word());

        if Self::seq_match(combo, control.as_slice()) {
            Some(Self::control_pressed())
        } else if Self::seq_match(combo, shift.as_slice()) {
            Some(Self::shift_pressed())
        } else if Self::seq_match(combo, sup.as_slice()) {
            Some(Self::super_pressed())
        } else if Self::seq_match(combo, alt.as_slice()) {
            Some(Self::alt_pressed())
        } else {
            None
        }
    }
}

} // verus!

verus! {

/// A single key press: a keycode and the modifiers held with it.
#[derive(Debug, Clone, Copy, PartialEq, Eq, Structural)]
pub struct KeyPress {
    pub modifiers: ModifierKeys,
    pub value: u8,
}

/// A key press with shift or with no modifier.
pub open spec fn key(value: u8, shifted: bool) -> KeyPress {
    KeyPress { modifiers: mods(if shifted { 2u8 } else { 0u8 }), value }
}

/// The HID key press that types an ASCII character, when there is one.
///
/// Letters and the digits one to nine follow the HID usage order; the rest
/// is a table of individual characters. The letter range is matched before
/// the table, so `L` is typed as a shifted letter.
pub open spec fn spec_ascii_match(code: u8) -> Option<KeyPress> {
    if 0x40 < code < 0x5B {
        Some(key((code - 0x41 + 0x04) as u8, true))
    } else if 0x60 < code < 0x7B {
        Some(key((code - 0x61 + 0x04) as u8, false))
    } else if 0x30 < code < 0x3A {
        Some(key((code - 0x31 + 0x1E) as u8, false))
    } else {
        match code {
            // 0
            0x30 => Some(key(0x27, false)),
            // !
            0x21 => Some(key(0x1E, true)),
            // @
            0x40 => Some(key(0x1F, true)),
            // #
            0x23 => Some(key(0x20, true)),
            // $
            0x24 => Some(key(0x21, true)),
            // %
            0x25 => Some(key(0x22, true)),
            // ^
            0x5E => Some(key(0x23, true)),
            // &
            0x26 => Some(key(0x24, true)),
            // *
            0x2A => Some(key(0x25, true)),
            // (
            0x28 => Some(key(0x26, true)),
            // )
            0x29 => Some(key(0x27, true)),
            // Return (ENTER)
            0x0D => Some(key(0x28, false)),
            // ESCAPE
            0x1B => Some(key(0x29, false)),
            // DELETE (Backspace)
            0x08 => Some(key(0x2A, false)),
            // DELETE Forward
            0x4C => Some(key(0x7F, false)),
            // Tab
            0x09 => Some(key(0x2B, false)),
            // Spacebar
            0x20 => Some(key(0x2C, false)),
            // -
            0x2D => Some(key(0x2D, false)),
            // _
            0x5F => Some(key(0x2D, true)),
            // =
            0x3D => Some(key(0x2E, false)),
            // +
            0x2B => Some(key(0x2E, true)),
            // [
            0x5B => Some(key(0x2F, false)),
            // {
            0x7B => Some(key(0x2F, true)),
            // ]
            0x5D => Some(key(0x30, false)),
            // }
            0x7D => Some(key(0x30, true)),
            // \
            0x5C => Some(key(0x31, false)),
            // |
            0x7C => Some(key(0x31, true)),
            // ;
            0x3B => Some(key(0x33, false)),
            // :
            0x3A => Some(key(0x33, true)),
            // '
            0x27 => Some(key(0x34, false)),
            // "
            0x22 => Some(key(0x34, true)),
            // `
            0x60 => Some(key(0x35, false)),
            // ~
            0x7E => Some(key(0x35, true)),
            // ,
            0x2C => Some(key(0x36, false)),
            // <
            0x3C => Some(key(0x36, true)),
            // .
            0x2E => Some(key(0x37, false)),
            // >
            0x3E => Some(key(0x37, true)),
            // /
            0x2F => Some(key(0x38, false)),
            // ?
            0x3F => Some(key(0x38, true)),
            _ => None,
        }
    }
}

impl KeyPress {
    fn new(modifiers: ModifierKeys, value: u8) -> (k: Self)
        ensures
            k.modifiers == modifiers,
            k.value == value,
    {
        KeyPress { modifiers, value }
    }

    /// The key press for an ASCII character that has one.
    pub fn from_ascii(code: u8) -> (k: Self)
        requires
            spec_ascii_match(code) is Some,
        ensures
            k == spec_ascii_match(code).unwrap(),
    {
        match Self::ascii_match(code) {
            Some(k) => k,
            None => {
                proof {
                    assert(false);
                }
                KeyPress::new(ModifierKeys::none(), 0)
            },
        }
    }

    /// The key press for an ASCII character, or None for characters with no
    /// key.
    pub fn ascii_match(code: u8) -> (k: Option<Self>)
        ensures
            k == spec_ascii_match(code),
    {
        if (code > 0x40) && (code < 0x5B) {
            let value = (code - 0x41) + 0x04;
            Some(KeyPress::new(ModifierKeys::shift_pressed(), value))
        } else if (code > 0x60) && (code < 0x7B) {
            let value = (code - 0x61) + 0x04;
            Some(KeyPress::new(ModifierKeys::none(), value))
        } else if (code > 0x30) && (code < 0x3A) {
            let value = (code - 0x31) + 0x1E;
            Some(KeyPress::new(ModifierKeys::none(), value))
        } else {
            match code {
                // 0
                0x30 => Some(KeyPress::new(ModifierKeys::none(), 0x27)),
                // !
                0x21 => Some(KeyPress::new(ModifierKeys::shift_pressed(), 0x1E)),
                // @
                0x40 => Some(KeyPress::new(ModifierKeys::shift_pressed(), 0x1F)),
                // #
                0x23 => Some(KeyPress::new(ModifierKeys::shift_pressed(), 0x20)),
                // $
                0x24 => Some(KeyPress::new(ModifierKeys::shift_pressed(), 0x21)),
                // %
                0x25 => Some(KeyPress::new(ModifierKeys::shift_pressed(), 0x22)),
                // ^
                0x5E => Some(KeyPress::new(ModifierKeys::shift_pressed(), 0x23)),
                // &
                0x26 => Some(KeyPress::new(ModifierKeys::shift_pressed(), 0x24)),
                // *
                0x2A => Some(KeyPress::new(ModifierKeys::shift_pressed(), 0x25)),
                // (
                0x28 => Some(KeyPress::new(ModifierKeys::shift_pressed(), 0x26)),
                // )
                0x29 => Some(KeyPress::new(ModifierKeys::shift_pressed(), 0x27)),
                // Return (ENTER)
                0x0D => Some(KeyPress::new(ModifierKeys::none(), 0x28)),
                // ESCAPE
                0x1B => Some(KeyPress::new(ModifierKeys::none(), 0x29)),
                // DELETE (Backspace)
                0x08 => Some(KeyPress::new(ModifierKeys::none(), 0x2A)),
                // DELETE Forward
                0x4C => Some(KeyPress::new(ModifierKeys::none(), 0x7F)),
                // Tab
                0x09 => Some(KeyPress::new(ModifierKeys::none(), 0x2B)),
                // Spacebar
                0x20 => Some(KeyPress::new(ModifierKeys::none(), 0x2C)),
                // -
                0x2D => Some(KeyPress::new(ModifierKeys::none(), 0x2D)),
                // _
                0x5F => Some(KeyPress::new(ModifierKeys::shift_pressed(), 0x2D)),
                // =
                0x3D => Some(KeyPress::new(ModifierKeys::none(), 0x2E)),
                // +
                0x2B => Some(KeyPress::new(ModifierKeys::shift_pressed(), 0x2E)),
                // [
                0x5B => Some(KeyPress::new(ModifierKeys::none(), 0x2F)),
                // {
                0x7B => Some(KeyPress::new(ModifierKeys::shift_pressed(), 0x2F)),
                // ]
                0x5D => Some(KeyPress::new(ModifierKeys::none(), 0x30)),
                // }
                0x7D => Some(KeyPress::new(ModifierKeys::shift_pressed(), 0x30)),
                // \
                0x5C => Some(KeyPress::new(ModifierKeys::none(), 0x31)),
                // |
                0x7C => Some(KeyPress::new(ModifierKeys::shift_pressed(), 0x31)),
                // ;
                0x3B => Some(KeyPress::new(ModifierKeys::none(), 0x33)),
                // :
                0x3A => Some(KeyPress::new(ModifierKeys::shift_pressed(), 0x33)),
                // '
                0x27 => Some(KeyPress::new(ModifierKeys::none(), 0x34)),
                // "
                0x22 => Some(KeyPress::new(ModifierKeys::shift_pressed(), 0x34)),
                // `
                0x60 => Some(KeyPress::new(ModifierKeys::none(), 0x35)),
                // ~
                0x7E => Some(KeyPress::new(ModifierKeys::shift_pressed(), 0x35)),
                // ,
                0x2C => Some(KeyPress::new(ModifierKeys::none(), 0x36)),
                // <
                0x3C => Some(KeyPress::new(ModifierKeys::shift_pressed(), 0x36)),
                // .
                0x2E => Some(KeyPress::new(ModifierKeys::none(), 0x37)),
                // >
                0x3E => Some(KeyPress::new(ModifierKeys::shift_pressed(), 0x37)),
                // /
                0x2F => Some(KeyPress::new(ModifierKeys::none(), 0x38)),
                // ?
                0x3F => Some(KeyPress::new(ModifierKeys::shift_pressed(), 0x38)),
                _ => None,
            }
        }
    }
}

} // verus!

verus! {

/// One decoding step over Plover output.
pub enum Step {
    /// The output is used up.
    End,
    /// A key press, what follows it, and the modifiers then held.
    Key(KeyPress, Seq<u8>, u8),
    /// Bytes with no key press of their own (a modifier change or a key
    /// release), what follows them, and the modifiers then held.
    Skip(Seq<u8>, u8),
    /// A character with no HID key.
    Bad(u8),
}

/// Decodes the front of `buf` while the modifier bits `held` are pressed.
///
/// * A press marker followed by a modifier name adds that modifier; followed
///   by a character, it presses that character's key with the held
///   modifiers.
/// * A release marker followed by a modifier name removes that modifier;
///   followed by a character, it is skipped.
/// * Any other character presses its own key, with the modifiers its ASCII
///   mapping gives.
pub open spec fn decode_step(buf: Seq<u8>, held: u8) -> Step {
    if buf.len() == 0 {
        Step::End
    } else {
        let c = buf[0];
        let r = buf.drop_first();
        let (found, after) = spec_combo(r);
        if c == KEY_PRESSED {
            match found {
                Some(m) => Step::Skip(after, held | m.bitfield),
                None => if r.len() == 0 {
                    Step::End
                } else {
                    match spec_ascii_match(r[0]) {
                        Some(k) => Step::Key(
                            KeyPress { modifiers: mods(held), value: k.value },
                            r.drop_first(),
                            held,
                        ),
                        None => Step::Bad(r[0]),
                    }
                },
            }
        } else if c == KEY_RELEASED {
            match found {
                Some(m) => Step::Skip(after, held & !m.bitfield),
                None => if r.len() == 0 {
                    Step::End
                } else {
                    Step::Skip(r.drop_first(), held)
                },
            }
        } else {
            match spec_ascii_match(c) {
                Some(k) => Step::Key(k, r, held),
                None => Step::Bad(c),
            }
        }
    }
}

/// Every step that goes on consumes at least one byte.
pub proof fn lemma_step_shrinks(buf: Seq<u8>, held: u8)
    ensures
        decode_step(buf, held) matches Step::Key(_, rest, _) ==> rest.len() < buf.len(),
        decode_step(buf, held) matches Step::Skip(rest, _) ==> rest.len() < buf.len(),
{
}

/// The key presses that Plover output decodes to.
pub open spec fn keys_from(buf: Seq<u8>, held: u8) -> Seq<KeyPress>
    decreases buf.len(),
{
    proof {
        lemma_step_shrinks(buf, held);
    }
    match decode_step(buf, held) {
        Step::Key(k, rest, m) => seq![k] + keys_from(rest, m),
        Step::Skip(rest, m) => keys_from(rest, m),
        _ => Seq::empty(),
    }
}

/// Whether all of the output decodes without meeting a character that has
/// no key.
pub open spec fn decodable(buf: Seq<u8>, held: u8) -> bool
    decreases buf.len(),
{
    proof {
        lemma_step_shrinks(buf, held);
    }
    match decode_step(buf, held) {
        Step::Key(_, rest, m) => decodable(rest, m),
        Step::Skip(rest, m) => decodable(rest, m),
        Step::End => true,
        Step::Bad(_) => false,
    }
}

/// What a call of `next` finds from `buf` with the modifier bits `held`
/// pressed: the next key press, if any, and the output and modifiers left
/// after it.
pub open spec fn next_key(buf: Seq<u8>, held: u8) -> (Option<KeyPress>, Seq<u8>, u8)
    decreases buf.len(),
{
    proof {
        lemma_step_shrinks(buf, held);
    }
    match decode_step(buf, held) {
        Step::Key(k, rest, m) => (Some(k), rest, m),
        Step::Skip(rest, m) => next_key(rest, m),
        Step::End => (None, Seq::empty(), held),
        Step::Bad(_) => (None, buf, held),
    }
}

/// Whether the next `n` key presses of the output (all of them, when there
/// are fewer) are reached without meeting a character that has no key.
pub open spec fn decodes_keys(buf: Seq<u8>, held: u8, n: nat) -> bool
    decreases buf.len(),
{
    proof {
        lemma_step_shrinks(buf, held);
    }
    if n == 0 {
        true
    } else {
        match decode_step(buf, held) {
            Step::Key(_, rest, m) => decodes_keys(rest, m, (n - 1) as nat),
            Step::Skip(rest, m) => decodes_keys(rest, m, n),
            Step::End => true,
            Step::Bad(_) => false,
        }
    }
}

/// Output that decodes whole decodes any number of its key presses.
pub proof fn lemma_decodable_decodes_keys(buf: Seq<u8>, held: u8, n: nat)
    requires
        decodable(buf, held),
    ensures
        decodes_keys(buf, held, n),
    decreases buf.len(),
{
    lemma_step_shrinks(buf, held);
    if n > 0 {
        match decode_step(buf, held) {
            Step::Key(_, rest, m) => lemma_decodable_decodes_keys(rest, m, (n - 1) as nat),
            Step::Skip(rest, m) => lemma_decodable_decodes_keys(rest, m, n),
            _ => {},
        }
    }
}

/// Reaching some key presses without a bad character reaches fewer too.
pub proof fn lemma_decodes_keys_fewer(buf: Seq<u8>, held: u8, n: nat, m: nat)
    requires
        decodes_keys(buf, held, n),
        m <= n,
    ensures
        decodes_keys(buf, held, m),
    decreases buf.len(),
{
    lemma_step_shrinks(buf, held);
    if m > 0 {
        match decode_step(buf, held) {
            Step::Key(_, rest, h) => lemma_decodes_keys_fewer(rest, h, (n - 1) as nat, (m - 1) as nat),
            Step::Skip(rest, h) => lemma_decodes_keys_fewer(rest, h, n, m),
            _ => {},
        }
    }
}

/// What one executable decoding step found.
pub enum StepOutcome {
    End,
    Key(KeyPress),
    Skip,
    Bad(u8),
}

/// Decoder of Plover output into key presses.
pub struct PloverKeyIter<'a> {
    buf: &'a [u8],
    stored_mods: ModifierKeys,
}

impl<'a> PloverKeyIter<'a> {
    /// The output not yet decoded.
    pub closed spec fn rest(&self) -> Seq<u8> {
        self.buf@
    }

    /// The modifier bits currently held.
    pub closed spec fn held(&self) -> u8 {
        self.stored_mods.bitfield
    }

    /// The key presses still to come.
    pub open spec fn keys(&self) -> Seq<KeyPress> {
        keys_from(self.rest(), self.held())
    }

    /// Starts decoding with no modifiers held.
    pub fn from(buf: &'a [u8]) -> (it: Self)
        ensures
            it.rest() == buf@,
            it.held() == 0,
    {
        PloverKeyIter { buf, stored_mods: ModifierKeys::none() }
    }

    /// Takes the first byte off the output.
    fn pop(&mut self) -> (c: u8)
        requires
            old(self).buf@.len() > 0,
        ensures
            c == old(self).buf@[0],
            final(self).buf@ == old(self).buf@.drop_first(),
            final(self).stored_mods == old(self).stored_mods,
    {
        let s: &'a [u8] = self.buf;
        let c = s[0];
        self.buf = &s[1..s.len()];
        assert(self.buf@ =~= s@.drop_first());
        c
    }

    /// Performs one decoding step.
    pub fn advance(&mut self) -> (out: StepOutcome)
        ensures
            match decode_step(old(self).rest(), old(self).held()) {
                Step::End => out is End && final(self).rest().len() == 0
                    && final(self).held() == old(self).held(),
                Step::Key(k, rest, m) => out == StepOutcome::Key(k) && final(self).rest() == rest
                    && final(self).held() == m,
                Step::Skip(rest, m) => out is Skip && final(self).rest() == rest
                    && final(self).held() == m,
                Step::Bad(c) => out == StepOutcome::Bad(c),
            },
    {
        if self.buf.len() == 0 {
            return StepOutcome::End;
        }
        let c = self.pop();
        if c == KEY_PRESSED {
            if let Some(modifier) = ModifierKeys::from_plover_combo(&mut self.buf) {
                // Add to modifiers
                self.stored_mods.bitor_assign(modifier);
                StepOutcome::Skip
            } else {
                // Not a modifier, get the pressed key
                if self.buf.len() == 0 {
                    return StepOutcome::End;
                }
                let next_char = self.pop();
                match KeyPress::ascii_match(next_char) {
                    Some(k) => {
                        let mut key = k;
                        // Replace modifiers before sending
                        key.modifiers = self.stored_mods;
                        StepOutcome::Key(key)
                    },
                    None => StepOutcome::Bad(next_char),
                }
            }
        } else if c == KEY_RELEASED {
            if let Some(modifier) = ModifierKeys::from_plover_combo(&mut self.buf) {
                // Remove from modifiers
                self.stored_mods.bitand_assign(modifier.not());
                StepOutcome::Skip
            } else {
                if self.buf.len() == 0 {
                    return StepOutcome::End;
                }
                // Released regular keys are ignored
                let _released = self.pop();
                StepOutcome::Skip
            }
        } else {
            match KeyPress::ascii_match(c) {
                Some(k) => StepOutcome::Key(k),
                None => StepOutcome::Bad(c),
            }
        }
    }

    /// The next key press, or None once the output is used up.
    ///
    /// Only the output up to that key press is read, and it has to decode.
    pub fn next(&mut self) -> (r: Option<KeyPress>)
        requires
            decodes_keys(old(self).rest(), old(self).held(), 1),
        ensures
            (r, final(self).rest(), final(self).held()) == next_key(old(self).rest(), old(self).held()),
            r is None <==> old(self).keys().len() == 0,
            r matches Some(k) ==> k == old(self).keys()[0] && final(self).keys()
                == old(self).keys().drop_first(),
            r is None ==> final(self).keys().len() == 0 && final(self).rest().len() == 0,
            decodable(old(self).rest(), old(self).held()) ==> decodable(final(self).rest(), final(self).held()),
            forall|n: nat|
                decodes_keys(old(self).rest(), old(self).held(), n + 1) ==> #[trigger] decodes_keys(
                    final(self).rest(),
                    final(self).held(),
                    n,
                ),
    {
        loop
            invariant
                decodes_keys(self.rest(), self.held(), 1),
                next_key(self.rest(), self.held()) == next_key(old(self).rest(), old(self).held()),
                self.keys() == old(self).keys(),
                decodable(old(self).rest(), old(self).held()) ==> decodable(self.rest(), self.held()),
                forall|n: nat|
                    decodes_keys(old(self).rest(), old(self).held(), n) ==> #[trigger] decodes_keys(
                        self.rest(),
                        self.held(),
                        n,
                    ),
            decreases self.rest().len(),
        {
            proof {
                lemma_step_shrinks(self.rest(), self.held());
            }
            let ghost before = *self;
            match self.advance() {
                StepOutcome::End => {
                    assert(keys_from(before.rest(), before.held()).len() == 0);
                    assert(self.rest() =~= Seq::<u8>::empty());
                    assert forall|n: nat|
                        decodes_keys(old(self).rest(), old(self).held(), n + 1) implies #[trigger] decodes_keys(
                        self.rest(),
                        self.held(),
                        n,
                    ) by {
                        assert(decode_step(self.rest(), self.held()) is End);
                    }
                    return None;
                },
                StepOutcome::Key(k) => {
                    assert(keys_from(before.rest(), before.held()) =~= seq![k] + self.keys());
                    assert forall|n: nat|
                        decodes_keys(old(self).rest(), old(self).held(), n + 1) implies #[trigger] decodes_keys(
                        self.rest(),
                        self.held(),
                        n,
                    ) by {
                        assert(decodes_keys(before.rest(), before.held(), n + 1));
                    }
                    return Some(k);
                },
                StepOutcome::Skip => {
                    assert forall|n: nat|
                        decodes_keys(old(self).rest(), old(self).held(), n) implies #[trigger] decodes_keys(
                        self.rest(),
                        self.held(),
                        n,
                    ) by {
                        assert(decodes_keys(before.rest(), before.held(), n));
                    }
                },
                StepOutcome::Bad(_) => {
                    proof {
                        assert(false);
                    }
                    return None;
                },
            }
        }
    }
}

} // verus!

verus! {

/// Whether key `i` repeats a keycode among the keys before it.
pub open spec fn repeats_earlier(keys: Seq<KeyPress>, i: int) -> bool {
    exists|j: int| 0 <= j < i && keys[j].value == keys[i].value
}

/// Whether key `i` can join a report opened by key 0: same modifiers, and a
/// keycode not already in the report.
pub open spec fn joins_report(keys: Seq<KeyPress>, i: int) -> bool {
    keys[i].modifiers == keys[0].modifiers && !repeats_earlier(keys, i)
}

/// How many keys a report opened at key 0 holds, given that keys `1..i`
/// have already joined.
pub open spec fn chunk_len_from(keys: Seq<KeyPress>, i: int) -> int
    decreases REPORT_KEYS - i,
{
    if 0 < i < REPORT_KEYS && i < keys.len() && joins_report(keys, i) {
        chunk_len_from(keys, i + 1)
    } else {
        i
    }
}

/// How many keys the first report holds.
pub open spec fn chunk_len(keys: Seq<KeyPress>) -> int {
    chunk_len_from(keys, 1)
}

proof fn lemma_chunk_len_from_bounds(keys: Seq<KeyPress>, i: int)
    requires
        1 <= i <= REPORT_KEYS,
        i <= keys.len(),
        forall|j: int| 1 <= j < i ==> joins_report(keys, j),
    ensures
        i <= chunk_len_from(keys, i) <= REPORT_KEYS,
        chunk_len_from(keys, i) <= keys.len(),
        forall|j: int| 1 <= j < chunk_len_from(keys, i) ==> joins_report(keys, j),
        chunk_len_from(keys, i) < REPORT_KEYS && chunk_len_from(keys, i) < keys.len() ==> !joins_report(
            keys,
            chunk_len_from(keys, i),
        ),
    decreases REPORT_KEYS - i,
{
    if i < REPORT_KEYS && i < keys.len() && joins_report(keys, i) {
        lemma_chunk_len_from_bounds(keys, i + 1);
    }
}

/// The first report holds between one and six keys, all of which join it.
pub proof fn lemma_chunk_len(keys: Seq<KeyPress>)
    requires
        keys.len() > 0,
    ensures
        1 <= chunk_len(keys) <= REPORT_KEYS,
        chunk_len(keys) <= keys.len(),
        forall|j: int| 1 <= j < chunk_len(keys) ==> joins_report(keys, j),
        chunk_len(keys) < REPORT_KEYS && chunk_len(keys) < keys.len() ==> !joins_report(
            keys,
            chunk_len(keys),
        ),
{
    lemma_chunk_len_from_bounds(keys, 1);
}

/// `keys` without its first key press, when it has one.
pub open spec fn without_first(keys: Seq<KeyPress>) -> Seq<KeyPress> {
    if keys.len() > 0 {
        keys.drop_first()
    } else {
        keys
    }
}

/// Whether the first report of `keys` is closed by a key that does not
/// join it: fewer than six keys, and a key after them.
pub open spec fn report_split(keys: Seq<KeyPress>) -> bool {
    chunk_len(keys) < REPORT_KEYS && chunk_len(keys) < keys.len()
}

/// The key presses that the reports after the first are made from.
///
/// When a key that does not join closes the first report, it opens the
/// next one; opening that report reads one more key press, which is lost.
pub open spec fn after_report(keys: Seq<KeyPress>) -> Seq<KeyPress> {
    if report_split(keys) {
        seq![keys[chunk_len(keys)]] + without_first(keys.skip(chunk_len(keys) + 1))
    } else {
        keys.skip(chunk_len(keys))
    }
}

/// Fewer key presses are left after each report.
pub proof fn lemma_after_report_shrinks(keys: Seq<KeyPress>)
    requires
        keys.len() > 0,
    ensures
        after_report(keys).len() < keys.len(),
{
    lemma_chunk_len(keys);
}

/// The runs of key presses that the reports hold: each run takes as many
/// following keys as join it, up to six, and the next run starts from what
/// [`after_report`] leaves.
pub open spec fn chunks_of(keys: Seq<KeyPress>) -> Seq<Seq<KeyPress>>
    decreases keys.len(),
{
    if keys.len() == 0 {
        Seq::empty()
    } else {
        proof {
            lemma_after_report_shrinks(keys);
        }
        seq![keys.take(chunk_len(keys))] + chunks_of(after_report(keys))
    }
}

/// The report for a run of keys: the first key's modifiers and the run's
/// keycodes, padded with zeros.
pub open spec fn report_of(chunk: Seq<KeyPress>) -> (u8, Seq<u8>) {
    (
        chunk[0].modifiers.bitfield,
        Seq::new(6, |i: int| if i < chunk.len() { chunk[i].value } else { 0u8 }),
    )
}

/// The reports for a sequence of key presses.
pub open spec fn reports_of(keys: Seq<KeyPress>) -> Seq<(u8, Seq<u8>)> {
    chunks_of(keys).map_values(|c: Seq<KeyPress>| report_of(c))
}

pub open spec fn report_views(reports: Seq<KeyboardReport>) -> Seq<(u8, Seq<u8>)> {
    reports.map_values(|r: KeyboardReport| r@)
}

/// Groups decoded key presses into keyboard reports.
pub struct KeysToReports<'a> {
    key_iter: PloverKeyIter<'a>,
    trailing_packet: Option<KeyPress>,
}

impl<'a> KeysToReports<'a> {
    /// Where decoding stands: the output not yet decoded and the modifier
    /// bits held.
    pub closed spec fn source(&self) -> (Seq<u8>, u8) {
        (self.key_iter.rest(), self.key_iter.held())
    }

    /// A key press already read that opens the next report.
    pub closed spec fn pending(&self) -> Option<KeyPress> {
        self.trailing_packet
    }

    /// The key presses that the next reports are made from: a pending key
    /// press opens the next report, and the key press read with it is lost.
    pub open spec fn remaining(&self) -> Seq<KeyPress> {
        match self.pending() {
            Some(k) => seq![k] + without_first(keys_from(self.source().0, self.source().1)),
            None => keys_from(self.source().0, self.source().1),
        }
    }

    /// Every key press still to be reported has a nonzero keycode.
    pub open spec fn well_formed(&self) -> bool {
        forall|i: int| 0 <= i < self.remaining().len() ==> #[trigger] self.remaining()[i].value != 0
    }

    /// How many key presses the next report reads from the decoder: one
    /// to open it (lost when a key press is pending), then the ones after
    /// the first that it holds and the one that closes it, at most six in
    /// all.
    pub open spec fn reads_needed(&self) -> nat {
        let n = chunk_len(self.remaining());
        (if n + 1 < REPORT_KEYS {
            n + 1
        } else {
            REPORT_KEYS as int
        }) as nat
    }

    /// Whether the output that the next report reads decodes.
    pub open spec fn next_decodes(&self) -> bool {
        decodes_keys(self.source().0, self.source().1, self.reads_needed())
    }

    pub fn from(buf: &'a [u8]) -> (it: Self)
        ensures
            it.source() == (buf@, 0u8),
            it.pending() is None,
            it.well_formed(),
            it.remaining() == keys_from(buf@, 0),
    {
        proof {
            law_decoded_keycodes_nonzero(buf@, 0);
        }
        KeysToReports { key_iter: PloverKeyIter::from(buf), trailing_packet: None }
    }

    /// Whether `value` is among the first `len` keycodes.
    fn holds_keycode(keycodes: &[u8; 6], len: usize, value: u8) -> (b: bool)
        requires
            len <= 6,
        ensures
            b == exists|j: int| 0 <= j < len && keycodes@[j] == value,
    {
        let mut j: usize = 0;
        while j < len
            invariant
                j <= len <= 6,
                forall|i: int| 0 <= i < j ==> keycodes@[i] != value,
            decreases len - j,
        {
            if keycodes[j] == value {
                return true;
            }
            j += 1;
        }
        false
    }

    /// The next report, or None once every key press has been reported.
    ///
    /// A key press that could not join the previous report opens this one,
    /// and the key press read while opening it is dropped. Only the output
    /// that this report reads has to decode. Once None is returned, every
    /// later call returns None.
    pub fn next(&mut self) -> (r: Option<KeyboardReport>)
        requires
            old(self).well_formed(),
            old(self).next_decodes(),
        ensures
            final(self).well_formed(),
            r is None <==> old(self).remaining().len() == 0,
            r is None ==> final(self).remaining().len() == 0 && final(self).pending() is None
                && final(self).source().0.len() == 0 && final(self).next_decodes(),
            r matches Some(rep) ==> {
                let ks = old(self).remaining();
                &&& rep@ == report_of(ks.take(chunk_len(ks)))
                &&& final(self).remaining() == after_report(ks)
                &&& forall|i: int| 0 <= i < REPORT_KEYS ==> (#[trigger] rep@.1[i] != 0 <==> i < chunk_len(ks))
            },
            decodable(old(self).source().0, old(self).source().1) ==> decodable(
                final(self).source().0,
                final(self).source().1,
            ),
    {
        let ghost ks = self.remaining();
        let ghost was_decodable = decodable(self.key_iter.rest(), self.key_iter.held());
        let ghost lim: int = if chunk_len(ks) + 1 < REPORT_KEYS {
            chunk_len(ks) + 1
        } else {
            REPORT_KEYS as int
        };
        let ghost keys_before = self.key_iter.keys();
        proof {
            if ks.len() > 0 {
                lemma_chunk_len(ks);
            }
            lemma_decodes_keys_fewer(self.key_iter.rest(), self.key_iter.held(), lim as nat, 1);
        }
        let ghost iter_before = self.key_iter;
        // A key press is read whether or not one is pending; next to a
        // pending one it is dropped.
        let trailing = self.trailing_packet.take();
        let read = self.key_iter.next();
        proof {
            assert(decodes_keys(iter_before.rest(), iter_before.held(), ((lim - 1) as nat) + 1));
            assert(self.key_iter.keys() =~= without_first(keys_before));
        }
        let packet_init = match trailing {
            Some(k) => k,
            None => match read {
                Some(k) => k,
                None => {
                    assert(self.key_iter.rest() =~= Seq::<u8>::empty());
                    assert(decode_step(self.key_iter.rest(), self.key_iter.held()) is End);
                    return None;
                },
            },
        };
        assert(ks.len() > 0 && ks[0] == packet_init);
        assert(self.key_iter.keys() =~= ks.skip(1));
        proof {
            lemma_chunk_len(ks);
        }
        let packet_modifiers = packet_init.modifiers;

        let mut keycodes: [u8; 6] = [0u8, 0u8, 0u8, 0u8, 0u8, 0u8];
        keycodes[0] = packet_init.value;

        let mut idx: usize = 1;
        while idx < 6
            invariant_except_break
                self.trailing_packet is None,
                self.key_iter.keys() == ks.skip(idx as int),
                chunk_len_from(ks, idx as int) == chunk_len(ks),
                decodes_keys(self.key_iter.rest(), self.key_iter.held(), (lim - idx) as nat),
            invariant
                1 <= idx <= 6,
                idx <= chunk_len(ks),
                1 <= chunk_len(ks) <= REPORT_KEYS,
                chunk_len(ks) <= ks.len(),
                forall|j: int| 1 <= j < chunk_len(ks) ==> joins_report(ks, j),
                chunk_len(ks) < REPORT_KEYS && chunk_len(ks) < ks.len() ==> !joins_report(
                    ks,
                    chunk_len(ks),
                ),
                lim == (if chunk_len(ks) + 1 < REPORT_KEYS {
                    chunk_len(ks) + 1
                } else {
                    REPORT_KEYS as int
                }),
                ks.len() >= idx,
                ks[0] == packet_init,
                packet_modifiers == packet_init.modifiers,
                was_decodable ==> decodable(self.key_iter.rest(), self.key_iter.held()),
                forall|j: int| 0 <= j < idx ==> keycodes@[j] == ks[j].value,
                forall|j: int| idx <= j < 6 ==> keycodes@[j] == 0,
            ensures
                self.remaining() == after_report(ks),
                chunk_len(ks) == idx,
            decreases 6 - idx,
        {
            let ghost rest_before = self.key_iter.keys();
            let ghost iter_before = self.key_iter;
            proof {
                lemma_decodes_keys_fewer(
                    self.key_iter.rest(),
                    self.key_iter.held(),
                    (lim - idx) as nat,
                    1,
                );
            }
            if let Some(next_packet) = self.key_iter.next() {
                assert(next_packet == ks[idx as int]);
                let mod_match = next_packet.modifiers == packet_modifiers;
                let no_dup = !Self::holds_keycode(&keycodes, idx, next_packet.value);
                assert(no_dup ==> !repeats_earlier(ks, idx as int)) by {
                    if no_dup && repeats_earlier(ks, idx as int) {
                        let j = choose|j: int| 0 <= j < idx && ks[j].value == ks[idx as int].value;
                        assert(keycodes@[j] == next_packet.value);
                    }
                }
                assert(!no_dup ==> repeats_earlier(ks, idx as int));
                if mod_match && no_dup {
                    assert(joins_report(ks, idx as int));
                    assert(decodes_keys(iter_before.rest(), iter_before.held(), ((lim - idx - 1) as nat) + 1));
                    keycodes[idx] = next_packet.value;
                    assert(self.key_iter.keys() =~= ks.skip(idx + 1));
                    idx += 1;
                } else {
                    assert(!joins_report(ks, idx as int));
                    self.trailing_packet = Some(next_packet);
                    assert(chunk_len(ks) == idx);
                    assert(report_split(ks));
                    assert(self.key_iter.keys() =~= ks.skip(idx + 1)) by {
                        assert(rest_before =~= seq![next_packet] + self.key_iter.keys());
                    }
                    assert(self.remaining() =~= after_report(ks));
                    break;
                }
            } else {
                assert(ks.len() == idx);
                assert(!report_split(ks));
                assert(self.remaining() =~= after_report(ks));
                break;
            }
        }
        let ghost n = chunk_len(ks);
        assert(n == idx);
        assert(self.remaining() == after_report(ks));
        let report = KeyboardReport { modifiers: packet_modifiers.to_u8(), keycodes };
        assert(report@.1 =~= report_of(ks.take(n)).1);
        assert forall|i: int| 0 <= i < REPORT_KEYS implies (#[trigger] report@.1[i] != 0 <==> i < n) by {
            if i < n {
                assert(old(self).remaining()[i].value != 0);
            }
        }
        assert forall|i: int| 0 <= i < self.remaining().len() implies #[trigger] self.remaining()[i].value != 0 by {
            if report_split(ks) {
                if i == 0 {
                    assert(self.remaining()[i] == ks[n]);
                } else {
                    assert(self.remaining()[i] == ks[n + 1 + i]);
                }
            } else {
                assert(self.remaining()[i] == ks[i + n]);
            }
        }
        Some(report)
    }
}

} // verus!

verus! {

proof fn lemma_reports_unfold(ks: Seq<KeyPress>)
    requires
        ks.len() > 0,
    ensures
        1 <= chunk_len(ks) <= ks.len(),
        reports_of(ks) == seq![report_of(ks.take(chunk_len(ks)))] + reports_of(after_report(ks)),
{
    lemma_chunk_len(ks);
    let n = chunk_len(ks);
    assert(chunks_of(ks) == seq![ks.take(n)] + chunks_of(after_report(ks)));
    assert(reports_of(ks) =~= seq![report_of(ks.take(n))] + reports_of(after_report(ks)));
}

/// Whether the whole of `buf` decodes into key presses.
pub fn plover_decodable(buf: &[u8]) -> (b: bool)
    ensures
        b == decodable(buf@, 0),
{
    let mut it = PloverKeyIter::from(buf);
    loop
        invariant
            decodable(buf@, 0) == decodable(it.rest(), it.held()),
        decreases it.rest().len(),
    {
        proof {
            lemma_step_shrinks(it.rest(), it.held());
        }
        match it.advance() {
            StepOutcome::End => {
                return true;
            },
            StepOutcome::Bad(_) => {
                return false;
            },
            _ => {},
        }
    }
}

/// The reports that Plover output is typed as.
pub fn reports_from_plover(buf: &[u8]) -> (reports: Vec<KeyboardReport>)
    requires
        decodable(buf@, 0),
    ensures
        report_views(reports@) == reports_of(keys_from(buf@, 0)),
{
    let mut it = KeysToReports::from(buf);
    let mut reports: Vec<KeyboardReport> = Vec::new();
    loop
        invariant
            it.well_formed(),
            decodable(it.source().0, it.source().1),
            report_views(reports@) + reports_of(it.remaining()) == reports_of(keys_from(buf@, 0)),
        decreases it.remaining().len(),
    {
        let ghost ks = it.remaining();
        proof {
            lemma_decodable_decodes_keys(it.source().0, it.source().1, it.reads_needed());
        }
        match it.next() {
            Some(report) => {
                proof {
                    lemma_reports_unfold(ks);
                }
                let ghost before = reports@;
                reports.push(report);
                assert(report_views(reports@) =~= report_views(before) + seq![report@]);
                assert(report_views(reports@) + reports_of(it.remaining()) =~= report_views(before)
                    + reports_of(ks));
            },
            None => {
                assert(reports_of(ks) =~= Seq::empty());
                assert(report_views(reports@) =~= report_views(reports@) + reports_of(ks));
                return reports;
            },
        }
    }
}

/// The packets written for a sequence of reports: each report is followed
/// by the same report with no keys held, so every keycode registers as a
/// separate stroke.
pub open spec fn packets_of(reports: Seq<(u8, Seq<u8>)>) -> Seq<Seq<u8>>
    decreases reports.len(),
{
    if reports.len() == 0 {
        Seq::empty()
    } else {
        seq![
            report_bytes(reports[0].0, reports[0].1),
            report_bytes(reports[0].0, no_keycodes()),
        ] + packets_of(reports.drop_first())
    }
}

proof fn lemma_packets_append(reports: Seq<(u8, Seq<u8>)>, r: (u8, Seq<u8>))
    ensures
        packets_of(reports.push(r)) == packets_of(reports) + seq![
            report_bytes(r.0, r.1),
            report_bytes(r.0, no_keycodes()),
        ],
    decreases reports.len(),
{
    if reports.len() == 0 {
        assert(packets_of(reports.push(r)) =~= seq![
            report_bytes(r.0, r.1),
            report_bytes(r.0, no_keycodes()),
        ] + packets_of(reports.push(r).drop_first()));
        assert(reports.push(r).drop_first() =~= Seq::<(u8, Seq<u8>)>::empty());
        assert(packets_of(Seq::<(u8, Seq<u8>)>::empty()) =~= Seq::<Seq<u8>>::empty());
        assert(packets_of(reports) =~= Seq::<Seq<u8>>::empty());
    } else {
        assert(reports.push(r).drop_first() =~= reports.drop_first().push(r));
        lemma_packets_append(reports.drop_first(), r);
    }
}

/// The byte packets that Plover output is typed as on the HID device.
pub fn keystroke_packets(buf: &[u8]) -> (packets: Vec<[u8; 8]>)
    requires
        decodable(buf@, 0),
    ensures
        packets@.map_values(|p: [u8; 8]| p@) == packets_of(reports_of(keys_from(buf@, 0))),
{
    let reports = reports_from_plover(buf);
    let mut packets: Vec<[u8; 8]> = Vec::new();
    let mut i: usize = 0;
    while i < reports.len()
        invariant
            i <= reports@.len(),
            report_views(reports@) == reports_of(keys_from(buf@, 0)),
            packets@.map_values(|p: [u8; 8]| p@) == packets_of(
                report_views(reports@).take(i as int),
            ),
        decreases reports.len() - i,
    {
        let ghost before = packets@;
        let mut report = KeyboardReport { modifiers: reports[i].modifiers, keycodes: reports[i].keycodes };
        packets.push(report.full());
        // Always follow with an empty report so keycodes register.
        report.keycodes = [0u8, 0u8, 0u8, 0u8, 0u8, 0u8];
        assert(report.keycodes@ =~= no_keycodes());
        packets.push(report.full());
        proof {
            let views = report_views(reports@);
            assert(views.take(i + 1) =~= views.take(i as int).push(views[i as int]));
            lemma_packets_append(views.take(i as int), views[i as int]);
        }
        assert(packets@.map_values(|p: [u8; 8]| p@) =~= before.map_values(|p: [u8; 8]| p@) + seq![
            report_bytes(reports@[i as int].modifiers, reports@[i as int].keycodes@),
            report_bytes(reports@[i as int].modifiers, no_keycodes()),
        ]);
        i += 1;
    }
    assert(report_views(reports@).take(reports@.len() as int) =~= report_views(reports@));
    packets
}

} // verus!

verus! {

/// Every character with a key types a nonzero keycode, with either no
/// modifier or shift.
pub proof fn law_ascii_keycodes(code: u8)
    requires
        spec_ascii_match(code) is Some,
    ensures
        spec_ascii_match(code).unwrap().value >= 0x04,
        spec_ascii_match(code).unwrap().modifiers.bitfield == 0
            || spec_ascii_match(code).unwrap().modifiers.bitfield == 2,
{
}

/// The characters that the keys of a US keyboard type, from HID usage
/// 0x1E (the `1` key) to 0x38 (the `/` key): the character without shift
/// and the one with shift, 0 where the key has no shifted character here.
/// Usage 0x32 (the non-US `#` key) is not on a US keyboard.
pub open spec fn us_key_chars(usage: u8) -> (u8, u8) {
    if usage == 0x1E { (0x31, 0x21) }        // 1 !
    else if usage == 0x1F { (0x32, 0x40) }   // 2 @
    else if usage == 0x20 { (0x33, 0x23) }   // 3 #
    else if usage == 0x21 { (0x34, 0x24) }   // 4 $
    else if usage == 0x22 { (0x35, 0x25) }   // 5 %
    else if usage == 0x23 { (0x36, 0x5E) }   // 6 ^
    else if usage == 0x24 { (0x37, 0x26) }   // 7 &
    else if usage == 0x25 { (0x38, 0x2A) }   // 8 *
    else if usage == 0x26 { (0x39, 0x28) }   // 9 (
    else if usage == 0x27 { (0x30, 0x29) }   // 0 )
    else if usage == 0x28 { (0x0D, 0) }      // Return
    else if usage == 0x29 { (0x1B, 0) }      // Escape
    else if usage == 0x2A { (0x08, 0) }      // Backspace
    else if usage == 0x2B { (0x09, 0) }      // Tab
    else if usage == 0x2C { (0x20, 0) }      // Space
    else if usage == 0x2D { (0x2D, 0x5F) }   // - _
    else if usage == 0x2E { (0x3D, 0x2B) }   // = +
    else if usage == 0x2F { (0x5B, 0x7B) }   // [ {
    else if usage == 0x30 { (0x5D, 0x7D) }   // ] }
    else if usage == 0x31 { (0x5C, 0x7C) }   // \ |
    else if usage == 0x33 { (0x3B, 0x3A) }   // ; :
    else if usage == 0x34 { (0x27, 0x22) }   // ' "
    else if usage == 0x35 { (0x60, 0x7E) }   // ` ~
    else if usage == 0x36 { (0x2C, 0x3C) }   // , <
    else if usage == 0x37 { (0x2E, 0x3E) }   // . >
    else if usage == 0x38 { (0x2F, 0x3F) }   // / ?
    else { (0, 0) }
}

/// Characters are typed with the keys of a US keyboard: each lower-case
/// letter with its letter key (usages 0x04 to 0x1D, in alphabet order)
/// and each upper-case letter with the same key and shift; and each
/// character on the keys from `1` to `/` with that key, with shift exactly
/// when it is the key's shifted character.
pub proof fn law_ascii_us_layout(usage: u8, letter: u8)
    requires
        letter < 26,
    ensures
        spec_ascii_match((0x61 + letter) as u8) == Some(key((0x04 + letter) as u8, false)),
        spec_ascii_match((0x41 + letter) as u8) == Some(key((0x04 + letter) as u8, true)),
        0x1E <= usage <= 0x38 && usage != 0x32 ==> spec_ascii_match(us_key_chars(usage).0) == Some(
            key(usage, false),
        ),
        0x1E <= usage <= 0x38 && usage != 0x32 && us_key_chars(usage).1 != 0 ==> spec_ascii_match(
            us_key_chars(usage).1,
        ) == Some(key(usage, true)),
{
}

/// Two different characters never type the same key press.
pub proof fn law_ascii_distinct(a: u8, b: u8)
    requires
        spec_ascii_match(a) is Some,
        spec_ascii_match(b) is Some,
        a != b,
    ensures
        spec_ascii_match(a) != spec_ascii_match(b),
{
}

} // verus!

verus! {

/// Every report is built from a run of one to six key presses that share
/// their modifiers and have distinct keycodes.
pub proof fn law_reports_cover_keys(keys: Seq<KeyPress>)
    ensures
        reports_of(keys).len() == chunks_of(keys).len(),
        forall|i: int|
            0 <= i < chunks_of(keys).len() ==> {
                let c = #[trigger] chunks_of(keys)[i];
                &&& 1 <= c.len() <= REPORT_KEYS
                &&& forall|j: int| #![trigger c[j]] 0 <= j < c.len() ==> c[j].modifiers == c[0].modifiers
                &&& forall|a: int, b: int|
                    #![trigger c[a], c[b]]
                    0 <= a < b < c.len() ==> c[a].value != c[b].value
                &&& reports_of(keys)[i] == report_of(c)
            },
    decreases keys.len(),
{
    if keys.len() > 0 {
        lemma_chunk_len(keys);
        lemma_after_report_shrinks(keys);
        let n = chunk_len(keys);
        let first = keys.take(n);
        let rest = after_report(keys);
        law_reports_cover_keys(rest);
        let cs = chunks_of(keys);
        assert(cs == seq![first] + chunks_of(rest));
        assert forall|i: int| 0 <= i < cs.len() implies {
            let c = #[trigger] cs[i];
            &&& 1 <= c.len() <= REPORT_KEYS
            &&& forall|j: int| #![trigger c[j]] 0 <= j < c.len() ==> c[j].modifiers == c[0].modifiers
            &&& forall|a: int, b: int| #![trigger c[a], c[b]] 0 <= a < b < c.len() ==> c[a].value != c[b].value
            &&& reports_of(keys)[i] == report_of(c)
        } by {
            if i == 0 {
                assert(cs[0] == first);
                assert forall|j: int| #![trigger first[j]] 0 <= j < first.len() implies first[j].modifiers
                    == first[0].modifiers by {
                    if j > 0 {
                        assert(joins_report(keys, j));
                    }
                }
                assert forall|a: int, b: int| #![trigger first[a], first[b]] 0 <= a < b < first.len() implies first[a].value
                    != first[b].value by {
                    assert(joins_report(keys, b));
                    assert(!repeats_earlier(keys, b));
                }
            } else {
                assert(cs[i] == chunks_of(rest)[i - 1]);
            }
        }
    }
}

/// The keys a report types from slot `i` on: each nonzero keycode, in
/// order, paired with the report's modifiers.
pub open spec fn typed_from(modifiers: u8, codes: Seq<u8>, i: nat) -> Seq<(u8, u8)>
    decreases codes.len() - i,
{
    if i >= codes.len() {
        Seq::empty()
    } else if codes[i as int] == 0 {
        typed_from(modifiers, codes, i + 1)
    } else {
        seq![(modifiers, codes[i as int])] + typed_from(modifiers, codes, i + 1)
    }
}

/// The keys a sequence of reports types, report after report.
pub open spec fn typed_keys(reports: Seq<(u8, Seq<u8>)>) -> Seq<(u8, u8)>
    decreases reports.len(),
{
    if reports.len() == 0 {
        Seq::empty()
    } else {
        typed_from(reports[0].0, reports[0].1, 0) + typed_keys(reports.drop_first())
    }
}

/// Each key press as the pair of its modifier bits and keycode.
pub open spec fn key_pairs(keys: Seq<KeyPress>) -> Seq<(u8, u8)> {
    keys.map_values(|k: KeyPress| (k.modifiers.bitfield, k.value))
}

proof fn lemma_typed_chunk(c: Seq<KeyPress>, i: nat)
    requires
        1 <= c.len() <= REPORT_KEYS,
        i <= REPORT_KEYS,
        forall|j: int| 0 <= j < c.len() ==> #[trigger] c[j].value != 0,
        forall|j: int| 0 <= j < c.len() ==> (#[trigger] c[j]).modifiers == c[0].modifiers,
    ensures
        typed_from(report_of(c).0, report_of(c).1, i) == key_pairs(
            if i <= c.len() {
                c.skip(i as int)
            } else {
                Seq::empty()
            },
        ),
    decreases REPORT_KEYS - i,
{
    let codes = report_of(c).1;
    if i < REPORT_KEYS {
        lemma_typed_chunk(c, i + 1);
        if i < c.len() {
            assert(codes[i as int] == c[i as int].value);
            assert(c.skip(i as int) =~= seq![c[i as int]] + c.skip(i as int + 1));
            assert(key_pairs(c.skip(i as int)) =~= seq![(c[i as int].modifiers.bitfield, c[i as int].value)]
                + key_pairs(c.skip(i as int + 1)));
        } else {
            assert(codes[i as int] == 0);
            assert(key_pairs(Seq::<KeyPress>::empty()) =~= Seq::empty());
            if i == c.len() {
                assert(c.skip(i as int) =~= Seq::<KeyPress>::empty());
            }
        }
    } else {
        assert(key_pairs(Seq::<KeyPress>::empty()) =~= Seq::empty());
        if i == c.len() {
            assert(c.skip(i as int) =~= Seq::<KeyPress>::empty());
        }
    }
}

/// Whether no key press is lost between reports: a report is only ever
/// closed by a key that does not join it when that key is the last one.
pub open spec fn loses_no_key(keys: Seq<KeyPress>) -> bool
    decreases keys.len(),
{
    if keys.len() == 0 {
        true
    } else if report_split(keys) {
        chunk_len(keys) + 1 == keys.len()
    } else {
        proof {
            lemma_chunk_len(keys);
        }
        loses_no_key(keys.skip(chunk_len(keys)))
    }
}

proof fn lemma_reports_type_keys(keys: Seq<KeyPress>)
    requires
        forall|j: int| 0 <= j < keys.len() ==> #[trigger] keys[j].value != 0,
        loses_no_key(keys),
    ensures
        typed_keys(reports_of(keys)) == key_pairs(keys),
    decreases keys.len(),
{
    if keys.len() == 0 {
        assert(chunks_of(keys) =~= Seq::<Seq<KeyPress>>::empty());
        assert(reports_of(keys) =~= Seq::<(u8, Seq<u8>)>::empty());
        assert(key_pairs(keys) =~= Seq::empty());
    } else {
        lemma_reports_unfold(keys);
        lemma_chunk_len(keys);
        let n = chunk_len(keys);
        let first = keys.take(n);
        let rest = keys.skip(n);
        assert(after_report(keys) =~= rest);
        if report_split(keys) {
            let one = rest;
            assert(one.len() == 1);
            lemma_chunk_len(one);
            assert(!report_split(one));
            assert(one.skip(chunk_len(one)) =~= Seq::<KeyPress>::empty());
            assert(loses_no_key(Seq::<KeyPress>::empty()));
            assert(loses_no_key(one));
        }
        lemma_reports_type_keys(rest);
        assert forall|j: int| 0 <= j < first.len() implies (#[trigger] first[j]).modifiers
            == first[0].modifiers by {
            if j > 0 {
                assert(joins_report(keys, j));
            }
        }
        lemma_typed_chunk(first, 0);
        assert(first.skip(0) =~= first);
        let rs = reports_of(keys);
        assert(rs.drop_first() =~= reports_of(rest));
        assert(rs[0] == report_of(first));
        assert(key_pairs(keys) =~= key_pairs(first) + key_pairs(rest)) by {
            assert(keys =~= first + rest);
        }
    }
}

/// Reports replay every decoded key press when none is lost between
/// reports: taking each report's nonzero keycodes in order, with the
/// report's modifiers, gives back the key presses exactly.
pub proof fn law_reports_replay_keys(buf: Seq<u8>, held: u8)
    requires
        loses_no_key(keys_from(buf, held)),
    ensures
        typed_keys(reports_of(keys_from(buf, held))) == key_pairs(keys_from(buf, held)),
{
    law_decoded_keycodes_nonzero(buf, held);
    lemma_reports_type_keys(keys_from(buf, held));
}

/// Decoded key presses always carry a nonzero keycode, so a report's keys
/// are its nonzero keycode slots.
pub proof fn law_decoded_keycodes_nonzero(buf: Seq<u8>, held: u8)
    ensures
        forall|i: int| 0 <= i < keys_from(buf, held).len() ==> #[trigger] keys_from(buf, held)[i].value != 0,
    decreases buf.len(),
{
    lemma_step_shrinks(buf, held);
    match decode_step(buf, held) {
        Step::Key(k, rest, m) => {
            law_decoded_keycodes_nonzero(rest, m);
            if buf[0] == KEY_PRESSED {
                law_ascii_keycodes(buf[1]);
            } else {
                law_ascii_keycodes(buf[0]);
            }
            let ks = keys_from(buf, held);
            assert(ks == seq![k] + keys_from(rest, m));
            assert(k.value != 0);
            assert forall|i: int| 0 <= i < ks.len() implies #[trigger] ks[i].value != 0 by {
                if i > 0 {
                    assert(ks[i] == keys_from(rest, m)[i - 1]);
                }
            }
        },
        Step::Skip(rest, m) => {
            law_decoded_keycodes_nonzero(rest, m);
            assert(keys_from(buf, held) == keys_from(rest, m));
        },
        _ => {
            assert(keys_from(buf, held).len() == 0);
        },
    }
}

} // verus!

verus! {

/// Releasing a modifier that a press added gives back the modifiers held
/// before the press.
pub proof fn law_release_undoes_press(held: u8, modifier: u8)
    requires
        held & modifier == 0,
    ensures
        (held | modifier) & !modifier == held,
{
    assert((held & modifier == 0) ==> ((held | modifier) & !modifier == held)) by (bit_vector);
}

} // verus!

verus! {

/// Reports are as full as they can be: a report holds fewer than six keys
/// only when the key after it has other modifiers or repeats one of its
/// keycodes.
pub proof fn law_reports_are_full(keys: Seq<KeyPress>)
    ensures
        forall|i: int|
            0 <= i < chunks_of(keys).len() - 1 ==> {
                let c = #[trigger] chunks_of(keys)[i];
                let next = chunks_of(keys)[i + 1][0];
                ||| c.len() == REPORT_KEYS
                ||| next.modifiers != c[0].modifiers
                ||| exists|j: int| 0 <= j < c.len() && c[j].value == next.value
            },
    decreases keys.len(),
{
    if keys.len() > 0 {
        lemma_chunk_len(keys);
        lemma_after_report_shrinks(keys);
        let n = chunk_len(keys);
        let first = keys.take(n);
        let rest = after_report(keys);
        law_reports_are_full(rest);
        let cs = chunks_of(keys);
        assert(cs == seq![first] + chunks_of(rest));
        assert forall|i: int| 0 <= i < cs.len() - 1 implies {
            let c = #[trigger] cs[i];
            let next = cs[i + 1][0];
            ||| c.len() == REPORT_KEYS
            ||| next.modifiers != c[0].modifiers
            ||| exists|j: int| 0 <= j < c.len() && c[j].value == next.value
        } by {
            if i == 0 {
                assert(rest.len() > 0);
                lemma_chunk_len(rest);
                assert(cs[1] == rest.take(chunk_len(rest)));
                if n < REPORT_KEYS {
                    if n == keys.len() {
                        assert(rest =~= Seq::<KeyPress>::empty());
                    }
                    assert(report_split(keys));
                    assert(cs[1][0] == keys[n]);
                    assert(!joins_report(keys, n));
                    if keys[n].modifiers == keys[0].modifiers {
                        assert(repeats_earlier(keys, n));
                        let j = choose|j: int| 0 <= j < n && keys[j].value == keys[n].value;
                        assert(first[j].value == cs[1][0].value);
                    }
                }
            } else {
                assert(cs[i] == chunks_of(rest)[i - 1]);
                assert(cs[i + 1] == chunks_of(rest)[i]);
            }
        }
    }
}

} // verus!
