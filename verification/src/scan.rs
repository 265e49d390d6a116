//! Keyboard matrix scans and their packing into GeminiPR steno packets.
//!
//! Packet layout (one row per byte, most significant bit first; reference
//! <https://docs.qmk.fm/features/stenography#geminipr>):
//!
//! ```text
//! 1 Fn  #1  #2 #3 #4 #5   #6
//! 0 S1- S2- T- K- P- W-   H-
//! 0 R-  A-  O- *1 *2 res1 res2
//! 0 pwr *3  *4 -E -U -F   -R
//! 0 -P  -B  -L -G -T -S   -D
//! 0 #7  #8  #9 #A #B #C   -Z
//! ```
//!
//! A scan covers 3 rows of 10 columns, right hand columns 0 to 4 then left
//! hand columns 0 to 4 for each row:
//!
//! ```text
//! Row 0: [-T, -L, -P, -F, *3] [S1-, T-, P-, H-, *1]
//! Row 1: [-S, -G, -B, -R, *4] [S2-, K-, W-, R-, *2]
//! Row 2: [-Z, -D, #C, -U, -E] [res2, res1, #B, A-, O-]
//! ```
use vstd::prelude::*;

verus! {

pub const GEMINI_PR_BYTES: usize = 6;

/// Size of a full keyboard scan: 3 rows of 10 columns.
pub const RAW_SCAN_LEN: usize = 30;

/// Number of consecutive empty scans that ends packet collection.
pub const EMPTY_TO_END: u8 = 10;

/// Packet slots: five rows of seven bits below each byte's top bit.
pub const PACKET_SLOTS: usize = 35;

/// Marks a packet slot that no key feeds.
pub const NO_KEY: usize = 30;

/// GeminiPR steno packet.
pub struct GeminiPr([u8; 6]);

impl View for GeminiPr {
    type V = Seq<u8>;

    closed spec fn view(&self) -> Seq<u8> {
        self.0@
    }
}

/// The first byte of every packet: the packet-start flag in the top bit.
pub const GEMINI_START: u8 = 0x80;

impl GeminiPr {
    /// A packet always has six bytes.
    pub proof fn lemma_view_len(&self)
        ensures
            self@.len() == GEMINI_PR_BYTES,
    {
    }

    /// Creates a new empty packet.
    pub fn new() -> (p: Self)
        ensures
            p@ == seq![GEMINI_START, 0u8, 0u8, 0u8, 0u8, 0u8],
    {
        let p = GeminiPr([GEMINI_START, 0, 0, 0, 0, 0]);
        assert(p@ =~= seq![GEMINI_START, 0u8, 0u8, 0u8, 0u8, 0u8]);
        p
    }

    /// The bytes sent on the serial line.
    pub fn bytes(&self) -> (b: [u8; 6])
        ensures
            b@ == self@,
    {
        self.0
    }
}

impl Default for GeminiPr {
    fn default() -> (p: Self)
        ensures
            p@ == seq![GEMINI_START, 0u8, 0u8, 0u8, 0u8, 0u8],
    {
        Self::new()
    }
}

/// Which scan position feeds each packet slot; slot `7 * r + p` is bit
/// `6 - p` of packet byte `r + 1`, and [`NO_KEY`] marks the slots that
/// are always zero.
pub open spec fn layout() -> Seq<int> {
    seq![
        5, 15, 6, 16, 7, 17, 8, // [S1-, S2-, T-, K-, P-, W-, H-]
        18, 28, 29, 9, 19, 26, 25, // [R-, A-, O-, *1, *2, res1, res2]
        30, 4, 14, 24, 23, 3, 13, // [pwr, *3, *4, -E, -U, -F, -R]
        2, 12, 1, 11, 0, 10, 21, // [-P, -B, -L, -G, -T, -S, -D]
        30, 30, 30, 30, 27, 22, 20 // [#7, #8, #9, #A, #B, #C, -Z]
    ]
}

/// The scan value that packet slot `slot` carries.
pub open spec fn slot_value(scan: Seq<u8>, slot: int) -> u8 {
    if layout()[slot] < RAW_SCAN_LEN {
        scan[layout()[slot]]
    } else {
        0
    }
}

/// Seven values packed into the low seven bits, first value highest.
pub open spec fn pack7(a0: u8, a1: u8, a2: u8, a3: u8, a4: u8, a5: u8, a6: u8) -> u8 {
    (a0 << 6u8) | (a1 << 5u8) | (a2 << 4u8) | (a3 << 3u8) | (a4 << 2u8) | (a5 << 1u8) | a6
}

/// Packet byte `row + 1` for a scan.
pub open spec fn packet_byte(scan: Seq<u8>, row: int) -> u8 {
    let b = 7 * row;
    pack7(
        slot_value(scan, b),
        slot_value(scan, b + 1),
        slot_value(scan, b + 2),
        slot_value(scan, b + 3),
        slot_value(scan, b + 4),
        slot_value(scan, b + 5),
        slot_value(scan, b + 6),
    )
}

/// The packet for a scan: `first` kept, then the five key rows.
pub open spec fn packet_of(first: u8, scan: Seq<u8>) -> Seq<u8> {
    seq![
        first,
        packet_byte(scan, 0),
        packet_byte(scan, 1),
        packet_byte(scan, 2),
        packet_byte(scan, 3),
        packet_byte(scan, 4),
    ]
}

fn pack_bits(v: [u8; 7]) -> (b: u8)
    ensures
        b == pack7(v@[0], v@[1], v@[2], v@[3], v@[4], v@[5], v@[6]),
{
    (v[0] << 6u8) | (v[1] << 5u8) | (v[2] << 4u8) | (v[3] << 3u8) | (v[4] << 2u8) | (v[5] << 1u8)
        | v[6]
}

/// One keyboard scan: 1 for a key found pressed, 0 otherwise.
#[derive(Debug, Clone, Copy)]
pub struct RawScan([u8; 30]);

impl View for RawScan {
    type V = Seq<u8>;

    closed spec fn view(&self) -> Seq<u8> {
        self.0@
    }
}

/// Sum of the first `n` values.
pub open spec fn sum_prefix(s: Seq<u8>, n: int) -> int
    decreases n,
{
    if n <= 0 {
        0
    } else {
        sum_prefix(s, n - 1) + s[n - 1]
    }
}

/// Whether every value of a scan is 0.
pub open spec fn all_zero(s: Seq<u8>) -> bool {
    forall|i: int| 0 <= i < s.len() ==> s[i] == 0
}

/// Whether every value of a scan is 0 or 1.
pub open spec fn is_binary(s: Seq<u8>) -> bool {
    forall|i: int| 0 <= i < s.len() ==> #[trigger] s[i] <= 1
}

/// Positionwise OR of two scans.
pub open spec fn or_scans(a: Seq<u8>, b: Seq<u8>) -> Seq<u8> {
    Seq::new(a.len(), |i: int| a[i] | b[i])
}

impl RawScan {
    /// A scan always has one value for each of its thirty positions.
    pub proof fn lemma_view_len(&self)
        ensures
            self@.len() == RAW_SCAN_LEN,
    {
    }

    /// A scan with no key pressed.
    pub fn new() -> (s: Self)
        ensures
            s@.len() == RAW_SCAN_LEN,
            all_zero(s@),
    {
        RawScan([0u8; 30])
    }

    /// Fills from an array with the expected scan order.
    ///
    /// Rows 0-2, columns right 0-4 then left 0-4 for each row.
    pub fn from_scan(scan: [u8; 30]) -> (s: Self)
        ensures
            s@ == scan@,
    {
        RawScan(scan)
    }

    /// Adds new values to the total scan.
    pub fn extend(&mut self, new: Self)
        ensures
            final(self)@ == or_scans(old(self)@, new@),
    {
        let ghost before = self@;
        let mut i: usize = 0;
        while i < RAW_SCAN_LEN
            invariant
                i <= RAW_SCAN_LEN,
                self@.len() == RAW_SCAN_LEN,
                forall|j: int| 0 <= j < i ==> self@[j] == before[j] | new@[j],
                forall|j: int| i <= j < RAW_SCAN_LEN ==> self@[j] == before[j],
            decreases RAW_SCAN_LEN - i,
        {
            self.0[i] = self.0[i] | new.0[i];
            i += 1;
        }
        assert(self@ =~= or_scans(before, new@));
    }

    /// The number of scanned keys: the sum of all values, wrapping at 256.
    pub fn len(&self) -> (n: u8)
        ensures
            n == sum_prefix(self@, RAW_SCAN_LEN as int) % 256,
    {
        let mut total: u8 = 0;
        let mut i: usize = 0;
        while i < RAW_SCAN_LEN
            invariant
                i <= RAW_SCAN_LEN,
                self@.len() == RAW_SCAN_LEN,
                total == sum_prefix(self@, i as int) % 256,
            decreases RAW_SCAN_LEN - i,
        {
            total = total.wrapping_add(self.0[i]);
            i += 1;
        }
        total
    }

    /// Returns true when no keys were scanned.
    pub fn is_empty(&self) -> (b: bool)
        ensures
            b == all_zero(self@),
    {
        let mut i: usize = 0;
        while i < RAW_SCAN_LEN
            invariant
                i <= RAW_SCAN_LEN,
                self@.len() == RAW_SCAN_LEN,
                forall|j: int| 0 <= j < i ==> self@[j] == 0,
            decreases RAW_SCAN_LEN - i,
        {
            if self.0[i] != 0 {
                return false;
            }
            i += 1;
        }
        true
    }

    /// Writes the key rows of the packet; the first byte is left as it is,
    /// the keyboard never changes it.
    pub fn update_gemini(self, packet: &mut GeminiPr)
        ensures
            final(packet)@ == packet_of(old(packet)@[0], self@),
    {
        let relocs: [usize; 35] = [
            5, 15, 6, 16, 7, 17, 8, 18, 28, 29, 9, 19, 26, 25, 30, 4, 14, 24, 23, 3, 13, 2, 12, 1,
            11, 0, 10, 21, 30, 30, 30, 30, 27, 22, 20,
        ];
        assert(relocs@.map_values(|k: usize| k as int) =~= layout());
        let ghost first = packet@[0];
        let mut row: usize = 0;
        while row < 5
            invariant
                row <= 5,
                packet@.len() == GEMINI_PR_BYTES,
                packet@[0] == first,
                relocs@.map_values(|k: usize| k as int) == layout(),
                forall|r: int| 0 <= r < row ==> packet@[r + 1] == packet_byte(self@, r),
            decreases 5 - row,
        {
            let base = row * 7;
            let mut vals: [u8; 7] = [0u8; 7];
            let mut p: usize = 0;
            while p < 7
                invariant
                    p <= 7,
                    base == row * 7,
                    row < 5,
                    relocs@.map_values(|k: usize| k as int) == layout(),
                    forall|q: int| 0 <= q < p ==> vals@[q] == slot_value(self@, base + q),
                decreases 7 - p,
            {
                let k = relocs[base + p];
                assert(layout()[base + p] == k);
                vals[p] = if k < RAW_SCAN_LEN {
                    self.0[k]
                } else {
                    0
                };
                p += 1;
            }
            packet.0[row + 1] = pack_bits(vals);
            row += 1;
        }
        assert(packet@ =~= packet_of(first, self@));
    }

    /// The packet for this scan.
    pub fn create_gemini(self) -> (p: GeminiPr)
        ensures
            p@ == packet_of(GEMINI_START, self@),
    {
        let mut packet = GeminiPr::new();
        self.update_gemini(&mut packet);
        packet
    }
}

impl Default for RawScan {
    fn default() -> (s: Self)
        ensures
            s@.len() == RAW_SCAN_LEN,
            all_zero(s@),
    {
        Self::new()
    }
}

} // verus!

verus! {

/// Number of empty scans at the end of a scan history.
pub open spec fn trailing_empty(history: Seq<Seq<u8>>) -> nat
    decreases history.len(),
{
    if history.len() == 0 || !all_zero(history.last()) {
        0
    } else {
        1 + trailing_empty(history.drop_last())
    }
}

/// Positionwise OR of every scan in a history.
pub open spec fn or_all(history: Seq<Seq<u8>>) -> Seq<u8>
    decreases history.len(),
{
    if history.len() == 0 {
        Seq::new(RAW_SCAN_LEN as nat, |i: int| 0u8)
    } else {
        or_scans(or_all(history.drop_last()), history.last())
    }
}

/// Collects scans into one packet until the keyboard has been released for
/// [`EMPTY_TO_END`] consecutive scans.
pub struct ScanAccumulator {
    empty_count: u8,
    data: RawScan,
    history: Ghost<Seq<Seq<u8>>>,
}

impl ScanAccumulator {
    /// The scans added so far.
    pub closed spec fn history(&self) -> Seq<Seq<u8>> {
        self.history@
    }

    pub closed spec fn well_formed(&self) -> bool {
        &&& self.empty_count == trailing_empty(self.history@)
        &&& self.empty_count <= EMPTY_TO_END
        &&& self.data@ == or_all(self.history@)
        &&& forall|i: int| 0 <= i < self.history@.len() ==> (#[trigger] self.history@[i]).len()
            == RAW_SCAN_LEN
    }

    pub fn new() -> (acc: Self)
        ensures
            acc.well_formed(),
            acc.history().len() == 0,
    {
        let data = RawScan::new();
        let acc = ScanAccumulator { empty_count: 0, data, history: Ghost(Seq::empty()) };
        assert(data@ =~= or_all(Seq::empty()));
        acc
    }

    /// Whether the last [`EMPTY_TO_END`] scans were all empty.
    pub fn is_finished(&self) -> (b: bool)
        requires
            self.well_formed(),
        ensures
            b == (trailing_empty(self.history()) >= EMPTY_TO_END),
    {
        self.empty_count >= EMPTY_TO_END
    }

    /// Records one more scan.
    pub fn add_scan(&mut self, new_data: RawScan)
        requires
            old(self).well_formed(),
            trailing_empty(old(self).history()) < EMPTY_TO_END,
        ensures
            final(self).well_formed(),
            final(self).history() == old(self).history().push(new_data@),
    {
        let empty: u8 = if new_data.is_empty() {
            1
        } else {
            0
        };
        // Increases the count when empty, resets to zero when nonempty.
        self.empty_count = (self.empty_count + empty) * empty;
        self.data.extend(new_data);
        let ghost old_history = self.history@;
        self.history = Ghost(self.history@.push(new_data@));
        assert(self.history@.drop_last() =~= old_history);
    }

    /// The packet for every key pressed in any recorded scan.
    pub fn finish(self) -> (p: GeminiPr)
        requires
            self.well_formed(),
        ensures
            p@ == packet_of(GEMINI_START, or_all(self.history())),
    {
        self.data.create_gemini()
    }
}

/// Whether a key event belongs to the current wait: events stamped before
/// the wait started are left over from an earlier scan.
pub fn is_new_event(event_time: u64, start_time: u64) -> (b: bool)
    ensures
        b == (event_time >= start_time),
{
    event_time >= start_time
}

} // verus!

verus! {

proof fn lemma_pack7_bits(a0: u8, a1: u8, a2: u8, a3: u8, a4: u8, a5: u8, a6: u8, p: u8)
    by (bit_vector)
    requires
        a0 <= 1 && a1 <= 1 && a2 <= 1 && a3 <= 1 && a4 <= 1 && a5 <= 1 && a6 <= 1,
        p == (a0 << 6u8) | (a1 << 5u8) | (a2 << 4u8) | (a3 << 3u8) | (a4 << 2u8) | (a5 << 1u8) | a6,
    ensures
        (p >> 6u8) & 1 == a0,
        (p >> 5u8) & 1 == a1,
        (p >> 4u8) & 1 == a2,
        (p >> 3u8) & 1 == a3,
        (p >> 2u8) & 1 == a4,
        (p >> 1u8) & 1 == a5,
        (p >> 0u8) & 1 == a6,
        p < 128,
{
}

/// For a scan of 0s and 1s, bit `bit` of packet byte `row + 1` is exactly
/// the key that the layout assigns to it, and the top bit of every key row
/// is clear.
pub proof fn law_packet_bits(scan: Seq<u8>, row: int, bit: u8)
    requires
        scan.len() == RAW_SCAN_LEN,
        is_binary(scan),
        0 <= row < 5,
        bit < 7,
    ensures
        (packet_byte(scan, row) >> bit) & 1 == slot_value(scan, 7 * row + 6 - bit),
        packet_byte(scan, row) < 128,
{
    let b = 7 * row;
    assert forall|q: int| 0 <= q < 7 implies #[trigger] slot_value(scan, b + q) <= 1 by {
        assert(layout().len() == PACKET_SLOTS);
        if layout()[b + q] < RAW_SCAN_LEN {
            assert(scan[layout()[b + q]] <= 1);
        }
    }
    lemma_pack7_bits(
        slot_value(scan, b),
        slot_value(scan, b + 1),
        slot_value(scan, b + 2),
        slot_value(scan, b + 3),
        slot_value(scan, b + 4),
        slot_value(scan, b + 5),
        slot_value(scan, b + 6),
        packet_byte(scan, row),
    );
    if bit == 6 {
        assert(7 * row + 6 - bit == b);
    } else if bit == 5 {
        assert(7 * row + 6 - bit == b + 1);
    } else if bit == 4 {
        assert(7 * row + 6 - bit == b + 2);
    } else if bit == 3 {
        assert(7 * row + 6 - bit == b + 3);
    } else if bit == 2 {
        assert(7 * row + 6 - bit == b + 4);
    } else if bit == 1 {
        assert(7 * row + 6 - bit == b + 5);
    } else {
        assert(7 * row + 6 - bit == b + 6);
    }
}

/// The packet slot that carries each scan position.
pub open spec fn key_slots() -> Seq<int> {
    seq![
        25, 23, 21, 19, 15, 0, 2, 4, 6, 10, // row 0
        26, 24, 22, 20, 16, 1, 3, 5, 7, 11, // row 1
        34, 27, 33, 18, 17, 13, 12, 32, 8, 9 // row 2
    ]
}

/// Every key of the scan is carried by exactly one packet slot.
pub proof fn law_layout_is_one_to_one()
    ensures
        layout().len() == PACKET_SLOTS,
        forall|k: int|
            0 <= k < RAW_SCAN_LEN ==> 0 <= #[trigger] key_slots()[k] < PACKET_SLOTS
                && layout()[key_slots()[k]] == k,
        forall|s1: int, s2: int|
            0 <= s1 < PACKET_SLOTS && 0 <= s2 < PACKET_SLOTS && s1 != s2 && layout()[s1]
                < RAW_SCAN_LEN ==> #[trigger] layout()[s1] != #[trigger] layout()[s2],
        forall|slot: int| 0 <= slot < PACKET_SLOTS ==> 0 <= #[trigger] layout()[slot] <= NO_KEY,
{
    let l = layout();
    let ks = key_slots();
    assert(ks[0] == 25 && ks[1] == 23 && ks[2] == 21 && ks[3] == 19 && ks[4] == 15 && ks[5] == 0
        && ks[6] == 2 && ks[7] == 4 && ks[8] == 6 && ks[9] == 10);
    assert(ks[10] == 26 && ks[11] == 24 && ks[12] == 22 && ks[13] == 20 && ks[14] == 16 && ks[15]
        == 1 && ks[16] == 3 && ks[17] == 5 && ks[18] == 7 && ks[19] == 11);
    assert(ks[20] == 34 && ks[21] == 27 && ks[22] == 33 && ks[23] == 18 && ks[24] == 17 && ks[25]
        == 13 && ks[26] == 12 && ks[27] == 32 && ks[28] == 8 && ks[29] == 9);
    assert(l[0] == 5 && l[1] == 15 && l[2] == 6 && l[3] == 16 && l[4] == 7 && l[5] == 17 && l[6]
        == 8);
    assert(l[7] == 18 && l[8] == 28 && l[9] == 29 && l[10] == 9 && l[11] == 19 && l[12] == 26
        && l[13] == 25);
    assert(l[14] == 30 && l[15] == 4 && l[16] == 14 && l[17] == 24 && l[18] == 23 && l[19] == 3
        && l[20] == 13);
    assert(l[21] == 2 && l[22] == 12 && l[23] == 1 && l[24] == 11 && l[25] == 0 && l[26] == 10
        && l[27] == 21);
    assert(l[28] == 30 && l[29] == 30 && l[30] == 30 && l[31] == 30 && l[32] == 27 && l[33] == 22
        && l[34] == 20);
}

proof fn lemma_or_all(history: Seq<Seq<u8>>)
    requires
        forall|i: int| 0 <= i < history.len() ==> (#[trigger] history[i]).len() == RAW_SCAN_LEN,
        forall|i: int| 0 <= i < history.len() ==> is_binary(#[trigger] history[i]),
    ensures
        or_all(history).len() == RAW_SCAN_LEN,
        is_binary(or_all(history)),
        forall|k: int|
            0 <= k < RAW_SCAN_LEN ==> (#[trigger] or_all(history)[k] == 1 <==> exists|i: int|
                0 <= i < history.len() && #[trigger] history[i][k] == 1),
    decreases history.len(),
{
    if history.len() > 0 {
        let prefix = history.drop_last();
        lemma_or_all(prefix);
        let last = history.last();
        assert(is_binary(history[history.len() - 1]));
        assert forall|k: int| 0 <= k < RAW_SCAN_LEN implies #[trigger] or_all(history)[k] <= 1
            && (or_all(history)[k] == 1 <==> exists|i: int|
            0 <= i < history.len() && #[trigger] history[i][k] == 1) by {
            let a = or_all(prefix)[k];
            let b = last[k];
            assert(a <= 1 && b <= 1);
            assert((a | b) <= 1 && ((a | b) == 1 <==> (a == 1 || b == 1))) by (bit_vector)
                requires
                    a <= 1 && b <= 1,
            ;
            if or_all(history)[k] == 1 {
                if a == 1 {
                    let i = choose|i: int| 0 <= i < prefix.len() && #[trigger] prefix[i][k] == 1;
                    assert(history[i] == prefix[i]);
                } else {
                    assert(history[history.len() - 1][k] == 1);
                }
            }
            if exists|i: int| 0 <= i < history.len() && #[trigger] history[i][k] == 1 {
                let i = choose|i: int| 0 <= i < history.len() && #[trigger] history[i][k] == 1;
                if i < history.len() - 1 {
                    assert(prefix[i] == history[i]);
                    assert(a == 1);
                }
            }
        }
    } else {
        assert forall|k: int| 0 <= k < RAW_SCAN_LEN implies #[trigger] or_all(history)[k] == 0 by {}
    }
}

/// The finished packet records every key that any scan found pressed, and
/// only those keys.
pub proof fn law_packet_records_presses(history: Seq<Seq<u8>>, row: int, bit: u8)
    requires
        forall|i: int| 0 <= i < history.len() ==> (#[trigger] history[i]).len() == RAW_SCAN_LEN,
        forall|i: int| 0 <= i < history.len() ==> is_binary(#[trigger] history[i]),
        0 <= row < 5,
        bit < 7,
        layout()[7 * row + 6 - bit] < RAW_SCAN_LEN,
    ensures
        ((packet_byte(or_all(history), row) >> bit) & 1 == 1) <==> exists|i: int|
            0 <= i < history.len() && #[trigger] history[i][layout()[7 * row + 6 - bit]] == 1,
{
    lemma_or_all(history);
    law_packet_bits(or_all(history), row, bit);
    law_layout_is_one_to_one();
}

/// Adding a scan keeps every position 0 or 1.
pub proof fn law_extend_keeps_binary(total: Seq<u8>, new: Seq<u8>)
    requires
        total.len() == new.len(),
        is_binary(total),
        is_binary(new),
    ensures
        is_binary(or_scans(total, new)),
        or_scans(total, new).len() == total.len(),
{
    assert forall|i: int| 0 <= i < total.len() implies #[trigger] or_scans(total, new)[i] <= 1 by {
        let a = total[i];
        let b = new[i];
        assert(a <= 1 && b <= 1);
        assert((a | b) <= 1) by (bit_vector)
            requires
                a <= 1 && b <= 1,
        ;
    }
}

proof fn lemma_sum_prefix_or(total: Seq<u8>, new: Seq<u8>, n: int)
    requires
        total.len() == new.len(),
        0 <= n <= total.len(),
    ensures
        sum_prefix(or_scans(total, new), n) >= sum_prefix(total, n),
    decreases n,
{
    if n > 0 {
        lemma_sum_prefix_or(total, new, n - 1);
        let a = total[n - 1];
        let b = new[n - 1];
        assert((a | b) >= a) by (bit_vector);
    }
}

proof fn lemma_sum_prefix_binary(s: Seq<u8>, n: int)
    requires
        is_binary(s),
        0 <= n <= s.len(),
    ensures
        0 <= sum_prefix(s, n) <= n,
    decreases n,
{
    if n > 0 {
        lemma_sum_prefix_binary(s, n - 1);
        assert(s[n - 1] <= 1);
    }
}

/// Adding a scan never lowers the number of scanned keys: for scans of 0s
/// and 1s the count cannot wrap, and every key already found stays found.
pub proof fn law_extend_count_grows(total: Seq<u8>, new: Seq<u8>)
    requires
        total.len() == RAW_SCAN_LEN,
        new.len() == RAW_SCAN_LEN,
        is_binary(total),
        is_binary(new),
    ensures
        sum_prefix(total, RAW_SCAN_LEN as int) % 256 <= sum_prefix(
            or_scans(total, new),
            RAW_SCAN_LEN as int,
        ) % 256,
        forall|i: int| 0 <= i < RAW_SCAN_LEN && total[i] == 1 ==> #[trigger] or_scans(total, new)[i] == 1,
{
    law_extend_keeps_binary(total, new);
    lemma_sum_prefix_or(total, new, RAW_SCAN_LEN as int);
    lemma_sum_prefix_binary(total, RAW_SCAN_LEN as int);
    lemma_sum_prefix_binary(or_scans(total, new), RAW_SCAN_LEN as int);
    assert forall|i: int| 0 <= i < RAW_SCAN_LEN && total[i] == 1 implies #[trigger] or_scans(total, new)[i] == 1 by {
        let b = new[i];
        assert((1u8 | b) == 1) by (bit_vector)
            requires
                b <= 1,
        ;
    }
}

/// The order in which scans are added does not matter, and adding a scan
/// twice is the same as adding it once.
pub proof fn law_extend_order_free(total: Seq<u8>, a: Seq<u8>, b: Seq<u8>)
    requires
        total.len() == a.len(),
        total.len() == b.len(),
    ensures
        or_scans(or_scans(total, a), b) == or_scans(or_scans(total, b), a),
        or_scans(or_scans(total, a), a) == or_scans(total, a),
{
    assert forall|i: int| 0 <= i < total.len() implies #[trigger] or_scans(or_scans(total, a), b)[i]
        == or_scans(or_scans(total, b), a)[i] by {
        let x = total[i];
        let y = a[i];
        let z = b[i];
        assert(((x | y) | z) == ((x | z) | y)) by (bit_vector);
    }
    assert forall|i: int| 0 <= i < total.len() implies #[trigger] or_scans(or_scans(total, a), a)[i]
        == or_scans(total, a)[i] by {
        let x = total[i];
        let y = a[i];
        assert(((x | y) | y) == (x | y)) by (bit_vector);
    }
    assert(or_scans(or_scans(total, a), b) =~= or_scans(or_scans(total, b), a));
    assert(or_scans(or_scans(total, a), a) =~= or_scans(total, a));
}

} // verus!
