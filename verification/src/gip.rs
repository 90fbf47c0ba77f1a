//! GIP `0x20` input packets: decoding and payload layout detection.

use vstd::prelude::*;

verus! {

/// The packet that switches a GIP controller into reporting mode.
pub const GIP_INIT_PACKET: [u8; 5] = [0x05, 0x20, 0x00, 0x01, 0x00];

/// The command byte of a GIP input report.
pub const GIP_INPUT_COMMAND: u8 = 0x20;

/// Size in bytes of the buttons/triggers/axes block of an input report.
pub const INPUT_BLOCK_LEN: usize = 14;

/// Number of samples a candidate offset needs before the layout may be locked.
pub const LAYOUT_MIN_SAMPLES: u32 = 120;

/// One decoded input block of a GIP `0x20` report.
#[derive(Clone, Copy, Debug, Default, PartialEq, Eq)]
pub struct ParsedInput {
    pub buttons: u16,
    pub lt10: u16,
    pub rt10: u16,
    pub lx: i16,
    pub ly: i16,
    pub rx: i16,
    pub ry: i16,
}

/// Little-endian unsigned 16-bit value of two bytes.
pub open spec fn le_u16_spec(lo: u8, hi: u8) -> u16 {
    (lo as int + 256 * hi as int) as u16
}

/// Little-endian two's complement 16-bit value of two bytes.
pub open spec fn le_i16_spec(lo: u8, hi: u8) -> i16 {
    let v = lo as int + 256 * hi as int;
    if v < 0x8000 {
        v as i16
    } else {
        (v - 0x10000) as i16
    }
}

fn le_u16(b: &[u8], at: usize) -> (v: u16)
    requires
        at + 1 < b@.len(),
    ensures
        v == le_u16_spec(b@[at as int], b@[at + 1]),
{
    b[at] as u16 + (b[at + 1] as u16) * 256
}

fn le_i16(b: &[u8], at: usize) -> (v: i16)
    requires
        at + 1 < b@.len(),
    ensures
        v == le_i16_spec(b@[at as int], b@[at + 1]),
{
    let u = le_u16(b, at);
    if u < 0x8000 {
        u as i16
    } else {
        (u as i32 - 0x10000) as i16
    }
}


/// Why a packet is not a usable GIP input report.
#[derive(Clone, Copy, Debug, PartialEq, Eq)]
pub enum GipParseError {
    /// The packet has fewer than two bytes.
    TooShort,
    /// The command byte (first byte) is not `0x20`; it carries that byte.
    UnexpectedCommand(u8),
    /// The payload after the two header bytes is shorter than the block needs.
    PayloadTooShort { len: usize, need: usize },
}

/// The input block that starts at index `at` of `s`: a button word, two
/// 10-bit triggers stored in 16-bit words, and four signed stick axes,
/// all little-endian.
pub open spec fn decode_block(s: Seq<u8>, at: int) -> ParsedInput {
    ParsedInput {
        buttons: le_u16_spec(s[at], s[at + 1]),
        lt10: (le_u16_spec(s[at + 2], s[at + 3]) % 1024) as u16,
        rt10: (le_u16_spec(s[at + 4], s[at + 5]) % 1024) as u16,
        lx: le_i16_spec(s[at + 6], s[at + 7]),
        ly: le_i16_spec(s[at + 8], s[at + 9]),
        rx: le_i16_spec(s[at + 10], s[at + 11]),
        ry: le_i16_spec(s[at + 12], s[at + 13]),
    }
}

/// What reading packet `pkt` with the block at `offset` bytes into the
/// payload (the bytes after the command and sequence bytes) gives.
pub open spec fn parse_gip_spec(pkt: Seq<u8>, offset: int) -> Result<ParsedInput, GipParseError> {
    if pkt.len() < 2 {
        Err(GipParseError::TooShort)
    } else if pkt[0] != GIP_INPUT_COMMAND {
        Err(GipParseError::UnexpectedCommand(pkt[0]))
    } else if pkt.len() - 2 < offset + 14 {
        Err(GipParseError::PayloadTooShort { len: (pkt.len() - 2) as usize, need: (offset + 14) as usize })
    } else {
        Ok(decode_block(pkt, 2 + offset))
    }
}

/// A decoded report's triggers are 10-bit values.
pub proof fn law_triggers_are_10_bit(pkt: Seq<u8>, offset: int)
    ensures
        parse_gip_spec(pkt, offset) matches Ok(p) ==> p.lt10 < 1024 && p.rt10 < 1024,
{
}

/// A report decodes exactly when it has at least two bytes, its first byte
/// is `0x20` and `offset + 14` bytes follow the two header bytes; the block
/// starts at byte `2 + offset`, and its fields are, in order, the full
/// little-endian button word, the two trigger words reduced to their low
/// 10 bits, and the four little-endian two's complement stick axes.
pub proof fn law_report_fields(pkt: Seq<u8>, offset: int)
    requires
        0 <= offset,
    ensures
        (parse_gip_spec(pkt, offset) is Ok) <==> (pkt.len() >= 2 && pkt[0] == 0x20 && pkt.len() >= 2
            + offset + 14),
        parse_gip_spec(pkt, offset) matches Ok(p) ==> {
            let b = 2 + offset;
            &&& p.buttons as int == pkt[b] + 256 * pkt[b + 1]
            &&& p.lt10 as int == (pkt[b + 2] + 256 * pkt[b + 3]) % 1024
            &&& p.rt10 as int == (pkt[b + 4] + 256 * pkt[b + 5]) % 1024
            &&& p.lx as int == signed16(pkt[b + 6] + 256 * pkt[b + 7])
            &&& p.ly as int == signed16(pkt[b + 8] + 256 * pkt[b + 9])
            &&& p.rx as int == signed16(pkt[b + 10] + 256 * pkt[b + 11])
            &&& p.ry as int == signed16(pkt[b + 12] + 256 * pkt[b + 13])
        },
{
}

/// The value of a 16-bit word `w` (0 to 65535) read as two's complement.
pub open spec fn signed16(w: int) -> int {
    if w < 32768 {
        w
    } else {
        w - 65536
    }
}

/// Bytes after a report's input block do not change what it decodes to.
pub proof fn law_trailing_bytes_ignored(pkt: Seq<u8>, extra: Seq<u8>, offset: int)
    requires
        0 <= offset,
        parse_gip_spec(pkt, offset) is Ok,
    ensures
        parse_gip_spec(pkt + extra, offset) == parse_gip_spec(pkt, offset),
{
    let q = pkt + extra;
    assert(q[0] == pkt[0]);
    assert forall|k: int| 2 + offset <= k < 16 + offset implies #[trigger] q[k] == pkt[k] by {}
    assert(decode_block(q, 2 + offset) == decode_block(pkt, 2 + offset));
}

fn low10(v: u16) -> (r: u16)
    ensures
        r == v % 1024,
{
    let r = v & 0x03FF;
    assert(v & 0x03FF == v % 1024) by (bit_vector);
    r
}

fn decode_block_at(s: &[u8], at: usize) -> (p: ParsedInput)
    requires
        at + 14 <= s.len(),
    ensures
        p == decode_block(s@, at as int),
{
    ParsedInput {
        buttons: le_u16(s, at),
        lt10: low10(le_u16(s, at + 2)),
        rt10: low10(le_u16(s, at + 4)),
        lx: le_i16(s, at + 6),
        ly: le_i16(s, at + 8),
        rx: le_i16(s, at + 10),
        ry: le_i16(s, at + 12),
    }
}

/// Decodes a GIP `0x20` input report whose input block starts
/// `payload_offset` bytes after the two header bytes.
pub fn parse_gip_input_packet(pkt: &[u8], payload_offset: usize) -> (res: Result<ParsedInput, GipParseError>)
    requires
        pkt@.len() >= 2 && pkt@[0] == GIP_INPUT_COMMAND ==> payload_offset + 14 <= usize::MAX,
    ensures
        res == parse_gip_spec(pkt@, payload_offset as int),
{
    if pkt.len() < 2 {
        return Err(GipParseError::TooShort);
    }
    if pkt[0] != GIP_INPUT_COMMAND {
        return Err(GipParseError::UnexpectedCommand(pkt[0]));
    }
    let payload_len = pkt.len() - 2;
    if payload_len < payload_offset + INPUT_BLOCK_LEN {
        return Err(GipParseError::PayloadTooShort { len: payload_len, need: payload_offset + INPUT_BLOCK_LEN });
    }
    Ok(decode_block_at(pkt, 2 + payload_offset))
}


/// Number of one bits of a 16-bit word.
pub open spec fn popcount16(v: u16) -> nat
    decreases v,
{
    if v == 0 {
        0
    } else {
        (v % 2) as nat + popcount16(v / 2)
    }
}

proof fn lemma_popcount16_bounds(v: u16)
    ensures
        popcount16(v) <= v,
    decreases v,
{
    if v != 0 {
        lemma_popcount16_bounds(v / 2);
    }
}

fn count_ones16(v: u16) -> (c: u32)
    ensures
        c == popcount16(v),
{
    let mut x = v;
    let mut c: u32 = 0;
    proof {
        lemma_popcount16_bounds(v);
    }
    while x != 0
        invariant
            c + popcount16(x) == popcount16(v),
            popcount16(v) <= v,
        decreases x,
    {
        proof {
            lemma_popcount16_bounds(x / 2);
        }
        c = c + (x % 2) as u32;
        x = x / 2;
    }
    c
}

/// A tally counter advanced by `d`; tallies wrap at `u32::MAX`, as the
/// release build's arithmetic does.
pub open spec fn counter_add(c: u32, d: int) -> u32 {
    if c + d > u32::MAX {
        (c + d - 0x1_0000_0000) as u32
    } else {
        (c + d) as u32
    }
}

/// A trigger word whose bits above the 10-bit value are all clear.
pub open spec fn trigger_high_bits_clear(raw: u16) -> bool {
    raw < 1024
}

/// A trigger word whose 10-bit value is past the resting noise.
pub open spec fn trigger_active(raw: u16) -> bool {
    raw % 1024 > 4
}

/// An axis value saturated at either end of the `i16` range.
pub open spec fn axis_extreme(v: i16) -> bool {
    v == i16::MIN || v == i16::MAX
}

/// An axis value more than 512 away from the centre. `i16::MIN` does not
/// count: its absolute value wraps to itself in the release build.
pub open spec fn axis_active(v: i16) -> bool {
    v > 512 || (v < -512 && v != i16::MIN)
}

/// The tallies that one candidate payload offset has collected.
#[derive(Clone, Copy, Debug, PartialEq, Eq)]
pub struct LayoutTally {
    pub samples: u32,
    pub trig_hi_zero: u32,
    pub trig_activity: u32,
    pub axes_non_extreme: u32,
    pub axes_activity: u32,
    pub buttons_change_count: u32,
    pub buttons_popcount_sum: u32,
    pub last_buttons: Option<u16>,
}

/// The empty tally.
pub open spec fn empty_tally() -> LayoutTally {
    LayoutTally {
        samples: 0,
        trig_hi_zero: 0,
        trig_activity: 0,
        axes_non_extreme: 0,
        axes_activity: 0,
        buttons_change_count: 0,
        buttons_popcount_sum: 0,
        last_buttons: None,
    }
}

/// The tally `t` after observing the block at `off` of `payload`: nothing
/// changes when the payload is too short for a block there.
pub open spec fn observed(t: LayoutTally, payload: Seq<u8>, off: int) -> LayoutTally {
    if payload.len() < off + 14 {
        t
    } else {
        let buttons = le_u16_spec(payload[off], payload[off + 1]);
        let lt = le_u16_spec(payload[off + 2], payload[off + 3]);
        let rt = le_u16_spec(payload[off + 4], payload[off + 5]);
        let lx = le_i16_spec(payload[off + 6], payload[off + 7]);
        let ly = le_i16_spec(payload[off + 8], payload[off + 9]);
        let rx = le_i16_spec(payload[off + 10], payload[off + 11]);
        let ry = le_i16_spec(payload[off + 12], payload[off + 13]);
        LayoutTally {
            samples: counter_add(t.samples, 1),
            trig_hi_zero: if trigger_high_bits_clear(lt) && trigger_high_bits_clear(rt) {
                counter_add(t.trig_hi_zero, 1)
            } else {
                t.trig_hi_zero
            },
            trig_activity: if trigger_active(lt) || trigger_active(rt) {
                counter_add(t.trig_activity, 1)
            } else {
                t.trig_activity
            },
            axes_non_extreme: if !axis_extreme(lx) && !axis_extreme(ly) && !axis_extreme(rx)
                && !axis_extreme(ry) {
                counter_add(t.axes_non_extreme, 1)
            } else {
                t.axes_non_extreme
            },
            axes_activity: if axis_active(lx) || axis_active(ly) || axis_active(rx) || axis_active(
                ry,
            ) {
                counter_add(t.axes_activity, 1)
            } else {
                t.axes_activity
            },
            buttons_change_count: if t.last_buttons is Some && t.last_buttons->0 != buttons {
                counter_add(t.buttons_change_count, 1)
            } else {
                t.buttons_change_count
            },
            buttons_popcount_sum: counter_add(t.buttons_popcount_sum, popcount16(buttons) as int),
            last_buttons: Some(buttons),
        }
    }
}

/// A tally whose counters are consistent: none exceeds the sample count,
/// button changes are fewer than the samples (the first sample has nothing
/// to change from), and each sample adds at most 16 set button bits.
pub open spec fn tally_consistent(t: LayoutTally) -> bool {
    &&& t.trig_hi_zero <= t.samples
    &&& t.trig_activity <= t.samples
    &&& t.axes_non_extreme <= t.samples
    &&& t.axes_activity <= t.samples
    &&& (t.buttons_change_count < t.samples || t.buttons_change_count == 0)
    &&& t.buttons_popcount_sum <= 16 * t.samples
    &&& (t.last_buttons is None <==> t.samples == 0)
}

proof fn lemma_popcount16_at_most_16(v: u16)
    ensures
        popcount16(v) <= 16,
{
    vstd::arithmetic::power2::lemma2_to64();
    lemma_popcount_width(v, 16);
}

proof fn lemma_popcount_width(v: u16, w: nat)
    requires
        v < vstd::arithmetic::power2::pow2(w),
    ensures
        popcount16(v) <= w,
    decreases w,
{
    vstd::arithmetic::power2::lemma_pow2_pos(w);
    if v != 0 && w > 0 {
        vstd::arithmetic::power2::lemma_pow2_unfold(w);
        lemma_popcount_width(v / 2, (w - 1) as nat);
    } else if v != 0 {
        vstd::arithmetic::power2::lemma2_to64();
    }
}

/// A new tally is consistent, and observing a block keeps a tally
/// consistent for as long as its sample count does not wrap.
pub proof fn law_tally_stays_consistent(t: LayoutTally, payload: Seq<u8>, off: int)
    requires
        tally_consistent(t),
        t.samples < u32::MAX,
        16 * (t.samples + 1) <= u32::MAX,
    ensures
        tally_consistent(empty_tally()),
        tally_consistent(observed(t, payload, off)),
{
    if payload.len() >= off + 14 {
        lemma_popcount16_at_most_16(le_u16_spec(payload[off], payload[off + 1]));
    }
}

/// Observing counts one sample exactly when the payload holds a whole block
/// at the offset, and otherwise changes nothing.
pub proof fn law_observe_counts_whole_blocks(t: LayoutTally, payload: Seq<u8>, off: int)
    requires
        t.samples < u32::MAX,
    ensures
        payload.len() >= off + 14 ==> observed(t, payload, off).samples == t.samples + 1,
        payload.len() < off + 14 ==> observed(t, payload, off) == t,
{
}

/// Statistics on how the bytes at one candidate payload offset behave
/// across input reports, used to find where the input block starts.
#[derive(Clone, Copy, Debug)]
pub struct LayoutStats {
    pub samples: u32,
    trig_hi_zero: u32,
    trig_activity: u32,
    axes_non_extreme: u32,
    axes_activity: u32,
    buttons_change_count: u32,
    buttons_popcount_sum: u32,
    last_buttons: Option<u16>,
}

impl View for LayoutStats {
    type V = LayoutTally;

    closed spec fn view(&self) -> LayoutTally {
        LayoutTally {
            samples: self.samples,
            trig_hi_zero: self.trig_hi_zero,
            trig_activity: self.trig_activity,
            axes_non_extreme: self.axes_non_extreme,
            axes_activity: self.axes_activity,
            buttons_change_count: self.buttons_change_count,
            buttons_popcount_sum: self.buttons_popcount_sum,
            last_buttons: self.last_buttons,
        }
    }
}

fn bump(c: u32) -> (r: u32)
    ensures
        r == counter_add(c, 1),
{
    c.wrapping_add(1)
}

fn high_bits_clear(raw: u16) -> (r: bool)
    ensures
        r == trigger_high_bits_clear(raw),
{
    let r = raw & !0x03FFu16 == 0;
    assert((raw & !0x03FFu16 == 0) == (raw < 1024)) by (bit_vector);
    r
}

fn is_extreme(v: i16) -> (r: bool)
    ensures
        r == axis_extreme(v),
{
    v == i16::MIN || v == i16::MAX
}

fn is_active(v: i16) -> (r: bool)
    ensures
        r == axis_active(v),
{
    v > 512 || (v < -512 && v != i16::MIN)
}

impl LayoutStats {
    /// A tally with nothing observed yet.
    pub fn new() -> (s: Self)
        ensures
            s@ == empty_tally(),
    {
        Self {
            samples: 0,
            trig_hi_zero: 0,
            trig_activity: 0,
            axes_non_extreme: 0,
            axes_activity: 0,
            buttons_change_count: 0,
            buttons_popcount_sum: 0,
            last_buttons: None,
        }
    }

    /// The tallies collected so far.
    pub fn tally(&self) -> (t: LayoutTally)
        ensures
            t == self@,
    {
        LayoutTally {
            samples: self.samples,
            trig_hi_zero: self.trig_hi_zero,
            trig_activity: self.trig_activity,
            axes_non_extreme: self.axes_non_extreme,
            axes_activity: self.axes_activity,
            buttons_change_count: self.buttons_change_count,
            buttons_popcount_sum: self.buttons_popcount_sum,
            last_buttons: self.last_buttons,
        }
    }

    /// Records the block found `off` bytes into `payload`, if the payload
    /// holds a whole block there.
    pub fn observe(&mut self, payload: &[u8], off: usize)
        requires
            off + 14 <= usize::MAX,
        ensures
            final(self)@ == observed(old(self)@, payload@, off as int),
    {
        if payload.len() < off + INPUT_BLOCK_LEN {
            return;
        }
        let buttons = le_u16(payload, off);
        let lt_raw = le_u16(payload, off + 2);
        let rt_raw = le_u16(payload, off + 4);
        let lx = le_i16(payload, off + 6);
        let ly = le_i16(payload, off + 8);
        let rx = le_i16(payload, off + 10);
        let ry = le_i16(payload, off + 12);

        self.samples = bump(self.samples);

        if high_bits_clear(lt_raw) && high_bits_clear(rt_raw) {
            self.trig_hi_zero = bump(self.trig_hi_zero);
        }
        if low10(lt_raw) > 4 || low10(rt_raw) > 4 {
            self.trig_activity = bump(self.trig_activity);
        }

        if !is_extreme(lx) && !is_extreme(ly) && !is_extreme(rx) && !is_extreme(ry) {
            self.axes_non_extreme = bump(self.axes_non_extreme);
        }
        if is_active(lx) || is_active(ly) || is_active(rx) || is_active(ry) {
            self.axes_activity = bump(self.axes_activity);
        }

        if let Some(prev) = self.last_buttons {
            if prev != buttons {
                self.buttons_change_count = bump(self.buttons_change_count);
            }
        }
        self.last_buttons = Some(buttons);
        self.buttons_popcount_sum = self.buttons_popcount_sum.wrapping_add(count_ones16(buttons));
    }
}


/// The tally of candidate offset `i`, where offsets past the end of `ts`
/// have observed nothing yet.
pub open spec fn tally_or_empty(ts: Seq<LayoutTally>, i: int) -> LayoutTally {
    if 0 <= i < ts.len() {
        ts[i]
    } else {
        empty_tally()
    }
}

/// The largest candidate offset of a payload: the last one at which a whole
/// block still fits (0 when none does).
pub open spec fn max_candidate_offset(payload_len: int) -> int {
    if payload_len >= 14 {
        payload_len - 14
    } else {
        0
    }
}

/// The tallies `ts` after one payload: every even offset up to the largest
/// candidate offset observes the payload, and the list grows to cover it.
pub open spec fn observed_all(ts: Seq<LayoutTally>, payload: Seq<u8>) -> Seq<LayoutTally> {
    let max_off = max_candidate_offset(payload.len() as int);
    let n = if ts.len() > max_off { ts.len() as int } else { max_off + 1 };
    Seq::new(
        n as nat,
        |i: int|
            if i % 2 == 0 && i <= max_off {
                observed(tally_or_empty(ts, i), payload, i)
            } else {
                tally_or_empty(ts, i)
            },
    )
}

/// Per-offset layout statistics across the input reports seen so far.
pub struct LayoutDetector {
    stats: Vec<LayoutStats>,
}

impl View for LayoutDetector {
    type V = Seq<LayoutTally>;

    closed spec fn view(&self) -> Seq<LayoutTally> {
        self.stats@.map_values(|s: LayoutStats| s@)
    }
}

/// Layout detection looks at even offsets only: after any payload the
/// odd offsets still hold what they held, and no offset is dropped.
pub proof fn law_only_even_offsets_observed(ts: Seq<LayoutTally>, payload: Seq<u8>)
    ensures
        observed_all(ts, payload).len() >= ts.len(),
        forall|i: int|
            0 <= i < observed_all(ts, payload).len() && i % 2 == 1 ==> #[trigger] observed_all(
                ts,
                payload,
            )[i] == tally_or_empty(ts, i),
{
}

/// After a payload, every even offset `i` at which a whole block fits
/// (`i + 14 <= payload.len()`) has counted exactly one more sample, every
/// other offset has counted none, and the offsets tracked reach at least
/// the last even offset where a block fits.
pub proof fn law_every_fitting_even_offset_observed(ts: Seq<LayoutTally>, payload: Seq<u8>)
    ensures
        forall|i: int|
            0 <= i && i % 2 == 0 && i + 14 <= payload.len() ==> i < observed_all(ts, payload).len()
                && (#[trigger] observed_all(ts, payload)[i]).samples as int == (tally_or_empty(
                ts,
                i,
            ).samples as int + 1) % 0x1_0000_0000,
        forall|i: int|
            0 <= i < observed_all(ts, payload).len() && (i % 2 != 0 || i + 14 > payload.len())
                ==> (#[trigger] observed_all(ts, payload)[i]).samples == tally_or_empty(ts, i).samples,
        observed_all(ts, payload).len() == if payload.len() >= 14 && payload.len() - 13 > ts.len() {
            payload.len() - 13
        } else if ts.len() == 0 {
            1
        } else {
            ts.len() as int
        },
{
}

/// The largest sample count among the tallies (0 for none).
pub open spec fn max_samples_of(ts: Seq<LayoutTally>) -> u32
    decreases ts.len(),
{
    if ts.len() == 0 {
        0
    } else {
        let rest = max_samples_of(ts.drop_last());
        if ts.last().samples > rest {
            ts.last().samples
        } else {
            rest
        }
    }
}

impl LayoutDetector {
    /// A detector that has seen no report.
    pub fn new() -> (d: Self)
        ensures
            d@ == Seq::<LayoutTally>::empty(),
    {
        let d = LayoutDetector { stats: Vec::new() };
        assert(d@ =~= Seq::<LayoutTally>::empty());
        d
    }

    /// Number of candidate offsets tracked.
    pub fn len(&self) -> (n: usize)
        ensures
            n == self@.len(),
    {
        self.stats.len()
    }

    /// The tally of every candidate offset, by offset.
    pub fn tallies(&self) -> (ts: Vec<LayoutTally>)
        ensures
            ts@ == self@,
    {
        let mut ts: Vec<LayoutTally> = Vec::new();
        let n = self.stats.len();
        for i in 0..n
            invariant
                n == self.stats@.len(),
                ts@ == self@.take(i as int),
        {
            ts.push(self.stats[i].tally());
            assert(ts@ =~= self@.take(i + 1));
        }
        assert(self@.take(n as int) =~= self@);
        ts
    }

    /// Observes the payload of one input report (the bytes after the two
    /// header bytes) at every even candidate offset.
    pub fn observe_payload(&mut self, payload: &[u8])
        ensures
            final(self)@ == observed_all(old(self)@, payload@),
    {
        let max_off = payload.len().saturating_sub(INPUT_BLOCK_LEN);
        let ghost old_ts = old(self)@;
        if self.stats.len() <= max_off {
            while self.stats.len() <= max_off
                invariant
                    max_off < usize::MAX,
                    old_ts.len() <= self@.len() <= max_off + 1,
                    forall|i: int| 0 <= i < self@.len() ==> self@[i] == tally_or_empty(old_ts, i),
                decreases max_off + 1 - self.stats.len(),
            {
                self.stats.push(LayoutStats::new());
            }
        }
        let n = self.stats.len();
        assert(n > max_off);
        let mut off: usize = 0;
        while off <= max_off
            invariant
                n == self@.len(),
                n > max_off,
                max_off == max_candidate_offset(payload@.len() as int),
                max_off + 14 <= usize::MAX,
                n == observed_all(old_ts, payload@).len(),
                off % 2 == 0,
                off <= max_off + 2,
                forall|i: int|
                    0 <= i < n ==> self@[i] == (if i % 2 == 0 && i < off {
                        observed_all(old_ts, payload@)[i]
                    } else {
                        tally_or_empty(old_ts, i)
                    }),
            decreases max_off + 2 - off,
        {
            let ghost before = self@;
            assert(self@[off as int] == tally_or_empty(old_ts, off as int));
            let mut st = self.stats[off];
            assert(st@ == tally_or_empty(old_ts, off as int));
            st.observe(payload, off);
            assert(st@ == observed_all(old_ts, payload@)[off as int]);
            self.stats.set(off, st);
            assert forall|i: int| 0 <= i < n implies self@[i] == (if i % 2 == 0 && i < off + 2 {
                observed_all(old_ts, payload@)[i]
            } else {
                tally_or_empty(old_ts, i)
            }) by {
                if i != off {
                    assert(self@[i] == before[i]);
                }
            }
            off = off + 2;
        }
        assert(self@ =~= observed_all(old_ts, payload@));
    }

    /// The largest sample count over all candidate offsets (0 for none).
    pub fn max_samples(&self) -> (m: u32)
        ensures
            m == max_samples_of(self@),
    {
        let mut m: u32 = 0;
        let n = self.stats.len();
        for i in 0..n
            invariant
                n == self@.len(),
                m == max_samples_of(self@.take(i as int)),
        {
            assert(self@.take(i + 1).drop_last() =~= self@.take(i as int));
            if self.stats[i].samples > m {
                m = self.stats[i].samples;
            }
        }
        assert(self@.take(n as int) =~= self@);
        m
    }

    /// Whether enough reports have been seen to pick a layout, once the
    /// detection window (a time span the caller measures) has passed.
    pub fn ready(&self, window_elapsed: bool) -> (r: bool)
        ensures
            r == (window_elapsed && max_samples_of(self@) >= LAYOUT_MIN_SAMPLES),
    {
        window_elapsed && self.max_samples() >= LAYOUT_MIN_SAMPLES
    }
}

/// Offset `i` is an even candidate of `scores` that no even candidate
/// beats, and no later even candidate ties.
pub open spec fn is_best_offset(scores: Seq<i32>, i: int) -> bool {
    &&& 0 <= i < scores.len()
    &&& i % 2 == 0
    &&& forall|j: int| 0 <= j < scores.len() && j % 2 == 0 ==> scores[j] <= scores[i]
    &&& forall|j: int| i < j < scores.len() && j % 2 == 0 ==> scores[j] < scores[i]
}

/// Picks the even offset with the highest score; among equal scores the
/// last one wins. `None` only when there is no offset at all.
pub fn select_best_offset(scores: &[i32]) -> (best: Option<usize>)
    ensures
        best is None <==> scores@.len() == 0,
        best matches Some(i) ==> is_best_offset(scores@, i as int),
{
    let n = scores.len();
    if n == 0 {
        return None;
    }
    let evens = n / 2 + n % 2;
    let mut best: usize = 0;
    let mut k: usize = 1;
    while k < evens
        invariant
            n == scores@.len(),
            evens == n / 2 + n % 2,
            1 <= k <= evens,
            best % 2 == 0,
            best < 2 * k,
            best < n,
            forall|j: int| 0 <= j < 2 * k && j < n && j % 2 == 0 ==> scores@[j] <= scores@[best as int],
            forall|j: int| best < j < 2 * k && j < n && j % 2 == 0 ==> scores@[j] < scores@[best as int],
        decreases evens - k,
    {
        let i = 2 * k;
        if scores[i] >= scores[best] {
            best = i;
        }
        k = k + 1;
    }
    Some(best)
}


/// The lower-case hexadecimal digit of `d` (below 16).
pub open spec fn hex_lower_digit(d: int) -> char {
    seq!['0', '1', '2', '3', '4', '5', '6', '7', '8', '9', 'a', 'b', 'c', 'd', 'e', 'f'][d]
}

/// `bytes` in lower-case hexadecimal, two digits per byte, high nibble first.
pub open spec fn hex_lower(bytes: Seq<u8>) -> Seq<char>
    decreases bytes.len(),
{
    if bytes.len() == 0 {
        Seq::empty()
    } else {
        hex_lower(bytes.drop_last()) + seq![
            hex_lower_digit(bytes.last() as int / 16),
            hex_lower_digit(bytes.last() as int % 16),
        ]
    }
}

/// Calls `hex::encode`, which writes each byte as two lower-case hex
/// digits, high nibble first; the contract states exactly that.
#[verifier::external_body]
fn hex_encode(data: &[u8]) -> (s: String)
    ensures
        s@ == hex_lower(data@),
{
    hex::encode(data)
}

/// The line that dumps a raw report: `RAW ` and its bytes in hex.
pub fn dump_line(pkt: &[u8]) -> (line: String)
    ensures
        line@ == "RAW "@ + hex_lower(pkt@),
{
    let hex = hex_encode(pkt);
    String::from_str("RAW ").concat(hex.as_str())
}

/// Whether a report is a GIP input report (command byte `0x20`).
pub fn is_input_report(pkt: &[u8]) -> (r: bool)
    ensures
        r == (pkt@.len() > 0 && pkt@[0] == GIP_INPUT_COMMAND),
{
    pkt.len() > 0 && pkt[0] == GIP_INPUT_COMMAND
}

} // verus!
