//! Interface tests of TDMoE spans: loopback, cross-port wiring and end-to-end
//! calls. The service admits tests and keeps their results; the frames of a
//! test, their measurement and the final analysis are verified functions that
//! a runner calls. Times are milliseconds, delays microseconds.

use vstd::prelude::*;
use crate::error::{GatewayError, GatewayResult};
use crate::keyed::{NumKeyed, NumKeyedList};
use crate::testing::{is_isqrt, mean_and_jitter, random_below, sq_dev, sum_seq};
use crate::text::{join2, push_char};
use crate::alarms::{hex_char, hex_digit, pow16};

verus! {

/// Test types for interface testing
#[derive(Clone, Copy, Debug, PartialEq, Eq, Structural)]
pub enum InterfaceTestType {
    /// Data sent on a span should come back to it
    TdmoeLoopback,
    /// Data sent on one span should arrive on another
    CrossPortWiring,
    /// A call through the gateway
    EndToEndCall,
    /// Timing and synchronization
    TimingSyncTest,
    /// Protocol stack validation
    ProtocolStackTest,
}

/// Test pattern types for generating test data
#[derive(Clone, Debug)]
pub enum TestPattern {
    Prbs15,
    Prbs23,
    Prbs31,
    AllZeros,
    AllOnes,
    Alternating,
    /// A sequence repeated over the frame
    Custom(Vec<u8>),
    /// A tone of a frequency in hertz
    ToneGeneration(u32),
    Q931Setup,
    Q931Release,
    LapdFrames,
}

/// A test pattern as a mathematical value.
pub enum TestPatternView {
    Prbs15,
    Prbs23,
    Prbs31,
    AllZeros,
    AllOnes,
    Alternating,
    Custom(Seq<u8>),
    ToneGeneration(u32),
    Q931Setup,
    Q931Release,
    LapdFrames,
}

impl View for TestPattern {
    type V = TestPatternView;

    open spec fn view(&self) -> TestPatternView {
        match self {
            TestPattern::Prbs15 => TestPatternView::Prbs15,
            TestPattern::Prbs23 => TestPatternView::Prbs23,
            TestPattern::Prbs31 => TestPatternView::Prbs31,
            TestPattern::AllZeros => TestPatternView::AllZeros,
            TestPattern::AllOnes => TestPatternView::AllOnes,
            TestPattern::Alternating => TestPatternView::Alternating,
            TestPattern::Custom(v) => TestPatternView::Custom(v@),
            TestPattern::ToneGeneration(f) => TestPatternView::ToneGeneration(*f),
            TestPattern::Q931Setup => TestPatternView::Q931Setup,
            TestPattern::Q931Release => TestPatternView::Q931Release,
            TestPattern::LapdFrames => TestPatternView::LapdFrames,
        }
    }
}

impl TestPattern {
    /// A copy of the pattern.
    pub fn duplicate(&self) -> (r: Self)
        ensures
            r@ == self@,
    {
        match self {
            TestPattern::Prbs15 => TestPattern::Prbs15,
            TestPattern::Prbs23 => TestPattern::Prbs23,
            TestPattern::Prbs31 => TestPattern::Prbs31,
            TestPattern::AllZeros => TestPattern::AllZeros,
            TestPattern::AllOnes => TestPattern::AllOnes,
            TestPattern::Alternating => TestPattern::Alternating,
            TestPattern::Custom(v) => {
                let mut c: Vec<u8> = Vec::new();
                let mut i: usize = 0;
                while i < v.len()
                    invariant
                        i <= v@.len(),
                        c@ == v@.subrange(0, i as int),
                    decreases v@.len() - i,
                {
                    c.push(v[i]);
                    i = i + 1;
                }
                proof {
                    assert(v@.subrange(0, v@.len() as int) =~= v@);
                }
                TestPattern::Custom(c)
            },
            TestPattern::ToneGeneration(f) => TestPattern::ToneGeneration(*f),
            TestPattern::Q931Setup => TestPattern::Q931Setup,
            TestPattern::Q931Release => TestPattern::Q931Release,
            TestPattern::LapdFrames => TestPattern::LapdFrames,
        }
    }
}

/// A ratio of two counts; with a zero denominator it stands for zero.
#[derive(Clone, Copy, Debug, PartialEq, Eq, Structural)]
pub struct Ratio {
    pub num: u64,
    pub den: u64,
}

impl Ratio {
    /// Whether the ratio exceeds `a / b` (with `b` positive).
    pub open spec fn exceeds(self, a: nat, b: nat) -> bool {
        self.den > 0 && self.num * b > a * self.den
    }
}

/// Interface configuration for testing; the success threshold is in
/// hundredths of a percent of frames that must arrive.
#[derive(Clone, Debug)]
pub struct InterfaceTestConfig {
    pub test_id: u128,
    pub test_type: InterfaceTestType,
    pub source_span: u32,
    pub source_channel: Option<u8>,
    pub dest_span: Option<u32>,
    pub dest_channel: Option<u8>,
    pub pattern: TestPattern,
    pub duration_ms: u64,
    pub data_rate: u64,
    pub frame_size: usize,
    pub expected_delay_us: u64,
    pub tolerance_us: u64,
    pub success_threshold_centi: u32,
}

/// Test statistics; the throughput is in bits per second.
#[derive(Clone, Copy, Debug, PartialEq, Eq, Structural)]
pub struct InterfaceTestStats {
    pub test_id: u128,
    pub start_ms: i64,
    pub elapsed_ms: u64,
    pub frames_sent: u64,
    pub frames_received: u64,
    pub frames_lost: u64,
    pub frames_corrupted: u64,
    pub bytes_sent: u64,
    pub bytes_received: u64,
    pub min_delay_us: u64,
    pub max_delay_us: u64,
    pub avg_delay_us: u64,
    pub jitter_us: u64,
    pub bit_error_rate: Ratio,
    pub frame_error_rate: Ratio,
    pub current_throughput_bps: u64,
    pub timing_errors: u64,
    pub sync_losses: u64,
}

/// Individual frame measurement; the signal quality is in thousandths.
#[derive(Clone, Copy, Debug, PartialEq, Eq, Structural)]
pub struct FrameMeasurement {
    pub sequence_number: u64,
    pub send_ms: i64,
    pub receive_ms: Option<i64>,
    pub round_trip_delay_us: Option<u64>,
    pub corrupted: bool,
    pub error_bits: u32,
    pub signal_quality_milli: u32,
}

/// Test result with analysis
#[derive(Clone, Debug)]
pub struct InterfaceTestResult {
    pub config: InterfaceTestConfig,
    pub stats: InterfaceTestStats,
    pub success: bool,
    pub completion_ms: i64,
    pub error_analysis: Vec<String>,
    pub recommendations: Vec<String>,
    pub raw_measurements: Vec<FrameMeasurement>,
}

impl NumKeyed for InterfaceTestResult {
    open spec fn key(&self) -> u128 {
        self.config.test_id
    }

    fn key_num(&self) -> (r: u128) {
        self.config.test_id
    }
}

/// A running test: its configuration, statistics and measurements.
pub struct ActiveTest {
    pub config: InterfaceTestConfig,
    pub stats: InterfaceTestStats,
    pub measurements: Vec<FrameMeasurement>,
    pub start_ms: i64,
}

impl NumKeyed for ActiveTest {
    open spec fn key(&self) -> u128 {
        self.config.test_id
    }

    fn key_num(&self) -> (r: u128) {
        self.config.test_id
    }
}

/// The configuration of a loopback test of a span: E1 rate, 32-byte frames,
/// an expected delay of one frame time (125 us) within 50 us, 99.9% to pass.
pub open spec fn loopback_config_spec(c: InterfaceTestConfig, id: u128, span: u32, pattern: TestPatternView, duration_ms: u64) -> bool {
    &&& c.test_id == id
    &&& c.test_type == InterfaceTestType::TdmoeLoopback
    &&& c.source_span == span
    &&& c.source_channel is None
    &&& c.dest_span is None
    &&& c.dest_channel is None
    &&& c.pattern@ == pattern
    &&& c.duration_ms == duration_ms
    &&& c.data_rate == 2_048_000
    &&& c.frame_size == 32
    &&& c.expected_delay_us == 125
    &&& c.tolerance_us == 50
    &&& c.success_threshold_centi == 9990
}

/// The configuration of a cross-port test: E1 rate, 32-byte frames, 1 ms
/// expected delay within 5 ms, 99% to pass.
pub open spec fn cross_port_config_spec(c: InterfaceTestConfig, id: u128, source: u32, dest: u32, pattern: TestPatternView, duration_ms: u64) -> bool {
    &&& c.test_id == id
    &&& c.test_type == InterfaceTestType::CrossPortWiring
    &&& c.source_span == source
    &&& c.source_channel is None
    &&& c.dest_span == Some(dest)
    &&& c.dest_channel is None
    &&& c.pattern@ == pattern
    &&& c.duration_ms == duration_ms
    &&& c.data_rate == 2_048_000
    &&& c.frame_size == 32
    &&& c.expected_delay_us == 1000
    &&& c.tolerance_us == 5000
    &&& c.success_threshold_centi == 9900
}

/// The configuration of an end-to-end call test: B-channel 1 on both spans, a
/// 1 kHz tone at 64 kbit/s in 8-byte frames, 20 ms expected delay within
/// 100 ms, 95% to pass.
pub open spec fn end_to_end_config_spec(c: InterfaceTestConfig, id: u128, calling: u32, called: u32, duration_ms: u64) -> bool {
    &&& c.test_id == id
    &&& c.test_type == InterfaceTestType::EndToEndCall
    &&& c.source_span == calling
    &&& c.source_channel == Some(1u8)
    &&& c.dest_span == Some(called)
    &&& c.dest_channel == Some(1u8)
    &&& c.pattern@ == TestPatternView::ToneGeneration(1000)
    &&& c.duration_ms == duration_ms
    &&& c.data_rate == 64_000
    &&& c.frame_size == 8
    &&& c.expected_delay_us == 20_000
    &&& c.tolerance_us == 100_000
    &&& c.success_threshold_centi == 9500
}

/// Builds the configuration of a loopback test.
pub fn loopback_config(id: u128, span: u32, pattern: TestPattern, duration_ms: u64) -> (c: InterfaceTestConfig)
    ensures
        loopback_config_spec(c, id, span, pattern@, duration_ms),
{
    InterfaceTestConfig {
        test_id: id,
        test_type: InterfaceTestType::TdmoeLoopback,
        source_span: span,
        source_channel: None,
        dest_span: None,
        dest_channel: None,
        pattern,
        duration_ms,
        data_rate: 2_048_000,
        frame_size: 32,
        expected_delay_us: 125,
        tolerance_us: 50,
        success_threshold_centi: 9990,
    }
}

/// Builds the configuration of a cross-port test.
pub fn cross_port_config(id: u128, source: u32, dest: u32, pattern: TestPattern, duration_ms: u64) -> (c: InterfaceTestConfig)
    ensures
        cross_port_config_spec(c, id, source, dest, pattern@, duration_ms),
{
    InterfaceTestConfig {
        test_id: id,
        test_type: InterfaceTestType::CrossPortWiring,
        source_span: source,
        source_channel: None,
        dest_span: Some(dest),
        dest_channel: None,
        pattern,
        duration_ms,
        data_rate: 2_048_000,
        frame_size: 32,
        expected_delay_us: 1000,
        tolerance_us: 5000,
        success_threshold_centi: 9900,
    }
}

/// Builds the configuration of an end-to-end call test.
pub fn end_to_end_config(id: u128, calling: u32, called: u32, duration_ms: u64) -> (c: InterfaceTestConfig)
    ensures
        end_to_end_config_spec(c, id, calling, called, duration_ms),
{
    InterfaceTestConfig {
        test_id: id,
        test_type: InterfaceTestType::EndToEndCall,
        source_span: calling,
        source_channel: Some(1),
        dest_span: Some(called),
        dest_channel: Some(1),
        pattern: TestPattern::ToneGeneration(1000),
        duration_ms,
        data_rate: 64_000,
        frame_size: 8,
        expected_delay_us: 20_000,
        tolerance_us: 100_000,
        success_threshold_centi: 9500,
    }
}

/// The time between frames in nanoseconds: a frame's bits at the data rate, rounded down.
pub fn frame_interval_ns(config: &InterfaceTestConfig) -> (r: u64)
    requires
        config.data_rate > 0,
        1_000_000_000 * config.frame_size * 8 <= u64::MAX,
    ensures
        r == (1_000_000_000 * config.frame_size * 8) / (config.data_rate as int),
{
    (1_000_000_000 * (config.frame_size as u64) * 8) / config.data_rate
}

/// The Q.931 SETUP message that a `Q931Setup` frame starts with.
pub open spec fn q931_setup_bytes() -> Seq<u8> {
    seq![0x08u8, 0x01, 0x01, 0x02, 0x05, 0x04, 0x03, 0x80, 0x90, 0xA2, 0x6C, 0x04, 0x21, 0x83, 0x00, 0x00,
        0x70, 0x04, 0x21, 0x83, 0x00, 0x01]
}

/// The Q.931 RELEASE message that a `Q931Release` frame starts with.
pub open spec fn q931_release_bytes() -> Seq<u8> {
    seq![0x08u8, 0x01, 0x01, 0x02, 0x4D, 0x08, 0x02, 0x80, 0x10]
}

/// The LAPD frame that a `LapdFrames` frame starts with.
pub open spec fn lapd_bytes() -> Seq<u8> {
    seq![0x02u8, 0x01, 0x01, 0x02, 0x03, 0x04]
}

/// A message cut or padded with zeros to `size` bytes.
pub open spec fn resized(m: Seq<u8>, size: nat) -> Seq<u8> {
    Seq::new(size, |i: int| if i < m.len() { m[i] } else { 0u8 })
}

/// The little-endian bytes of 16-bit samples.
pub open spec fn le_samples(s: Seq<i16>) -> Seq<u8> {
    Seq::new(2 * s.len(), |i: int| if i % 2 == 0 { (s[i / 2] as u16 & 0xff) as u8 } else { ((s[i / 2] as u16) >> 8u16) as u8 })
}

/// The first `n` of the samples `s`, with silence after the last one.
pub open spec fn tone_frame_samples(s: Seq<i16>, n: nat) -> Seq<i16> {
    Seq::new(n, |i: int| if i < s.len() { s[i] } else { 0i16 })
}

/// Whether `data` is a frame of the pattern for a fixed pattern (the random
/// ones can be any bytes of the right length; a tone frame holds one 16-bit
/// sample of the tone for each two bytes of the frame).
pub open spec fn frame_of(p: TestPatternView, size: nat, tone_samples: Seq<i16>, data: Seq<u8>) -> bool {
    match p {
        TestPatternView::AllZeros => data == Seq::new(size, |i: int| 0u8),
        TestPatternView::AllOnes => data == Seq::new(size, |i: int| 0xFFu8),
        TestPatternView::Alternating => data == Seq::new(size, |i: int| if i % 2 == 0 { 0x55u8 } else { 0xAAu8 }),
        TestPatternView::Prbs15 | TestPatternView::Prbs23 | TestPatternView::Prbs31 => data.len() == size,
        TestPatternView::Custom(c) => data == Seq::new(size, |i: int| c[i % (c.len() as int)]),
        TestPatternView::ToneGeneration(_) => data == le_samples(tone_frame_samples(tone_samples, size / 2)),
        TestPatternView::Q931Setup => data == resized(q931_setup_bytes(), size),
        TestPatternView::Q931Release => data == resized(q931_release_bytes(), size),
        TestPatternView::LapdFrames => data == resized(lapd_bytes(), size),
    }
}

/// A random byte from `rand::random`. Nothing is stated of it: it is chance.
#[verifier::external_body]
fn random_byte() -> (r: u8) {
    rand::random::<u8>()
}

fn resize_message(m: Vec<u8>, size: usize) -> (r: Vec<u8>)
    ensures
        r@ == resized(m@, size as nat),
{
    let mut r: Vec<u8> = Vec::new();
    let mut i: usize = 0;
    while i < size
        invariant
            i <= size,
            r@ == resized(m@, size as nat).subrange(0, i as int),
        decreases size - i,
    {
        if i < m.len() {
            r.push(m[i]);
        } else {
            r.push(0);
        }
        i = i + 1;
        proof {
            assert(r@ =~= resized(m@, size as nat).subrange(0, i as int));
        }
    }
    proof {
        assert(resized(m@, size as nat).subrange(0, size as int) =~= resized(m@, size as nat));
    }
    r
}

/// `n` lower-case hexadecimal digits of `v`, most significant first.
pub open spec fn hex_digits(v: nat, n: nat) -> Seq<char> {
    Seq::new(n, |i: int| hex_digit((v / pow16((n - 1 - i) as nat)) % 16))
}

/// The text of a test id in the usual 8-4-4-4-12 form of a UUID.
pub open spec fn uuid_text_spec(id: u128) -> Seq<char> {
    let h = hex_digits(id as nat, 32);
    h.subrange(0, 8) + "-"@ + h.subrange(8, 12) + "-"@ + h.subrange(12, 16) + "-"@ + h.subrange(16, 20) + "-"@
        + h.subrange(20, 32)
}

/// Renders a test id as a UUID (`xxxxxxxx-xxxx-xxxx-xxxx-xxxxxxxxxxxx`).
pub fn uuid_text(id: u128) -> (r: String)
    ensures
        r@ == uuid_text_spec(id),
{
    let ghost h = hex_digits(id as nat, 32);
    let mut r = String::new();
    let mut i: u32 = 0;
    let mut div: u128 = 0x1000_0000_0000_0000_0000_0000_0000_0000;
    proof {
        reveal_with_fuel(pow16, 32);
        reveal_strlit("-");
    }
    while i < 32
        invariant
            i <= 32,
            div as nat == pow16((31 - i) as nat) || i == 32,
            r@ == uuid_text_spec(id).subrange(0, i as int + if i > 20 { 4int } else if i > 16 { 3int } else if i > 12 { 2int } else if i > 8 { 1int } else { 0int }),
            h == hex_digits(id as nat, 32),
            "-"@ == seq!['-'],
        decreases 32 - i,
    {
        if i == 8 || i == 12 || i == 16 || i == 20 {
            push_char(&mut r, '-');
        }
        proof {
            assert(pow16((31 - i) as nat) > 0) by {
                lemma_pow16_pos((31 - i) as nat);
            }
        }
        let d = (id / div) % 16;
        let c = hex_char(d as u32);
        push_char(&mut r, c);
        proof {
            assert(c == h[i as int]);
        }
        i = i + 1;
        if i < 32 {
            div = div / 16;
        }
        proof {
            let k: int = if i > 20 { 4int } else if i > 16 { 3int } else if i > 12 { 2int } else if i > 8 { 1int } else { 0int };
            assert(r@ =~= uuid_text_spec(id).subrange(0, i as int + k));
        }
    }
    proof {
        assert(uuid_text_spec(id).subrange(0, 36) =~= uuid_text_spec(id));
    }
    r
}

proof fn lemma_pow16_pos(n: nat)
    ensures
        pow16(n) > 0,
    decreases n,
{
    if n > 0 {
        lemma_pow16_pos((n - 1) as nat);
    }
}

/// The share of frames a test type loses, in parts per million.
pub open spec fn frame_loss_ppm(t: InterfaceTestType) -> nat {
    match t {
        InterfaceTestType::TdmoeLoopback => 1_000,
        InterfaceTestType::CrossPortWiring => 10_000,
        InterfaceTestType::EndToEndCall => 50_000,
        _ => 10_000,
    }
}

/// The measurement of one frame, given the random draws: the frame arrives
/// unless the loss draw (parts per million) falls within the loss rate of the
/// test type; it is corrupted when the corruption draw is under 100 parts per
/// million, with one to eight errored bits; its signal quality is 90 plus the
/// quality draw (thousandths, under ten).
pub fn measure_frame(
    sequence_number: u64,
    test_type: InterfaceTestType,
    send_ms: i64,
    receive_ms: i64,
    delay_us: u64,
    loss_draw_ppm: u32,
    corrupt_draw_ppm: u32,
    bits_draw: u8,
    quality_draw_milli: u32,
) -> (r: Option<FrameMeasurement>)
    requires
        quality_draw_milli < 10_000,
    ensures
        r is Some <==> loss_draw_ppm > frame_loss_ppm(test_type),
        r matches Some(m) ==> {
            &&& m.sequence_number == sequence_number
            &&& m.send_ms == send_ms
            &&& m.receive_ms == Some(receive_ms)
            &&& m.round_trip_delay_us == Some(delay_us)
            &&& m.corrupted == (corrupt_draw_ppm < 100)
            &&& m.error_bits == if corrupt_draw_ppm < 100 { (bits_draw % 8) as u32 + 1 } else { 0 }
            &&& m.signal_quality_milli == 90_000 + quality_draw_milli
        },
{
    let loss: u32 = match test_type {
        InterfaceTestType::TdmoeLoopback => 1_000,
        InterfaceTestType::CrossPortWiring => 10_000,
        InterfaceTestType::EndToEndCall => 50_000,
        _ => 10_000,
    };
    if loss_draw_ppm > loss {
        let corrupted = corrupt_draw_ppm < 100;
        let error_bits: u32 = if corrupted { (bits_draw % 8) as u32 + 1 } else { 0 };
        Some(FrameMeasurement {
            sequence_number,
            send_ms,
            receive_ms: Some(receive_ms),
            round_trip_delay_us: Some(delay_us),
            corrupted,
            error_bits,
            signal_quality_milli: 90_000 + quality_draw_milli,
        })
    } else {
        None
    }
}

/// Transmits one frame: draws its loss, corruption and signal quality and
/// measures it. Whatever the draws, a frame that arrives carries its sequence
/// number, times and delay, and at most eight errored bits.
pub fn transmit_frame(sequence_number: u64, test_type: InterfaceTestType, send_ms: i64, receive_ms: i64, delay_us: u64) -> (r: Option<FrameMeasurement>)
    ensures
        r matches Some(m) ==> {
            &&& m.sequence_number == sequence_number
            &&& m.send_ms == send_ms
            &&& m.receive_ms == Some(receive_ms)
            &&& m.round_trip_delay_us == Some(delay_us)
            &&& m.error_bits <= 8
            &&& (m.error_bits > 0 <==> m.corrupted)
        },
{
    let loss = random_below(1_000_000);
    let corrupt = random_below(1_000_000);
    let bits = random_byte();
    let quality = random_below(10_000);
    measure_frame(sequence_number, test_type, send_ms, receive_ms, delay_us, loss, corrupt, bits, quality)
}

/// Counts one more frame sent, of `frame_len` bytes.
pub fn record_frame_sent(stats: &mut InterfaceTestStats, frame_len: usize)
    requires
        old(stats).frames_sent < u64::MAX,
        old(stats).bytes_sent + frame_len <= u64::MAX,
    ensures
        *final(stats) == (InterfaceTestStats {
            frames_sent: (old(stats).frames_sent + 1) as u64,
            bytes_sent: (old(stats).bytes_sent + frame_len) as u64,
            ..*old(stats)
        }),
{
    stats.frames_sent = stats.frames_sent + 1;
    stats.bytes_sent = stats.bytes_sent + frame_len as u64;
}

/// The round trip delays of the measurements that have one, in order.
pub open spec fn delays_of(ms: Seq<FrameMeasurement>) -> Seq<u64>
    decreases ms.len(),
{
    if ms.len() == 0 {
        Seq::empty()
    } else {
        delays_of(ms.drop_last()) + match ms.last().round_trip_delay_us {
            Some(d) => seq![d],
            None => Seq::empty(),
        }
    }
}

/// The number of corrupted measurements.
pub open spec fn corrupted_count(ms: Seq<FrameMeasurement>) -> nat
    decreases ms.len(),
{
    if ms.len() == 0 { 0 } else { corrupted_count(ms.drop_last()) + if ms.last().corrupted { 1nat } else { 0nat } }
}

/// The errored bits of all measurements.
pub open spec fn error_bits_sum(ms: Seq<FrameMeasurement>) -> nat
    decreases ms.len(),
{
    if ms.len() == 0 { 0 } else { error_bits_sum(ms.drop_last()) + (ms.last().error_bits as nat) }
}

/// The least value of a sequence that is not empty.
pub open spec fn min_of(s: Seq<u64>) -> u64
    decreases s.len(),
{
    if s.len() <= 1 { s[0] } else { let m = min_of(s.drop_last()); if s.last() < m { s.last() } else { m } }
}

/// The greatest value of a sequence that is not empty.
pub open spec fn max_of(s: Seq<u64>) -> u64
    decreases s.len(),
{
    if s.len() <= 1 { s[0] } else { let m = max_of(s.drop_last()); if s.last() > m { s.last() } else { m } }
}

/// The least and greatest values of a sequence that is not empty are values
/// of it, and bound every value from below and from above.
pub proof fn law_min_max_bound_the_values(s: Seq<u64>)
    requires
        s.len() > 0,
    ensures
        forall|i: int| 0 <= i < s.len() ==> min_of(s) <= #[trigger] s[i] && s[i] <= max_of(s),
        exists|i: int| 0 <= i < s.len() && #[trigger] s[i] == min_of(s),
        exists|i: int| 0 <= i < s.len() && #[trigger] s[i] == max_of(s),
    decreases s.len(),
{
    if s.len() == 1 {
        assert(s[0] == min_of(s) && s[0] == max_of(s));
    } else {
        let t = s.drop_last();
        law_min_max_bound_the_values(t);
        assert forall|i: int| 0 <= i < s.len() implies min_of(s) <= #[trigger] s[i] && s[i] <= max_of(s) by {
            if i < t.len() {
                assert(s[i] == t[i]);
            }
        }
        if s.last() < min_of(t) {
            assert(s[s.len() - 1] == min_of(s));
        } else {
            let j = choose|j: int| 0 <= j < t.len() && #[trigger] t[j] == min_of(t);
            assert(s[j] == min_of(s));
        }
        if s.last() > max_of(t) {
            assert(s[s.len() - 1] == max_of(s));
        } else {
            let j = choose|j: int| 0 <= j < t.len() && #[trigger] t[j] == max_of(t);
            assert(s[j] == max_of(s));
        }
    }
}

/// Whether a test with these statistics reached its success threshold:
/// the share of frames that arrived, in hundredths of a percent, is at least
/// the threshold (no frame sent counts as none arrived).
pub open spec fn test_passes(st: InterfaceTestStats, threshold_centi: nat) -> bool {
    if st.frames_sent > 0 {
        st.frames_received * 10_000 >= threshold_centi * st.frames_sent
    } else {
        threshold_centi == 0
    }
}

/// More frames arriving never turns a pass into a failure, and a test in
/// which every frame sent arrived passes any threshold up to 100%.
pub proof fn law_test_passes_with_more_frames(a: InterfaceTestStats, b: InterfaceTestStats, threshold_centi: nat)
    requires
        a.frames_sent == b.frames_sent,
        a.frames_received <= b.frames_received,
    ensures
        test_passes(a, threshold_centi) ==> test_passes(b, threshold_centi),
        a.frames_sent > 0 && a.frames_received == a.frames_sent && threshold_centi <= 10_000 ==> test_passes(a, threshold_centi),
{
    if a.frames_sent > 0 {
        assert(a.frames_received * 10_000 <= b.frames_received * 10_000) by (nonlinear_arith)
            requires
                a.frames_received <= b.frames_received,
        ;
        if a.frames_received == a.frames_sent && threshold_centi <= 10_000 {
            assert(threshold_centi * a.frames_sent <= a.frames_sent * 10_000) by (nonlinear_arith)
                requires
                    threshold_centi <= 10_000,
            ;
        }
    }
}

/// The findings of a failed test, each with its recommendation, in order:
/// frame loss over 10%, bit errors over 1e-3, average delay over the expected
/// delay plus tolerance, jitter over 10 ms.
pub open spec fn failure_findings(st: InterfaceTestStats, c: InterfaceTestConfig) -> Seq<(Seq<char>, Seq<char>)> {
    (if st.frame_error_rate.exceeds(1, 10) {
        seq![("High frame loss detected"@, "Check physical connections and cable integrity"@)]
    } else {
        Seq::empty()
    }) + (if st.bit_error_rate.exceeds(1, 1000) {
        seq![("Excessive bit errors detected"@, "Verify signal levels and reduce electromagnetic interference"@)]
    } else {
        Seq::empty()
    }) + (if st.avg_delay_us > c.expected_delay_us + c.tolerance_us {
        seq![("High latency detected"@, "Check network congestion and processing delays"@)]
    } else {
        Seq::empty()
    }) + (if st.jitter_us > 10_000 {
        seq![("High jitter detected"@, "Improve timing synchronization and reduce network variability"@)]
    } else {
        Seq::empty()
    })
}

/// The texts of a list of strings.
pub open spec fn texts(v: Seq<String>) -> Seq<Seq<char>> {
    v.map_values(|s: String| s@)
}

pub(crate) fn push_text(v: &mut Vec<String>, t: &str)
    ensures
        texts(final(v)@) == texts(old(v)@).push(t@),
{
    v.push(String::from_str(t));
    proof {
        assert(texts(v@) =~= texts(old(v)@).push(t@));
    }
}

/// The measurement sums a test result needs, within what they can hold.
pub open spec fn result_computable(stats: InterfaceTestStats, ms: Seq<FrameMeasurement>) -> bool {
    ms.len() > 0 ==> {
        &&& stats.frames_received <= stats.frames_sent
        &&& error_bits_sum(ms) <= u32::MAX
        &&& stats.bytes_sent * 8 <= u64::MAX
        &&& (stats.elapsed_ms >= 1000 ==> stats.bytes_received * 8 <= u64::MAX)
    }
}

/// The final statistics of a test from its running statistics and its
/// measurements. With no measurement they are the running statistics. With
/// some, the delays give the minimum, maximum, mean and jitter (when any
/// measurement has a delay), the lost and corrupted frames are counted, and
/// the frame error rate, bit error rate and throughput are set.
pub open spec fn final_stats_ok(st: InterfaceTestStats, before: InterfaceTestStats, ms: Seq<FrameMeasurement>) -> bool {
    if ms.len() == 0 {
        st == before
    } else {
        let d = delays_of(ms);
        &&& st.test_id == before.test_id
        &&& st.start_ms == before.start_ms
        &&& st.elapsed_ms == before.elapsed_ms
        &&& st.frames_sent == before.frames_sent
        &&& st.frames_received == before.frames_received
        &&& st.bytes_sent == before.bytes_sent
        &&& st.bytes_received == before.bytes_received
        &&& st.timing_errors == before.timing_errors
        &&& st.sync_losses == before.sync_losses
        &&& (d.len() > 0 ==> {
            &&& st.min_delay_us == min_of(d)
            &&& st.max_delay_us == max_of(d)
            &&& st.avg_delay_us == sum_seq(d) / (d.len() as int)
            &&& is_isqrt((sq_dev(d, st.avg_delay_us as int) / (d.len() as int)) as nat, st.jitter_us as nat)
        })
        &&& (d.len() == 0 ==> st.min_delay_us == before.min_delay_us && st.max_delay_us == before.max_delay_us
            && st.avg_delay_us == before.avg_delay_us && st.jitter_us == before.jitter_us)
        &&& st.frames_lost == before.frames_sent - before.frames_received
        &&& st.frames_corrupted == corrupted_count(ms)
        &&& st.frame_error_rate == Ratio { num: st.frames_lost, den: before.frames_sent }
        &&& st.bit_error_rate == Ratio { num: error_bits_sum(ms) as u64, den: (before.bytes_sent * 8) as u64 }
        &&& st.current_throughput_bps == if before.elapsed_ms >= 1000 {
            (before.bytes_received * 8 * 1000) / (before.elapsed_ms as int)
        } else {
            before.current_throughput_bps as int
        }
    }
}

/// The final statistics of a test from its running statistics and its measurements.
pub fn final_stats(stats: InterfaceTestStats, measurements: &Vec<FrameMeasurement>) -> (st: InterfaceTestStats)
    requires
        result_computable(stats, measurements@),
    ensures
        final_stats_ok(st, stats, measurements@),
{
    let mut st = stats;
    let n = measurements.len();
    if n > 0 {
        let ghost ms = measurements@;
        let mut delays: Vec<u64> = Vec::new();
        let mut corrupted: u64 = 0;
        let mut bits: u32 = 0;
        let mut i: usize = 0;
        proof {
            assert(ms.subrange(0, 0) =~= Seq::<FrameMeasurement>::empty());
        }
        while i < n
            invariant
                ms == measurements@,
                n == ms.len(),
                i <= n,
                delays@ == delays_of(ms.subrange(0, i as int)),
                corrupted == corrupted_count(ms.subrange(0, i as int)),
                bits == error_bits_sum(ms.subrange(0, i as int)),
                error_bits_sum(ms) <= u32::MAX,
                corrupted <= i,
            decreases n - i,
        {
            proof {
                assert(ms.subrange(0, i as int + 1).drop_last() =~= ms.subrange(0, i as int));
                lemma_error_bits_prefix(ms, i as int + 1);
            }
            let m = &measurements[i];
            match m.round_trip_delay_us {
                Some(d) => { delays.push(d); },
                None => {},
            }
            if m.corrupted {
                corrupted = corrupted + 1;
            }
            bits = bits + m.error_bits;
            i = i + 1;
        }
        proof {
            assert(ms.subrange(0, n as int) =~= ms);
        }
        if delays.len() > 0 {
            let mut lo = delays[0];
            let mut hi = delays[0];
            let mut k: usize = 1;
            let ghost d = delays@;
            proof {
                assert(d.subrange(0, 1).drop_last() =~= Seq::<u64>::empty());
            }
            while k < delays.len()
                invariant
                    d == delays@,
                    1 <= k <= d.len(),
                    lo == min_of(d.subrange(0, k as int)),
                    hi == max_of(d.subrange(0, k as int)),
                decreases d.len() - k,
            {
                proof {
                    assert(d.subrange(0, k as int + 1).drop_last() =~= d.subrange(0, k as int));
                }
                if delays[k] < lo {
                    lo = delays[k];
                }
                if delays[k] > hi {
                    hi = delays[k];
                }
                k = k + 1;
            }
            proof {
                assert(d.subrange(0, d.len() as int) =~= d);
            }
            let (avg, jitter) = mean_and_jitter(&delays);
            st.min_delay_us = lo;
            st.max_delay_us = hi;
            st.avg_delay_us = avg;
            st.jitter_us = jitter;
        }
        st.frames_lost = st.frames_sent - st.frames_received;
        st.frames_corrupted = corrupted;
        st.frame_error_rate = Ratio { num: st.frames_lost, den: st.frames_sent };
        st.bit_error_rate = Ratio { num: bits as u64, den: st.bytes_sent * 8 };
        if st.elapsed_ms >= 1000 {
            let num: u128 = (st.bytes_received as u128) * 8 * 1000;
            let den: u128 = st.elapsed_ms as u128;
            let bps: u128 = num / den;
            assert(bps <= u64::MAX) by (nonlinear_arith)
                requires
                    bps == num / den,
                    num == st.bytes_received * 8 * 1000,
                    st.bytes_received * 8 <= u64::MAX,
                    den >= 1000,
            ;
            st.current_throughput_bps = bps as u64;
        }
    }
    st
}

/// The findings of a failed test and a recommendation for each.
pub fn failure_analysis(st: &InterfaceTestStats, config: &InterfaceTestConfig) -> (r: (Vec<String>, Vec<String>))
    ensures
        texts(r.0@) == failure_findings(*st, *config).map_values(|f: (Seq<char>, Seq<char>)| f.0),
        texts(r.1@) == failure_findings(*st, *config).map_values(|f: (Seq<char>, Seq<char>)| f.1),
{
    let mut analysis: Vec<String> = Vec::new();
    let mut recs: Vec<String> = Vec::new();
    let ghost f = failure_findings(*st, *config);
    let ghost f1 = if st.frame_error_rate.exceeds(1, 10) {
        seq![("High frame loss detected"@, "Check physical connections and cable integrity"@)]
    } else {
        Seq::<(Seq<char>, Seq<char>)>::empty()
    };
    if st.frame_error_rate.den > 0 && (st.frame_error_rate.num as u128) * 10 > st.frame_error_rate.den as u128 {
        push_text(&mut analysis, "High frame loss detected");
        push_text(&mut recs, "Check physical connections and cable integrity");
    }
    proof {
        assert(texts(analysis@) =~= f1.map_values(|x: (Seq<char>, Seq<char>)| x.0));
        assert(texts(recs@) =~= f1.map_values(|x: (Seq<char>, Seq<char>)| x.1));
    }
    let ghost f2 = f1 + if st.bit_error_rate.exceeds(1, 1000) {
        seq![("Excessive bit errors detected"@, "Verify signal levels and reduce electromagnetic interference"@)]
    } else {
        Seq::<(Seq<char>, Seq<char>)>::empty()
    };
    if st.bit_error_rate.den > 0 && (st.bit_error_rate.num as u128) * 1000 > st.bit_error_rate.den as u128 {
        push_text(&mut analysis, "Excessive bit errors detected");
        push_text(&mut recs, "Verify signal levels and reduce electromagnetic interference");
    }
    proof {
        assert(texts(analysis@) =~= f2.map_values(|x: (Seq<char>, Seq<char>)| x.0));
        assert(texts(recs@) =~= f2.map_values(|x: (Seq<char>, Seq<char>)| x.1));
    }
    let ghost f3 = f2 + if st.avg_delay_us > config.expected_delay_us + config.tolerance_us {
        seq![("High latency detected"@, "Check network congestion and processing delays"@)]
    } else {
        Seq::<(Seq<char>, Seq<char>)>::empty()
    };
    if (st.avg_delay_us as u128) > (config.expected_delay_us as u128) + (config.tolerance_us as u128) {
        push_text(&mut analysis, "High latency detected");
        push_text(&mut recs, "Check network congestion and processing delays");
    }
    proof {
        assert(texts(analysis@) =~= f3.map_values(|x: (Seq<char>, Seq<char>)| x.0));
        assert(texts(recs@) =~= f3.map_values(|x: (Seq<char>, Seq<char>)| x.1));
    }
    if st.jitter_us > 10_000 {
        push_text(&mut analysis, "High jitter detected");
        push_text(&mut recs, "Improve timing synchronization and reduce network variability");
    }
    proof {
        assert(f == f3 + if st.jitter_us > 10_000 {
            seq![("High jitter detected"@, "Improve timing synchronization and reduce network variability"@)]
        } else {
            Seq::<(Seq<char>, Seq<char>)>::empty()
        });
        assert(texts(analysis@) =~= f.map_values(|x: (Seq<char>, Seq<char>)| x.0));
        assert(texts(recs@) =~= f.map_values(|x: (Seq<char>, Seq<char>)| x.1));
    }
    (analysis, recs)
}

/// Analyses a finished test: its final statistics, whether it passed, and for
/// a failed test what went wrong with a recommendation for each finding.
pub fn generate_test_result(
    config: InterfaceTestConfig,
    stats: InterfaceTestStats,
    measurements: Vec<FrameMeasurement>,
    completion_ms: i64,
) -> (r: InterfaceTestResult)
    requires
        result_computable(stats, measurements@),
    ensures
        r.config == config,
        r.completion_ms == completion_ms,
        r.raw_measurements@ == measurements@,
        final_stats_ok(r.stats, stats, measurements@),
        r.success == test_passes(r.stats, config.success_threshold_centi as nat),
        !r.success ==> texts(r.error_analysis@) == failure_findings(r.stats, config).map_values(|f: (Seq<char>, Seq<char>)| f.0)
            && texts(r.recommendations@) == failure_findings(r.stats, config).map_values(|f: (Seq<char>, Seq<char>)| f.1),
        r.success ==> r.error_analysis@.len() == 0
            && texts(r.recommendations@) == seq!["Test passed - system operating within specifications"@],
{
    let st = final_stats(stats, &measurements);
    let success = if st.frames_sent > 0 {
        let thr: u128 = config.success_threshold_centi as u128;
        let sent: u128 = st.frames_sent as u128;
        assert(thr * sent <= 0xffff_ffffu128 * 0xffff_ffff_ffff_ffffu128) by (nonlinear_arith)
            requires
                thr <= 0xffff_ffffu128,
                sent <= 0xffff_ffff_ffff_ffffu128,
        ;
        (st.frames_received as u128) * 10_000 >= thr * sent
    } else {
        config.success_threshold_centi == 0
    };
    let (analysis, recs) = if !success {
        failure_analysis(&st, &config)
    } else {
        let mut recs: Vec<String> = Vec::new();
        push_text(&mut recs, "Test passed - system operating within specifications");
        proof {
            assert(texts(recs@) =~= seq!["Test passed - system operating within specifications"@]);
        }
        (Vec::new(), recs)
    };
    InterfaceTestResult {
        config,
        stats: st,
        success,
        completion_ms,
        error_analysis: analysis,
        recommendations: recs,
        raw_measurements: measurements,
    }
}

proof fn lemma_error_bits_prefix(ms: Seq<FrameMeasurement>, k: int)
    requires
        0 <= k <= ms.len(),
    ensures
        error_bits_sum(ms.subrange(0, k)) <= error_bits_sum(ms),
    decreases ms.len() - k,
{
    if k < ms.len() {
        lemma_error_bits_prefix(ms, k + 1);
        assert(ms.subrange(0, k + 1).drop_last() =~= ms.subrange(0, k));
    } else {
        assert(ms.subrange(0, k) =~= ms);
    }
}

/// A fresh random test id: `uuid::Uuid::new_v4` as a number. Nothing is
/// stated of it: it is chance.
#[verifier::external_body]
pub(crate) fn new_test_id() -> (r: u128) {
    uuid::Uuid::new_v4().as_u128()
}

/// Statistics of a test that has just started.
pub open spec fn fresh_stats(st: InterfaceTestStats, id: u128, now_ms: i64) -> bool {
    &&& st.test_id == id
    &&& st.start_ms == now_ms
    &&& st.elapsed_ms == 0
    &&& st.frames_sent == 0
    &&& st.frames_received == 0
    &&& st.frames_lost == 0
    &&& st.frames_corrupted == 0
    &&& st.bytes_sent == 0
    &&& st.bytes_received == 0
    &&& st.min_delay_us == u64::MAX
    &&& st.max_delay_us == 0
    &&& st.avg_delay_us == 0
    &&& st.jitter_us == 0
    &&& st.bit_error_rate == Ratio { num: 0, den: 0 }
    &&& st.frame_error_rate == Ratio { num: 0, den: 0 }
    &&& st.current_throughput_bps == 0
    &&& st.timing_errors == 0
    &&& st.sync_losses == 0
}

/// The most finished tests that are kept.
pub const MAX_COMPLETED_INTERFACE_TESTS: usize = 100;

/// The interface testing service: running tests and finished results by id
/// (oldest first).
pub struct InterfaceTestingService {
    pub active_tests: NumKeyedList<ActiveTest>,
    pub completed_tests: NumKeyedList<InterfaceTestResult>,
}

impl InterfaceTestingService {
    /// The bytes of one frame of a pattern. A tone frame holds `frame_size / 2`
    /// little-endian samples: those given (the tone at 8 kHz), then silence.
    pub fn generate_frame_data(pattern: &TestPattern, frame_size: usize, tone_samples: &Vec<i16>) -> (r: Vec<u8>)
        requires
            pattern matches TestPattern::Custom(c) ==> c@.len() > 0 || frame_size == 0,
        ensures
            frame_of(pattern@, frame_size as nat, tone_samples@, r@),
    {
        match pattern {
            TestPattern::AllZeros | TestPattern::AllOnes | TestPattern::Alternating => {
                let mut r: Vec<u8> = Vec::new();
                let mut i: usize = 0;
                while i < frame_size
                    invariant
                        i <= frame_size,
                        r@.len() == i,
                        forall|j: int| 0 <= j < i ==> #[trigger] r@[j] == match pattern@ {
                            TestPatternView::AllZeros => 0u8,
                            TestPatternView::AllOnes => 0xFFu8,
                            _ => if j % 2 == 0 { 0x55u8 } else { 0xAAu8 },
                        },
                    decreases frame_size - i,
                {
                    let b: u8 = match pattern {
                        TestPattern::AllZeros => 0,
                        TestPattern::AllOnes => 0xFF,
                        _ => if i % 2 == 0 { 0x55 } else { 0xAA },
                    };
                    r.push(b);
                    i = i + 1;
                }
                proof {
                    match pattern@ {
                        TestPatternView::AllZeros => { assert(r@ =~= Seq::new(frame_size as nat, |i: int| 0u8)); },
                        TestPatternView::AllOnes => { assert(r@ =~= Seq::new(frame_size as nat, |i: int| 0xFFu8)); },
                        _ => { assert(r@ =~= Seq::new(frame_size as nat, |i: int| if i % 2 == 0 { 0x55u8 } else { 0xAAu8 })); },
                    }
                }
                r
            },
            TestPattern::Prbs15 | TestPattern::Prbs23 | TestPattern::Prbs31 => {
                let mut r: Vec<u8> = Vec::new();
                let mut i: usize = 0;
                while i < frame_size
                    invariant
                        i <= frame_size,
                        r@.len() == i,
                    decreases frame_size - i,
                {
                    r.push(random_byte());
                    i = i + 1;
                }
                r
            },
            TestPattern::Custom(c) => {
                let mut r: Vec<u8> = Vec::new();
                let mut i: usize = 0;
                while i < frame_size
                    invariant
                        i <= frame_size,
                        c@.len() > 0 || frame_size == 0,
                        r@.len() == i,
                        forall|j: int| 0 <= j < i ==> #[trigger] r@[j] == c@[j % (c@.len() as int)],
                    decreases frame_size - i,
                {
                    r.push(c[i % c.len()]);
                    i = i + 1;
                }
                proof {
                    assert(r@ =~= Seq::new(frame_size as nat, |i: int| c@[i % (c@.len() as int)]));
                }
                r
            },
            TestPattern::ToneGeneration(_) => {
                let n: usize = frame_size / 2;
                let ghost samples = tone_frame_samples(tone_samples@, n as nat);
                let mut r: Vec<u8> = Vec::new();
                let mut i: usize = 0;
                while i < n
                    invariant
                        n == frame_size / 2,
                        samples == tone_frame_samples(tone_samples@, n as nat),
                        i <= n,
                        r@.len() == 2 * i,
                        forall|j: int| 0 <= j < 2 * i ==> #[trigger] r@[j] == le_samples(samples)[j],
                    decreases n - i,
                {
                    let sample: i16 = if i < tone_samples.len() { tone_samples[i] } else { 0 };
                    assert(sample == samples[i as int]);
                    let v = sample as u16;
                    r.push((v & 0xff) as u8);
                    r.push((v >> 8u16) as u8);
                    i = i + 1;
                }
                proof {
                    assert(r@ =~= le_samples(samples));
                }
                r
            },
            TestPattern::Q931Setup => {
                let m: Vec<u8> = vec![0x08, 0x01, 0x01, 0x02, 0x05, 0x04, 0x03, 0x80, 0x90, 0xA2, 0x6C, 0x04, 0x21, 0x83, 0x00, 0x00,
                    0x70, 0x04, 0x21, 0x83, 0x00, 0x01];
                proof {
                    assert(m@ =~= q931_setup_bytes());
                }
                resize_message(m, frame_size)
            },
            TestPattern::Q931Release => {
                let m: Vec<u8> = vec![0x08, 0x01, 0x01, 0x02, 0x4D, 0x08, 0x02, 0x80, 0x10];
                proof {
                    assert(m@ =~= q931_release_bytes());
                }
                resize_message(m, frame_size)
            },
            TestPattern::LapdFrames => {
                let m: Vec<u8> = vec![0x02, 0x01, 0x01, 0x02, 0x03, 0x04];
                proof {
                    assert(m@ =~= lapd_bytes());
                }
                resize_message(m, frame_size)
            },
        }
    }

    /// Ids are distinct and at most `MAX_COMPLETED_INTERFACE_TESTS` results are kept.
    pub open spec fn wf(&self) -> bool {
        &&& self.active_tests.wf()
        &&& self.completed_tests.wf()
        &&& self.completed_tests.seq().len() <= MAX_COMPLETED_INTERFACE_TESTS
    }

    /// A service with no tests.
    pub fn new() -> (r: Self)
        ensures
            r.wf(),
            r.active_tests.view() == Map::<u128, ActiveTest>::empty(),
            r.completed_tests.view() == Map::<u128, InterfaceTestResult>::empty(),
    {
        InterfaceTestingService { active_tests: NumKeyedList::new(), completed_tests: NumKeyedList::new() }
    }

    /// Admits a test under its configured id, refused when a test with that id
    /// is already running.
    pub fn start_test(&mut self, config: InterfaceTestConfig, now_ms: i64) -> (r: GatewayResult<u128>)
        requires
            old(self).wf(),
        ensures
            final(self).wf(),
            final(self).completed_tests == old(self).completed_tests,
            r is Ok <==> !old(self).active_tests.view().dom().contains(config.test_id),
            r matches Ok(id) ==> {
                &&& id == config.test_id
                &&& final(self).active_tests.view().dom() == old(self).active_tests.view().dom().insert(id)
                &&& final(self).active_tests.view()[id].config == config
                &&& final(self).active_tests.view()[id].start_ms == now_ms
                &&& final(self).active_tests.view()[id].measurements@.len() == 0
                &&& fresh_stats(final(self).active_tests.view()[id].stats, id, now_ms)
                &&& forall|k: u128| k != id && old(self).active_tests.view().dom().contains(k)
                    ==> final(self).active_tests.view()[k] == old(self).active_tests.view()[k]
            },
            r is Err ==> final(self).active_tests == old(self).active_tests,
            r matches Err(e) ==> e.kind() == 2 && e.message() == "Test "@ + uuid_text_spec(config.test_id) + " already running"@,
    {
        let id = config.test_id;
        if self.active_tests.get(id).is_some() {
            let mut m = join2("Test ", uuid_text(id).as_str());
            m.append(" already running");
            return Err(GatewayError::InvalidState(m));
        }
        let stats = InterfaceTestStats {
            test_id: id,
            start_ms: now_ms,
            elapsed_ms: 0,
            frames_sent: 0,
            frames_received: 0,
            frames_lost: 0,
            frames_corrupted: 0,
            bytes_sent: 0,
            bytes_received: 0,
            min_delay_us: u64::MAX,
            max_delay_us: 0,
            avg_delay_us: 0,
            jitter_us: 0,
            bit_error_rate: Ratio { num: 0, den: 0 },
            frame_error_rate: Ratio { num: 0, den: 0 },
            current_throughput_bps: 0,
            timing_errors: 0,
            sync_losses: 0,
        };
        let t = ActiveTest { config, stats, measurements: Vec::new(), start_ms: now_ms };
        let ghost tv = t;
        self.active_tests.insert(t);
        proof {
            assert(self.active_tests.view() =~= old(self).active_tests.view().insert(id, tv));
        }
        Ok(id)
    }

    /// Starts a loopback test of a span under a fresh id.
    pub fn start_tdmoe_loopback_test(&mut self, span: u32, channels: Option<Vec<u8>>, pattern: TestPattern, duration_ms: u64, now_ms: i64) -> (r: GatewayResult<u128>)
        requires
            old(self).wf(),
        ensures
            final(self).wf(),
            final(self).completed_tests == old(self).completed_tests,
            r matches Ok(id) ==> !old(self).active_tests.view().dom().contains(id)
                && final(self).active_tests.view().dom() == old(self).active_tests.view().dom().insert(id)
                && loopback_config_spec(final(self).active_tests.view()[id].config, id, span, pattern@, duration_ms),
            r matches Err(e) ==> e.kind() == 2 && final(self).active_tests == old(self).active_tests,
    {
        let id = new_test_id();
        let config = loopback_config(id, span, pattern, duration_ms);
        self.start_test(config, now_ms)
    }

    /// Starts a cross-port test from one span to another under a fresh id.
    pub fn start_cross_port_test(
        &mut self,
        source_span: u32,
        dest_span: u32,
        channel_mapping: Option<Vec<(u8, u8)>>,
        pattern: TestPattern,
        duration_ms: u64,
        now_ms: i64,
    ) -> (r: GatewayResult<u128>)
        requires
            old(self).wf(),
        ensures
            final(self).wf(),
            final(self).completed_tests == old(self).completed_tests,
            r matches Ok(id) ==> !old(self).active_tests.view().dom().contains(id)
                && final(self).active_tests.view().dom() == old(self).active_tests.view().dom().insert(id)
                && cross_port_config_spec(final(self).active_tests.view()[id].config, id, source_span, dest_span, pattern@, duration_ms),
            r matches Err(e) ==> e.kind() == 2 && final(self).active_tests == old(self).active_tests,
    {
        let id = new_test_id();
        let config = cross_port_config(id, source_span, dest_span, pattern, duration_ms);
        self.start_test(config, now_ms)
    }

    /// Starts an end-to-end call test between two spans under a fresh id.
    pub fn start_end_to_end_test(&mut self, calling_span: u32, called_span: u32, duration_ms: u64, now_ms: i64) -> (r: GatewayResult<u128>)
        requires
            old(self).wf(),
        ensures
            final(self).wf(),
            final(self).completed_tests == old(self).completed_tests,
            r matches Ok(id) ==> !old(self).active_tests.view().dom().contains(id)
                && final(self).active_tests.view().dom() == old(self).active_tests.view().dom().insert(id)
                && end_to_end_config_spec(final(self).active_tests.view()[id].config, id, calling_span, called_span, duration_ms),
            r matches Err(e) ==> e.kind() == 2 && final(self).active_tests == old(self).active_tests,
    {
        let id = new_test_id();
        let config = end_to_end_config(id, calling_span, called_span, duration_ms);
        self.start_test(config, now_ms)
    }

    /// Takes a running test out of the running tests, to analyse it.
    pub fn take_active_test(&mut self, test_id: u128) -> (r: Option<ActiveTest>)
        requires
            old(self).wf(),
        ensures
            final(self).wf(),
            final(self).completed_tests == old(self).completed_tests,
            r is Some <==> old(self).active_tests.view().dom().contains(test_id),
            r matches Some(t) ==> t == old(self).active_tests.view()[test_id],
            final(self).active_tests.view() == old(self).active_tests.view().remove(test_id),
    {
        self.active_tests.remove(test_id)
    }

    /// Files a finished result and drops its test from the running tests;
    /// past `MAX_COMPLETED_INTERFACE_TESTS` the oldest result makes way.
    pub fn complete_test(&mut self, result: InterfaceTestResult)
        requires
            old(self).wf(),
        ensures
            final(self).wf(),
            final(self).active_tests.view() == old(self).active_tests.view().remove(result.config.test_id),
            final(self).completed_tests.view().dom().contains(result.config.test_id),
            final(self).completed_tests.view()[result.config.test_id] == result,
            forall|k: u128| #[trigger] final(self).completed_tests.view().dom().contains(k) && k != result.config.test_id
                ==> old(self).completed_tests.view().dom().contains(k)
                && final(self).completed_tests.view()[k] == old(self).completed_tests.view()[k],
    {
        let id = result.config.test_id;
        let ghost rv = result;
        self.completed_tests.insert(result);
        proof {
            self.completed_tests.lemma_len_pub();
            old(self).completed_tests.lemma_len_pub();
        }
        if self.completed_tests.len() > MAX_COMPLETED_INTERFACE_TESTS {
            let oldest = self.completed_tests.at(0).config.test_id;
            proof {
                self.completed_tests.lemma_get_at(0);
                assert(!old(self).completed_tests.contains(id));
                assert(self.completed_tests.seq() == old(self).completed_tests.seq().push(rv));
                assert(oldest != id);
            }
            self.completed_tests.remove(oldest);
        }
        self.active_tests.remove(id);
    }

    /// Stops a running test; the runner ends it. Refused when no such test runs.
    pub fn stop_test(&self, test_id: u128) -> (r: GatewayResult<()>)
        requires
            self.wf(),
        ensures
            r is Ok <==> self.active_tests.view().dom().contains(test_id),
            r matches Err(e) ==> e.kind() == 2 && e.message() == "Test "@ + uuid_text_spec(test_id) + " not found"@,
    {
        if self.active_tests.get(test_id).is_some() {
            Ok(())
        } else {
            let mut m = join2("Test ", uuid_text(test_id).as_str());
            m.append(" not found");
            Err(GatewayError::InvalidState(m))
        }
    }

    /// The statistics of a running test.
    pub fn get_test_status(&self, test_id: u128) -> (r: Option<&InterfaceTestStats>)
        requires
            self.wf(),
        ensures
            r is Some <==> self.active_tests.view().dom().contains(test_id),
            r matches Some(st) ==> *st == self.active_tests.view()[test_id].stats,
    {
        match self.active_tests.get(test_id) {
            Some(t) => Some(&t.stats),
            None => None,
        }
    }

    /// The ids of the running tests.
    pub fn get_active_tests(&self) -> (r: Vec<u128>)
        requires
            self.wf(),
        ensures
            r@ == self.active_tests.seq().map_values(|t: ActiveTest| t.config.test_id),
    {
        let items = self.active_tests.items();
        let mut r: Vec<u128> = Vec::new();
        let mut i: usize = 0;
        while i < items.len()
            invariant
                items@ == self.active_tests.seq(),
                i <= items@.len(),
                r@ == items@.subrange(0, i as int).map_values(|t: ActiveTest| t.config.test_id),
            decreases items@.len() - i,
        {
            r.push(items[i].config.test_id);
            i = i + 1;
            proof {
                assert(r@ =~= items@.subrange(0, i as int).map_values(|t: ActiveTest| t.config.test_id));
            }
        }
        proof {
            assert(items@.subrange(0, items@.len() as int) =~= items@);
        }
        r
    }

    /// The result of a finished test.
    pub fn get_test_result(&self, test_id: u128) -> (r: Option<&InterfaceTestResult>)
        requires
            self.wf(),
        ensures
            r is Some <==> self.completed_tests.view().dom().contains(test_id),
            r matches Some(x) ==> *x == self.completed_tests.view()[test_id],
    {
        self.completed_tests.get(test_id)
    }

    /// All kept results, oldest first.
    pub fn get_all_results(&self) -> (r: &Vec<InterfaceTestResult>)
        ensures
            r@ == self.completed_tests.seq(),
    {
        self.completed_tests.items()
    }
}

} // verus!
