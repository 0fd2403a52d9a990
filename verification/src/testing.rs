//! Line diagnostics: loopback tests and bit error rate tests (BERT).
//!
//! The service admits and stops tests and keeps their results; each second
//! (BERT) or each probe (loopback) of a running test is one verified step that
//! takes the random draws it needs. Times are milliseconds, round trip times
//! microseconds, error rates parts per billion.

use vstd::prelude::*;
use crate::error::{GatewayError, GatewayResult};
use crate::keyed::{Keyed, KeyedList, NumKeyed, NumKeyedList};
use crate::text::{join2, u64_text, decimal, push_char};

verus! {

/// Loopback test types
#[derive(Clone, Copy, Debug, PartialEq, Eq, Structural)]
pub enum LoopbackType {
    /// Internal loopback within the gateway
    Local,
    /// Remote loopback request to far end
    Remote,
    /// Line loopback (physical layer)
    Line,
}

/// BERT test patterns
#[derive(Clone, Copy, Debug, PartialEq, Eq, Structural)]
pub enum BertPattern {
    Prbs15,
    Prbs23,
    Prbs31,
    AllZeros,
    AllOnes,
    Alternating,
    Qrss,
}

/// Test status
#[derive(Clone, Copy, Debug, PartialEq, Eq, Structural)]
pub enum TestStatus {
    Idle,
    Running,
    Completed,
    Failed,
    Stopped,
}

/// Loopback test configuration
#[derive(Clone, Copy, Debug)]
pub struct LoopbackConfig {
    pub channel: u16,
    pub loopback_type: LoopbackType,
    pub timeout_ms: u64,
    pub test_duration_ms: Option<u64>,
}

/// Loopback test results
#[derive(Clone, Debug)]
pub struct LoopbackResult {
    pub channel: u16,
    pub loopback_type: LoopbackType,
    pub status: TestStatus,
    pub start_ms: u64,
    pub end_ms: Option<u64>,
    pub duration_ms: u64,
    pub packets_sent: u64,
    pub packets_received: u64,
    pub packets_lost: u64,
    pub round_trip_times_us: Vec<u64>,
    pub min_rtt_us: u64,
    pub max_rtt_us: u64,
    pub avg_rtt_us: u64,
    pub jitter_us: u64,
    pub success: bool,
    pub error_message: Option<String>,
}

impl NumKeyed for LoopbackResult {
    open spec fn key(&self) -> u128 {
        self.channel as u128
    }

    fn key_num(&self) -> (r: u128) {
        self.channel as u128
    }
}

/// BERT test configuration; the error threshold is in parts per billion.
#[derive(Clone, Copy, Debug)]
pub struct BertConfig {
    pub channel: u16,
    pub pattern: BertPattern,
    pub duration_ms: u64,
    pub bit_rate: u32,
    pub error_threshold_ppb: u64,
}

/// BERT test results; the signal level is in thousandths of a dB.
#[derive(Clone, Debug)]
pub struct BertResult {
    pub channel: u16,
    pub pattern: BertPattern,
    pub status: TestStatus,
    pub start_ms: u64,
    pub end_ms: Option<u64>,
    pub duration_ms: u64,
    pub bit_rate: u32,
    pub bits_transmitted: u64,
    pub bits_received: u64,
    pub error_bits: u64,
    pub error_seconds: u32,
    pub severely_error_seconds: u32,
    pub unavailable_seconds: u32,
    pub bit_error_rate_ppb: u64,
    pub error_free_seconds: u32,
    pub sync_time_ms: u64,
    pub loss_of_sync_count: u32,
    pub pattern_sync: bool,
    pub signal_level_mdb: i32,
    pub jitter_ns: u64,
    pub success: bool,
    pub error_message: Option<String>,
}

impl NumKeyed for BertResult {
    open spec fn key(&self) -> u128 {
        self.channel as u128
    }

    fn key_num(&self) -> (r: u128) {
        self.channel as u128
    }
}

/// A finished loopback test under its id.
pub struct CompletedLoopback {
    pub test_id: String,
    pub result: LoopbackResult,
}

impl Keyed for CompletedLoopback {
    open spec fn key(&self) -> Seq<char> {
        self.test_id@
    }

    fn key_text(&self) -> (r: &String) {
        &self.test_id
    }
}

/// A finished BERT test under its id.
pub struct CompletedBert {
    pub test_id: String,
    pub result: BertResult,
}

impl Keyed for CompletedBert {
    open spec fn key(&self) -> Seq<char> {
        self.test_id@
    }

    fn key_text(&self) -> (r: &String) {
        &self.test_id
    }
}

/// Test events
pub enum TestEvent {
    LoopbackStarted { channel: u16 },
    LoopbackCompleted { channel: u16 },
    LoopbackFailed { channel: u16, error: String },
    BertStarted { channel: u16 },
    BertProgress { channel: u16 },
    BertCompleted { channel: u16 },
    BertFailed { channel: u16, error: String },
    TestStopped { channel: u16, test_type: String },
}

/// Testing service configuration; durations in milliseconds, the BERT
/// threshold in parts per billion.
pub struct TestingConfig {
    pub loopback_enabled: bool,
    pub loopback_timeout_ms: u64,
    pub loopback_max_concurrent: u16,
    pub bert_enabled: bool,
    pub bert_patterns: Vec<BertPattern>,
    pub bert_default_duration_ms: u64,
    pub bert_error_threshold_ppb: u64,
    pub bert_max_concurrent: u16,
}

impl Default for TestingConfig {
    /// Both kinds enabled; ten loopback and five BERT tests at once; a 10 s
    /// loopback timeout; 60 s BERT runs over PRBS15 and PRBS23 with a 1e-3 threshold.
    fn default() -> (r: Self)
        ensures
            r.loopback_enabled,
            r.loopback_timeout_ms == 10_000,
            r.loopback_max_concurrent == 10,
            r.bert_enabled,
            r.bert_patterns@ == seq![BertPattern::Prbs15, BertPattern::Prbs23],
            r.bert_default_duration_ms == 60_000,
            r.bert_error_threshold_ppb == 1_000_000,
            r.bert_max_concurrent == 5,
    {
        TestingConfig {
            loopback_enabled: true,
            loopback_timeout_ms: 10_000,
            loopback_max_concurrent: 10,
            bert_enabled: true,
            bert_patterns: vec![BertPattern::Prbs15, BertPattern::Prbs23],
            bert_default_duration_ms: 60_000,
            bert_error_threshold_ppb: 1_000_000,
            bert_max_concurrent: 5,
        }
    }
}

/// The most completed tests of each kind that are kept.
pub const MAX_COMPLETED_TESTS: usize = 1000;

/// Testing service: the running tests by channel and the finished ones by id
/// (oldest first).
pub struct TestingService {
    pub config: TestingConfig,
    pub active_loopback_tests: NumKeyedList<LoopbackResult>,
    pub active_bert_tests: NumKeyedList<BertResult>,
    pub completed_loopback_tests: KeyedList<CompletedLoopback>,
    pub completed_bert_tests: KeyedList<CompletedBert>,
}

/// The message of an error about a channel: the text, then the channel number.
pub open spec fn channel_message(prefix: Seq<char>, channel: u16) -> Seq<char> {
    prefix + decimal(channel as nat)
}

fn channel_error_text(prefix: &str, channel: u16) -> (r: String)
    ensures
        r@ == channel_message(prefix@, channel),
{
    let n = u64_text(channel as u64);
    join2(prefix, n.as_str())
}

/// A loopback result at the start of a test.
pub open spec fn fresh_loopback(config: LoopbackConfig, now_ms: u64, r: LoopbackResult) -> bool {
    &&& r.channel == config.channel
    &&& r.loopback_type == config.loopback_type
    &&& r.status == TestStatus::Running
    &&& r.start_ms == now_ms
    &&& r.end_ms is None
    &&& r.duration_ms == 0
    &&& r.packets_sent == 0
    &&& r.packets_received == 0
    &&& r.packets_lost == 0
    &&& r.round_trip_times_us@.len() == 0
    &&& r.min_rtt_us == u64::MAX
    &&& r.max_rtt_us == 0
    &&& r.avg_rtt_us == 0
    &&& r.jitter_us == 0
    &&& !r.success
    &&& r.error_message is None
}

/// A BERT result at the start of a test: nothing counted yet, a typical
/// sync time of 150 ms, signal level of -12.3 dB and jitter of 2.1 us.
pub open spec fn fresh_bert(config: BertConfig, now_ms: u64, r: BertResult) -> bool {
    &&& r.channel == config.channel
    &&& r.pattern == config.pattern
    &&& r.status == TestStatus::Running
    &&& r.start_ms == now_ms
    &&& r.end_ms is None
    &&& r.duration_ms == 0
    &&& r.bit_rate == config.bit_rate
    &&& r.bits_transmitted == 0
    &&& r.bits_received == 0
    &&& r.error_bits == 0
    &&& r.error_seconds == 0
    &&& r.severely_error_seconds == 0
    &&& r.unavailable_seconds == 0
    &&& r.bit_error_rate_ppb == 0
    &&& r.error_free_seconds == 0
    &&& r.sync_time_ms == 150
    &&& r.loss_of_sync_count == 0
    &&& r.pattern_sync
    &&& r.signal_level_mdb == -12300
    &&& r.jitter_ns == 2100
    &&& !r.success
    &&& r.error_message is None
}

impl TestingService {
    /// Well formed: channels and test ids are distinct, and at most
    /// `MAX_COMPLETED_TESTS` finished tests of each kind are kept.
    pub open spec fn wf(&self) -> bool {
        &&& self.active_loopback_tests.wf()
        &&& self.active_bert_tests.wf()
        &&& self.completed_loopback_tests.wf()
        &&& self.completed_bert_tests.wf()
        &&& self.completed_loopback_tests.seq().len() <= MAX_COMPLETED_TESTS
        &&& self.completed_bert_tests.seq().len() <= MAX_COMPLETED_TESTS
    }

    /// A service with no tests.
    pub fn new(config: TestingConfig) -> (r: Self)
        ensures
            r.wf(),
            r.config == config,
            r.active_loopback_tests.view() == Map::<u128, LoopbackResult>::empty(),
            r.active_bert_tests.view() == Map::<u128, BertResult>::empty(),
            r.completed_loopback_tests.view() == Map::<Seq<char>, CompletedLoopback>::empty(),
            r.completed_bert_tests.view() == Map::<Seq<char>, CompletedBert>::empty(),
    {
        TestingService {
            config,
            active_loopback_tests: NumKeyedList::new(),
            active_bert_tests: NumKeyedList::new(),
            completed_loopback_tests: KeyedList::new(),
            completed_bert_tests: KeyedList::new(),
        }
    }

    /// Admits a loopback test: refused when loopback testing is disabled, when
    /// the channel is already under test, or when the limit of concurrent
    /// tests is reached; otherwise a running result is recorded for the channel.
    pub fn start_loopback_test(&mut self, config: LoopbackConfig, now_ms: u64) -> (r: GatewayResult<()>)
        requires
            old(self).wf(),
        ensures
            final(self).wf(),
            final(self).config == old(self).config,
            final(self).active_bert_tests == old(self).active_bert_tests,
            final(self).completed_loopback_tests == old(self).completed_loopback_tests,
            final(self).completed_bert_tests == old(self).completed_bert_tests,
            !old(self).config.loopback_enabled ==> (r matches Err(e) && e.kind() == 3
                && e.message() == "Loopback testing is disabled"@),
            old(self).config.loopback_enabled && old(self).active_loopback_tests.view().dom().contains(config.channel as u128)
                ==> (r matches Err(e) && e.kind() == 2
                && e.message() == channel_message("Loopback test already running on channel "@, config.channel)),
            old(self).config.loopback_enabled && !old(self).active_loopback_tests.view().dom().contains(config.channel as u128)
                && old(self).active_loopback_tests.view().dom().len() >= old(self).config.loopback_max_concurrent
                ==> (r matches Err(e) && e.kind() == 1 && e.message() == "Maximum concurrent loopback tests reached"@),
            r is Err ==> final(self).active_loopback_tests == old(self).active_loopback_tests,
            r is Ok <==> old(self).config.loopback_enabled
                && !old(self).active_loopback_tests.view().dom().contains(config.channel as u128)
                && old(self).active_loopback_tests.view().dom().len() < old(self).config.loopback_max_concurrent,
            r is Ok ==> {
                &&& final(self).active_loopback_tests.view().dom() == old(self).active_loopback_tests.view().dom().insert(config.channel as u128)
                &&& fresh_loopback(config, now_ms, final(self).active_loopback_tests.view()[config.channel as u128])
                &&& forall|c: u128| c != config.channel as u128 && old(self).active_loopback_tests.view().dom().contains(c)
                    ==> final(self).active_loopback_tests.view()[c] == old(self).active_loopback_tests.view()[c]
            },
    {
        if !self.config.loopback_enabled {
            return Err(GatewayError::NotSupported(String::from_str("Loopback testing is disabled")));
        }
        if self.active_loopback_tests.get(config.channel as u128).is_some() {
            return Err(GatewayError::InvalidState(channel_error_text("Loopback test already running on channel ", config.channel)));
        }
        if self.active_loopback_tests.len() >= self.config.loopback_max_concurrent as usize {
            return Err(GatewayError::Internal(String::from_str("Maximum concurrent loopback tests reached")));
        }
        let result = LoopbackResult {
            channel: config.channel,
            loopback_type: config.loopback_type,
            status: TestStatus::Running,
            start_ms: now_ms,
            end_ms: None,
            duration_ms: 0,
            packets_sent: 0,
            packets_received: 0,
            packets_lost: 0,
            round_trip_times_us: Vec::new(),
            min_rtt_us: u64::MAX,
            max_rtt_us: 0,
            avg_rtt_us: 0,
            jitter_us: 0,
            success: false,
            error_message: None,
        };
        let ghost fresh = result;
        self.active_loopback_tests.insert(result);
        proof {
            assert(self.active_loopback_tests.view() =~= old(self).active_loopback_tests.view().insert(config.channel as u128, fresh));
        }
        Ok(())
    }

    /// Stops the loopback test of a channel and drops it from the running tests.
    pub fn stop_loopback_test(&mut self, channel: u16) -> (r: GatewayResult<()>)
        requires
            old(self).wf(),
        ensures
            final(self).wf(),
            final(self).config == old(self).config,
            final(self).active_bert_tests == old(self).active_bert_tests,
            final(self).completed_loopback_tests == old(self).completed_loopback_tests,
            final(self).completed_bert_tests == old(self).completed_bert_tests,
            r is Ok <==> old(self).active_loopback_tests.view().dom().contains(channel as u128),
            final(self).active_loopback_tests.view() == old(self).active_loopback_tests.view().remove(channel as u128),
            r matches Err(e) ==> e.kind() == 2 && e.message() == channel_message("No active loopback test on channel "@, channel),
    {
        match self.active_loopback_tests.remove(channel as u128) {
            Some(_) => Ok(()),
            None => Err(GatewayError::InvalidState(channel_error_text("No active loopback test on channel ", channel))),
        }
    }

    /// Admits a BERT test, as `start_loopback_test` does loopback tests.
    pub fn start_bert_test(&mut self, config: BertConfig, now_ms: u64) -> (r: GatewayResult<()>)
        requires
            old(self).wf(),
        ensures
            final(self).wf(),
            final(self).config == old(self).config,
            final(self).active_loopback_tests == old(self).active_loopback_tests,
            final(self).completed_loopback_tests == old(self).completed_loopback_tests,
            final(self).completed_bert_tests == old(self).completed_bert_tests,
            !old(self).config.bert_enabled ==> (r matches Err(e) && e.kind() == 3
                && e.message() == "BERT testing is disabled"@),
            old(self).config.bert_enabled && old(self).active_bert_tests.view().dom().contains(config.channel as u128)
                ==> (r matches Err(e) && e.kind() == 2
                && e.message() == channel_message("BERT test already running on channel "@, config.channel)),
            old(self).config.bert_enabled && !old(self).active_bert_tests.view().dom().contains(config.channel as u128)
                && old(self).active_bert_tests.view().dom().len() >= old(self).config.bert_max_concurrent
                ==> (r matches Err(e) && e.kind() == 1 && e.message() == "Maximum concurrent BERT tests reached"@),
            r is Err ==> final(self).active_bert_tests == old(self).active_bert_tests,
            r is Ok <==> old(self).config.bert_enabled
                && !old(self).active_bert_tests.view().dom().contains(config.channel as u128)
                && old(self).active_bert_tests.view().dom().len() < old(self).config.bert_max_concurrent,
            r is Ok ==> {
                &&& final(self).active_bert_tests.view().dom() == old(self).active_bert_tests.view().dom().insert(config.channel as u128)
                &&& fresh_bert(config, now_ms, final(self).active_bert_tests.view()[config.channel as u128])
                &&& forall|c: u128| c != config.channel as u128 && old(self).active_bert_tests.view().dom().contains(c)
                    ==> final(self).active_bert_tests.view()[c] == old(self).active_bert_tests.view()[c]
            },
    {
        if !self.config.bert_enabled {
            return Err(GatewayError::NotSupported(String::from_str("BERT testing is disabled")));
        }
        if self.active_bert_tests.get(config.channel as u128).is_some() {
            return Err(GatewayError::InvalidState(channel_error_text("BERT test already running on channel ", config.channel)));
        }
        if self.active_bert_tests.len() >= self.config.bert_max_concurrent as usize {
            return Err(GatewayError::Internal(String::from_str("Maximum concurrent BERT tests reached")));
        }
        let result = BertResult {
            channel: config.channel,
            pattern: config.pattern,
            status: TestStatus::Running,
            start_ms: now_ms,
            end_ms: None,
            duration_ms: 0,
            bit_rate: config.bit_rate,
            bits_transmitted: 0,
            bits_received: 0,
            error_bits: 0,
            error_seconds: 0,
            severely_error_seconds: 0,
            unavailable_seconds: 0,
            bit_error_rate_ppb: 0,
            error_free_seconds: 0,
            sync_time_ms: 150,
            loss_of_sync_count: 0,
            pattern_sync: true,
            signal_level_mdb: -12300,
            jitter_ns: 2100,
            success: false,
            error_message: None,
        };
        let ghost fresh = result;
        self.active_bert_tests.insert(result);
        proof {
            assert(self.active_bert_tests.view() =~= old(self).active_bert_tests.view().insert(config.channel as u128, fresh));
        }
        Ok(())
    }

    /// Stops the BERT test of a channel and drops it from the running tests.
    pub fn stop_bert_test(&mut self, channel: u16) -> (r: GatewayResult<()>)
        requires
            old(self).wf(),
        ensures
            final(self).wf(),
            final(self).config == old(self).config,
            final(self).active_loopback_tests == old(self).active_loopback_tests,
            final(self).completed_loopback_tests == old(self).completed_loopback_tests,
            final(self).completed_bert_tests == old(self).completed_bert_tests,
            r is Ok <==> old(self).active_bert_tests.view().dom().contains(channel as u128),
            final(self).active_bert_tests.view() == old(self).active_bert_tests.view().remove(channel as u128),
            r matches Err(e) ==> e.kind() == 2 && e.message() == channel_message("No active BERT test on channel "@, channel),
    {
        match self.active_bert_tests.remove(channel as u128) {
            Some(_) => Ok(()),
            None => Err(GatewayError::InvalidState(channel_error_text("No active BERT test on channel ", channel))),
        }
    }

    /// The running loopback tests by channel.
    pub fn get_active_loopback_tests(&self) -> (r: &NumKeyedList<LoopbackResult>)
        ensures
            r == &self.active_loopback_tests,
    {
        &self.active_loopback_tests
    }

    /// The running BERT tests by channel.
    pub fn get_active_bert_tests(&self) -> (r: &NumKeyedList<BertResult>)
        ensures
            r == &self.active_bert_tests,
    {
        &self.active_bert_tests
    }

    /// The finished loopback test with an id.
    pub fn get_loopback_results(&self, test_id: &str) -> (r: Option<&LoopbackResult>)
        requires
            self.wf(),
        ensures
            r is Some <==> self.completed_loopback_tests.view().dom().contains(test_id@),
            r matches Some(x) ==> *x == self.completed_loopback_tests.view()[test_id@].result,
    {
        match self.completed_loopback_tests.get(test_id) {
            Some(c) => Some(&c.result),
            None => None,
        }
    }

    /// The finished BERT test with an id.
    pub fn get_bert_results(&self, test_id: &str) -> (r: Option<&BertResult>)
        requires
            self.wf(),
        ensures
            r is Some <==> self.completed_bert_tests.view().dom().contains(test_id@),
            r matches Some(x) ==> *x == self.completed_bert_tests.view()[test_id@].result,
    {
        match self.completed_bert_tests.get(test_id) {
            Some(c) => Some(&c.result),
            None => None,
        }
    }
}


/// Draws a value below `n` with `rand::Rng::gen_range` on the thread's
/// generator (`rand::thread_rng`). Only the range is stated: the value is chance.
#[verifier::external_body]
pub(crate) fn random_below(n: u32) -> (r: u32)
    requires
        n > 0,
    ensures
        r < n,
{
    rand::Rng::gen_range(&mut rand::thread_rng(), 0..n)
}

/// Draws a value of `lo..=hi` with `rand::Rng::gen_range` on the thread's
/// generator. Only the range is stated: the value is chance.
#[verifier::external_body]
fn random_between(lo: i64, hi: i64) -> (r: i64)
    requires
        lo <= hi,
    ensures
        lo <= r <= hi,
{
    rand::Rng::gen_range(&mut rand::thread_rng(), lo..=hi)
}

/// The share of probes a loopback loses, in parts per million.
pub open spec fn loss_rate_ppm(t: LoopbackType) -> nat {
    match t {
        LoopbackType::Local => 10_000,
        LoopbackType::Remote => 50_000,
        LoopbackType::Line => 20_000,
    }
}

/// The round trip time of a loopback before jitter, in microseconds.
pub open spec fn base_rtt_us(t: LoopbackType) -> nat {
    match t {
        LoopbackType::Local => 50,
        LoopbackType::Remote => 20_000,
        LoopbackType::Line => 100,
    }
}

/// The round trip time of a probe: the base time plus the jitter when it is
/// positive (milliseconds, counted in microseconds).
pub open spec fn probe_rtt_us(t: LoopbackType, jitter_ms: int) -> nat {
    base_rtt_us(t) + if jitter_ms > 0 { (jitter_ms * 1000) as nat } else { 0 }
}

/// The sum of a sequence.
pub open spec fn sum_seq(s: Seq<u64>) -> int
    decreases s.len(),
{
    if s.len() == 0 { 0 } else { sum_seq(s.drop_last()) + s.last() }
}

/// The sum of squared distances of a sequence's values from `avg`.
pub open spec fn sq_dev(s: Seq<u64>, avg: int) -> int
    decreases s.len(),
{
    if s.len() == 0 { 0 } else { sq_dev(s.drop_last(), avg) + (s.last() - avg) * (s.last() - avg) }
}

/// Whether `r` is the integer square root of `x`.
pub open spec fn is_isqrt(x: nat, r: nat) -> bool {
    r * r <= x < (r + 1) * (r + 1)
}

/// The integer square root.
pub fn isqrt(x: u64) -> (r: u64)
    ensures
        is_isqrt(x as nat, r as nat),
{
    let mut lo: u64 = 0;
    let mut hi: u64 = 0x1_0000_0000;
    assert(hi * hi > x) by (nonlinear_arith)
        requires
            hi == 0x1_0000_0000u64,
            x <= u64::MAX,
    ;
    while hi - lo > 1
        invariant
            lo < hi <= 0x1_0000_0000,
            lo * lo <= x,
            x < hi * hi,
        decreases hi - lo,
    {
        let mid = lo + (hi - lo) / 2;
        assert(mid * mid <= 0xffff_ffff * 0xffff_ffffu64) by (nonlinear_arith)
            requires
                mid < 0x1_0000_0000,
        ;
        if mid * mid <= x {
            lo = mid;
        } else {
            hi = mid;
        }
    }
    lo
}

/// The integer square root of a wide number.
fn isqrt_wide(x: u128) -> (r: u64)
    ensures
        is_isqrt(x as nat, r as nat),
{
    let mut lo: u128 = 0;
    let mut hi: u128 = 0x1_0000_0000_0000_0000;
    assert(hi * hi > x) by (nonlinear_arith)
        requires
            hi == 0x1_0000_0000_0000_0000u128,
            x <= u128::MAX,
    ;
    while hi - lo > 1
        invariant
            lo < hi <= 0x1_0000_0000_0000_0000,
            lo * lo <= x,
            x < hi * hi,
        decreases hi - lo,
    {
        let mid = lo + (hi - lo) / 2;
        assert(mid * mid <= 0xffff_ffff_ffff_ffff * 0xffff_ffff_ffff_ffffu128) by (nonlinear_arith)
            requires
                mid < 0x1_0000_0000_0000_0000,
        ;
        if mid * mid <= x {
            lo = mid;
        } else {
            hi = mid;
        }
    }
    lo as u64
}

proof fn lemma_sum_bound(s: Seq<u64>)
    ensures
        0 <= sum_seq(s) <= s.len() * (u64::MAX as int),
    decreases s.len(),
{
    if s.len() > 0 {
        lemma_sum_bound(s.drop_last());
    }
}

proof fn lemma_sq_dev_bound(s: Seq<u64>, avg: int)
    requires
        0 <= avg <= u64::MAX,
    ensures
        0 <= sq_dev(s, avg) <= s.len() * (u64::MAX as int) * (u64::MAX as int),
    decreases s.len(),
{
    if s.len() > 0 {
        lemma_sq_dev_bound(s.drop_last(), avg);
        let d = s.last() - avg;
        assert(d * d <= (u64::MAX as int) * (u64::MAX as int)) by (nonlinear_arith)
            requires
                -(u64::MAX as int) <= d <= u64::MAX,
        ;
        assert(0 <= d * d) by (nonlinear_arith);
        assert((s.len() - 1) * (u64::MAX as int) * (u64::MAX as int) + (u64::MAX as int) * (u64::MAX as int)
            == s.len() * (u64::MAX as int) * (u64::MAX as int)) by (nonlinear_arith);
    }
}

/// A sum of values between `lo` and `hi` lies between `n * lo` and `n * hi`.
proof fn lemma_sum_between(s: Seq<u64>, lo: int, hi: int)
    requires
        forall|i: int| 0 <= i < s.len() ==> lo <= #[trigger] s[i] <= hi,
    ensures
        s.len() * lo <= sum_seq(s) <= s.len() * hi,
    decreases s.len(),
{
    if s.len() > 0 {
        let t = s.drop_last();
        assert forall|i: int| 0 <= i < t.len() implies lo <= #[trigger] t[i] <= hi by {
            assert(t[i] == s[i]);
        }
        lemma_sum_between(t, lo, hi);
        assert(s.last() == s[s.len() - 1]);
        assert((t.len() + 1) * lo == t.len() * lo + lo) by (nonlinear_arith);
        assert((t.len() + 1) * hi == t.len() * hi + hi) by (nonlinear_arith);
    }
}

/// The mean of a list of times, rounded down, and the standard deviation
/// around that mean, rounded down: the integer square root of the mean
/// squared distance.
pub fn mean_and_jitter(v: &Vec<u64>) -> (r: (u64, u64))
    requires
        v@.len() > 0,
    ensures
        r.0 == sum_seq(v@) / (v@.len() as int),
        is_isqrt((sq_dev(v@, r.0 as int) / (v@.len() as int)) as nat, r.1 as nat),
{
    let n = v.len();
    let ghost s = v@;
    let mut total: u128 = 0;
    let mut i: usize = 0;
    assert(n as int <= u64::MAX);
    while i < n
        invariant
            n == s.len(),
            n <= u64::MAX,
            s == v@,
            i <= n,
            total == sum_seq(s.subrange(0, i as int)),
            total <= i * (u64::MAX as int),
        decreases n - i,
    {
        proof {
            assert(s.subrange(0, i as int + 1).drop_last() =~= s.subrange(0, i as int));
            assert((i + 1) * (u64::MAX as int) <= (u64::MAX as int) * (u64::MAX as int)) by (nonlinear_arith)
                requires
                    i + 1 <= u64::MAX,
            ;
        }
        total = total + v[i] as u128;
        i = i + 1;
    }
    proof {
        assert(s.subrange(0, n as int) =~= s);
    }
    let avg128: u128 = total / (n as u128);
    assert(avg128 <= u64::MAX) by (nonlinear_arith)
        requires
            avg128 == total / (n as u128),
            total <= n * (u64::MAX as int),
            n > 0,
    ;
    let avg = avg128 as u64;
    let mut q: u128 = 0;
    let mut rem: u128 = 0;
    let mut k: usize = 0;
    while k < n
        invariant
            n == s.len(),
            n <= u64::MAX,
            n > 0,
            s == v@,
            k <= n,
            rem < n,
            q * n + rem == sq_dev(s.subrange(0, k as int), avg as int),
        decreases n - k,
    {
        proof {
            assert(s.subrange(0, k as int + 1).drop_last() =~= s.subrange(0, k as int));
            lemma_sq_dev_bound(s.subrange(0, k as int + 1), avg as int);
        }
        let x = v[k];
        let d: u64 = if x >= avg { x - avg } else { avg - x };
        assert(d * d <= 0xffff_ffff_ffff_ffff * 0xffff_ffff_ffff_ffffu128) by (nonlinear_arith)
            requires
                d <= u64::MAX,
        ;
        assert((x - avg) * (x - avg) == d * d) by (nonlinear_arith)
            requires
                d == (if x >= avg { x - avg } else { avg - x }),
        ;
        let t: u128 = rem + (d as u128) * (d as u128);
        let ghost old_q = q;
        proof {
            let ti: int = t as int;
            let ni: int = n as int;
            let qi: int = q as int;
            vstd::arithmetic::div_mod::lemma_fundamental_div_mod(ti, ni);
            vstd::arithmetic::div_mod::lemma_mod_pos_bound(ti, ni);
            let total_k1 = sq_dev(s.subrange(0, k as int + 1), avg as int);
            assert(total_k1 == qi * ni + ti);
            assert((qi + ti / ni) * ni <= total_k1) by (nonlinear_arith)
                requires
                    total_k1 == qi * ni + ti,
                    ti == ni * (ti / ni) + ti % ni,
                    ti % ni >= 0,
            ;
            assert(total_k1 <= (k + 1) * (u64::MAX as int) * (u64::MAX as int));
            assert(qi + ti / ni <= u128::MAX) by (nonlinear_arith)
                requires
                    (qi + ti / ni) * ni <= total_k1,
                    total_k1 <= (k + 1) * (u64::MAX as int) * (u64::MAX as int),
                    k + 1 <= ni,
                    ni > 0,
                    qi >= 0,
                    ti >= 0,
            ;
        }
        q = q + t / (n as u128);
        rem = t % (n as u128);
        proof {
            let ti: int = t as int;
            let ni: int = n as int;
            let oq: int = old_q as int;
            let qn: int = q as int;
            let rn: int = rem as int;
            vstd::arithmetic::div_mod::lemma_fundamental_div_mod(ti, ni);
            assert(qn * ni + rn == oq * ni + ti) by (nonlinear_arith)
                requires
                    qn == oq + ti / ni,
                    rn == ti % ni,
                    ti == ni * (ti / ni) + ti % ni,
            ;
        }
        k = k + 1;
    }
    proof {
        assert(s.subrange(0, n as int) =~= s);
        let total = sq_dev(s, avg as int);
        assert(q == total / (n as int)) by {
            vstd::arithmetic::div_mod::lemma_fundamental_div_mod_converse(total, n as int, q as int, rem as int);
        }
    }
    (avg, isqrt_wide(q))
}

/// The text of a loss that rounds to `tenths` tenths of a percent.
pub open spec fn loss_text(tenths: nat) -> Seq<char> {
    "High packet loss: "@ + decimal(tenths / 10) + "."@ + decimal(tenths % 10) + "%"@
}

/// A loss of `lost` out of `sent` in tenths of a percent, rounded to the
/// nearest and halves to even.
pub open spec fn loss_tenths(lost: nat, sent: nat) -> nat {
    let q = (lost * 1000) / sent;
    let rem = (lost * 1000) % sent;
    if 2 * rem > sent || (2 * rem == sent && q % 2 == 1) { q + 1 } else { q }
}

/// A loss is rounded to the nearest tenth of a percent: scaled back by the
/// probes sent it lies within half a tenth of the exact loss, and a loss of
/// no more probes than were sent is at most 100%.
pub proof fn law_loss_rounds_to_nearest(lost: nat, sent: nat)
    requires
        sent > 0,
    ensures
        2 * (loss_tenths(lost, sent) * sent - lost * 1000) <= sent,
        2 * (lost * 1000 - loss_tenths(lost, sent) * sent) <= sent,
        lost <= sent ==> loss_tenths(lost, sent) <= 1000,
{
    let n: int = (lost * 1000) as int;
    let d: int = sent as int;
    let q: int = n / d;
    let rem: int = n % d;
    vstd::arithmetic::div_mod::lemma_fundamental_div_mod(n, d);
    vstd::arithmetic::div_mod::lemma_mod_pos_bound(n, d);
    assert(n == q * d + rem) by (nonlinear_arith)
        requires
            n == d * q + rem,
    ;
    if lost <= sent {
        assert(n <= d * 1000) by (nonlinear_arith)
            requires
                n == lost * 1000,
                d == sent,
                lost <= sent,
        ;
        vstd::arithmetic::div_mod::lemma_div_is_ordered(n, d * 1000, d);
        vstd::arithmetic::div_mod::lemma_div_multiples_vanish(1000, d);
        if q == 1000 {
            assert(rem == 0) by (nonlinear_arith)
                requires
                    n == q * d + rem,
                    q == 1000,
                    n <= d * 1000,
                    0 <= rem,
            ;
        }
    }
    assert((q + 1) * d == q * d + d) by (nonlinear_arith);
}

/// The message of a loopback test that failed.
pub open spec fn loss_message(lost: nat, sent: nat) -> Seq<char> {
    if sent == 0 { "High packet loss: NaN%"@ } else { loss_text(loss_tenths(lost, sent)) }
}

impl LoopbackResult {
    /// Counts agree: no more received than sent, one round trip time per
    /// received probe; the minimum and maximum are those of the recorded round
    /// trip times (the largest number and zero while there is none).
    pub open spec fn wf(&self) -> bool {
        let s = self.round_trip_times_us@;
        &&& self.packets_received <= self.packets_sent
        &&& s.len() == self.packets_received
        &&& s.len() == 0 ==> self.min_rtt_us == u64::MAX && self.max_rtt_us == 0
        &&& s.len() > 0 ==> {
            &&& (exists|i: int| 0 <= i < s.len() && s[i] == self.min_rtt_us)
            &&& (exists|i: int| 0 <= i < s.len() && s[i] == self.max_rtt_us)
            &&& forall|i: int| 0 <= i < s.len() ==> self.min_rtt_us <= #[trigger] s[i] <= self.max_rtt_us
        }
    }
}

/// Whether a probe left alone what it does not count: the test's identity,
/// state and times, the lost count, the mean and jitter, the verdict and the
/// message.
pub open spec fn probe_kept(a: LoopbackResult, b: LoopbackResult) -> bool {
    &&& b.channel == a.channel
    &&& b.loopback_type == a.loopback_type
    &&& b.status == a.status
    &&& b.start_ms == a.start_ms
    &&& b.end_ms == a.end_ms
    &&& b.duration_ms == a.duration_ms
    &&& b.packets_lost == a.packets_lost
    &&& b.avg_rtt_us == a.avg_rtt_us
    &&& b.jitter_us == a.jitter_us
    &&& b.success == a.success
    &&& b.error_message == a.error_message
}

/// One loopback probe, given the random draw (parts per million) that decides
/// whether it is lost and the drawn jitter in milliseconds: the probe counts as
/// sent, and unless the draw falls within the loss rate it counts as received
/// with its round trip time noted, and the minimum and maximum follow.
pub fn record_loopback_probe(result: &mut LoopbackResult, draw_ppm: u32, jitter_ms: i64)
    requires
        old(result).wf(),
        old(result).packets_sent < u64::MAX,
        draw_ppm < 1_000_000,
        -5 <= jitter_ms <= 5,
    ensures
        final(result).wf(),
        probe_kept(*old(result), *final(result)),
        final(result).packets_sent == old(result).packets_sent + 1,
        draw_ppm > loss_rate_ppm(old(result).loopback_type) ==> {
            let rtt = probe_rtt_us(old(result).loopback_type, jitter_ms as int);
            &&& final(result).packets_received == old(result).packets_received + 1
            &&& final(result).round_trip_times_us@ == old(result).round_trip_times_us@.push(rtt as u64)
            &&& final(result).min_rtt_us == if rtt < old(result).min_rtt_us { rtt } else { old(result).min_rtt_us as nat }
            &&& final(result).max_rtt_us == if rtt > old(result).max_rtt_us { rtt } else { old(result).max_rtt_us as nat }
        },
        draw_ppm <= loss_rate_ppm(old(result).loopback_type) ==> {
            &&& final(result).packets_received == old(result).packets_received
            &&& final(result).round_trip_times_us@ == old(result).round_trip_times_us@
            &&& final(result).min_rtt_us == old(result).min_rtt_us
            &&& final(result).max_rtt_us == old(result).max_rtt_us
        },
{
    result.packets_sent = result.packets_sent + 1;
    let (loss_ppm, base_us): (u32, u64) = match result.loopback_type {
        LoopbackType::Local => (10_000, 50),
        LoopbackType::Remote => (50_000, 20_000),
        LoopbackType::Line => (20_000, 100),
    };
    if draw_ppm > loss_ppm {
        result.packets_received = result.packets_received + 1;
        let extra: u64 = if jitter_ms > 0 { (jitter_ms as u64) * 1000 } else { 0 };
        let rtt = base_us + extra;
        let ghost s0 = result.round_trip_times_us@;
        let ghost m0 = result.min_rtt_us;
        let ghost x0 = result.max_rtt_us;
        result.round_trip_times_us.push(rtt);
        if rtt < result.min_rtt_us {
            result.min_rtt_us = rtt;
        }
        if rtt > result.max_rtt_us {
            result.max_rtt_us = rtt;
        }
        proof {
            let s1 = result.round_trip_times_us@;
            assert(s1 == s0.push(rtt));
            assert(s1[s0.len() as int] == rtt);
            if s0.len() == 0 {
                assert(s1[0] == result.min_rtt_us);
                assert(s1[0] == result.max_rtt_us);
            } else {
                if rtt >= m0 {
                    let i = choose|i: int| 0 <= i < s0.len() && s0[i] == m0;
                    assert(s1[i] == result.min_rtt_us);
                }
                if rtt <= x0 {
                    let i = choose|i: int| 0 <= i < s0.len() && s0[i] == x0;
                    assert(s1[i] == result.max_rtt_us);
                }
                assert forall|i: int| 0 <= i < s1.len() implies result.min_rtt_us <= #[trigger] s1[i] <= result.max_rtt_us by {
                    if i < s0.len() {
                        assert(s1[i] == s0[i]);
                    }
                }
            }
        }
    }
}

/// Sends one loopback probe: draws whether it is lost and its jitter, then
/// records it. Whatever the draws, the probe counts as sent and at most one
/// more is received.
pub fn loopback_probe(result: &mut LoopbackResult)
    requires
        old(result).wf(),
        old(result).packets_sent < u64::MAX,
    ensures
        final(result).wf(),
        probe_kept(*old(result), *final(result)),
        final(result).packets_sent == old(result).packets_sent + 1,
        final(result).packets_received == old(result).packets_received
            || final(result).packets_received == old(result).packets_received + 1,
{
    let draw = random_below(1_000_000);
    let jitter = random_between(-5, 5);
    record_loopback_probe(result, draw, jitter);
}

fn loss_message_text(lost: u64, sent: u64) -> (r: String)
    requires
        lost <= sent,
    ensures
        r@ == loss_message(lost as nat, sent as nat),
{
    if sent == 0 {
        return String::from_str("High packet loss: NaN%");
    }
    let scaled: u128 = (lost as u128) * 1000;
    let q: u128 = scaled / (sent as u128);
    let rem: u128 = scaled % (sent as u128);
    let t: u128 = if 2 * rem > sent as u128 || (2 * rem == sent as u128 && q % 2 == 1) { q + 1 } else { q };
    assert(q <= 1000) by (nonlinear_arith)
        requires
            q == scaled / (sent as u128),
            scaled == lost * 1000,
            lost <= sent,
            sent > 0,
    ;
    let tenths = t as u64;
    let whole = u64_text(tenths / 10);
    let frac = u64_text(tenths % 10);
    let mut r = join2("High packet loss: ", whole.as_str());
    r.append(".");
    r.append(frac.as_str());
    r.append("%");
    r
}

/// Ends a loopback test at `now_ms`: the lost probes are counted, the mean
/// round trip time and its standard deviation (the jitter) are taken in whole
/// microseconds, and the test succeeds when under a tenth of the probes were lost.
pub fn finish_loopback_test(result: &mut LoopbackResult, now_ms: u64)
    requires
        old(result).wf(),
    ensures
        final(result).wf(),
        final(result).channel == old(result).channel,
        final(result).loopback_type == old(result).loopback_type,
        final(result).start_ms == old(result).start_ms,
        final(result).packets_sent == old(result).packets_sent,
        final(result).packets_received == old(result).packets_received,
        final(result).round_trip_times_us@ == old(result).round_trip_times_us@,
        final(result).min_rtt_us == old(result).min_rtt_us,
        final(result).max_rtt_us == old(result).max_rtt_us,
        final(result).packets_lost == old(result).packets_sent - old(result).packets_received,
        final(result).end_ms == Some(now_ms),
        final(result).duration_ms == if now_ms >= old(result).start_ms { (now_ms - old(result).start_ms) as int } else { 0 },
        old(result).round_trip_times_us@.len() > 0 ==> {
            let s = old(result).round_trip_times_us@;
            &&& final(result).avg_rtt_us == sum_seq(s) / (s.len() as int)
            &&& is_isqrt((sq_dev(s, final(result).avg_rtt_us as int) / (s.len() as int)) as nat, final(result).jitter_us as nat)
        },
        old(result).round_trip_times_us@.len() > 0 ==> final(result).min_rtt_us <= final(result).avg_rtt_us <= final(result).max_rtt_us,
        old(result).round_trip_times_us@.len() == 0 ==> final(result).avg_rtt_us == old(result).avg_rtt_us
            && final(result).jitter_us == old(result).jitter_us,
        final(result).success == (final(result).packets_lost * 10 < old(result).packets_sent),
        final(result).status == if final(result).success { TestStatus::Completed } else { TestStatus::Failed },
        final(result).success ==> final(result).error_message == old(result).error_message,
        !final(result).success ==> (final(result).error_message matches Some(m)
            && m@ == loss_message(final(result).packets_lost as nat, old(result).packets_sent as nat)),
{
    result.packets_lost = result.packets_sent - result.packets_received;
    result.end_ms = Some(now_ms);
    result.duration_ms = if now_ms >= result.start_ms { now_ms - result.start_ms } else { 0 };
    if result.round_trip_times_us.len() > 0 {
        let (avg, jitter) = mean_and_jitter(&result.round_trip_times_us);
        proof {
            let v = result.round_trip_times_us@;
            let lo = result.min_rtt_us as int;
            let hi = result.max_rtt_us as int;
            lemma_sum_between(v, lo, hi);
            let n = v.len() as int;
            let sm = sum_seq(v);
            assert(lo <= sm / n <= hi) by (nonlinear_arith)
                requires
                    n * lo <= sm <= n * hi,
                    n > 0,
            ;
        }
        result.avg_rtt_us = avg;
        result.jitter_us = jitter;
    }
    result.success = (result.packets_lost as u128) * 10 < result.packets_sent as u128;
    if result.success {
        result.status = TestStatus::Completed;
    } else {
        result.status = TestStatus::Failed;
        result.error_message = Some(loss_message_text(result.packets_lost, result.packets_sent));
    }
}

/// The base bit error rate of a pattern, in parts per billion.
pub open spec fn base_error_ppb(p: BertPattern) -> nat {
    match p {
        BertPattern::AllZeros | BertPattern::AllOnes => 1_000,
        BertPattern::Alternating => 10_000,
        BertPattern::Prbs15 => 50_000,
        BertPattern::Prbs23 => 100_000,
        BertPattern::Prbs31 => 200_000,
        BertPattern::Qrss => 100_000,
    }
}

/// The errored bits of one second: the base rate of the pattern scaled by a
/// drawn factor (thousandths), applied to the bits of the second, rounded down.
pub open spec fn second_errors(bits: nat, p: BertPattern, factor_milli: nat) -> nat {
    (bits * base_error_ppb(p) * factor_milli) / 1_000_000_000_000
}

/// A bit error rate in parts per billion, rounded down.
pub open spec fn ber_ppb(errors: nat, bits: nat) -> nat {
    if bits == 0 { 0 } else { (errors * 1_000_000_000) / bits }
}

/// A bit error rate is rounded down to whole parts per billion: scaled back
/// by the bits it lies within one part of the errors, and more errors over
/// the same bits never give a lower rate.
pub proof fn law_ber_rounds_down(errors: nat, more: nat, bits: nat)
    requires
        bits > 0,
        errors <= more,
    ensures
        ber_ppb(errors, bits) * bits <= errors * 1_000_000_000 < (ber_ppb(errors, bits) + 1) * bits,
        ber_ppb(errors, bits) <= ber_ppb(more, bits),
        errors <= bits ==> ber_ppb(errors, bits) <= 1_000_000_000,
{
    let n: int = (errors * 1_000_000_000) as int;
    let d: int = bits as int;
    vstd::arithmetic::div_mod::lemma_fundamental_div_mod(n, d);
    vstd::arithmetic::div_mod::lemma_mod_pos_bound(n, d);
    assert((n / d) * d <= n < (n / d + 1) * d) by (nonlinear_arith)
        requires
            n == d * (n / d) + n % d,
            0 <= n % d < d,
    ;
    assert(n <= more * 1_000_000_000) by (nonlinear_arith)
        requires
            n == errors * 1_000_000_000,
            errors <= more,
    ;
    vstd::arithmetic::div_mod::lemma_div_is_ordered(n, (more * 1_000_000_000) as int, d);
    if errors <= bits {
        assert(n <= d * 1_000_000_000) by (nonlinear_arith)
            requires
                n == errors * 1_000_000_000,
                d == bits,
                errors <= bits,
        ;
        vstd::arithmetic::div_mod::lemma_div_is_ordered(n, d * 1_000_000_000, d);
        vstd::arithmetic::div_mod::lemma_div_multiples_vanish(1_000_000_000, d);
    }
}

impl BertResult {
    /// Counts agree: as many bits received as sent, a second's worth of bits
    /// for each second counted, no more errored bits than bits, no more
    /// severely errored seconds than errored ones.
    pub open spec fn wf(&self) -> bool {
        &&& self.bits_received == self.bits_transmitted
        &&& self.bits_transmitted == self.bit_rate * (self.error_seconds + self.error_free_seconds)
        &&& self.error_bits <= self.bits_transmitted
        &&& self.severely_error_seconds <= self.error_seconds
    }
}

/// One second of a BERT run, given the drawn factor (thousandths, from a half
/// to two) that scales the pattern's error rate: the second's bits are sent
/// and received, its errored bits counted, the second counted as errored
/// (severely when over one bit in a thousand is wrong) or error free, and the
/// running bit error rate and the elapsed time updated.
pub fn record_bert_second(result: &mut BertResult, factor_milli: u32, elapsed_ms: u64)
    requires
        old(result).wf(),
        500 <= factor_milli < 2000,
        old(result).bits_transmitted + old(result).bit_rate <= u64::MAX,
        old(result).error_seconds < u32::MAX,
        old(result).error_free_seconds < u32::MAX,
    ensures
        final(result).wf(),
        final(result).channel == old(result).channel,
        final(result).pattern == old(result).pattern,
        final(result).status == old(result).status,
        final(result).start_ms == old(result).start_ms,
        final(result).bit_rate == old(result).bit_rate,
        final(result).bits_transmitted == old(result).bits_transmitted + old(result).bit_rate,
        ({
            let e = second_errors(old(result).bit_rate as nat, old(result).pattern, factor_milli as nat);
            &&& final(result).error_bits == old(result).error_bits + e
            &&& final(result).error_seconds == old(result).error_seconds + if e > 0 { 1int } else { 0 }
            &&& final(result).severely_error_seconds == old(result).severely_error_seconds
                + if e > 0 && e * 1000 > old(result).bit_rate { 1int } else { 0 }
            &&& final(result).error_free_seconds == old(result).error_free_seconds + if e > 0 { 0int } else { 1 }
        }),
        final(result).bit_error_rate_ppb == ber_ppb(final(result).error_bits as nat, final(result).bits_transmitted as nat),
        final(result).duration_ms == elapsed_ms,
{
    let bits = result.bit_rate as u64;
    let base: u128 = match result.pattern {
        BertPattern::AllZeros | BertPattern::AllOnes => 1_000,
        BertPattern::Alternating => 10_000,
        BertPattern::Prbs15 => 50_000,
        BertPattern::Prbs23 => 100_000,
        BertPattern::Prbs31 => 200_000,
        BertPattern::Qrss => 100_000,
    };
    assert((bits as u128) * base * (factor_milli as u128) <= 0xffff_ffffu128 * 200_000 * 2000) by (nonlinear_arith)
        requires
            bits <= 0xffff_ffff,
            base <= 200_000,
            factor_milli < 2000,
    ;
    let product: u128 = (bits as u128) * base * (factor_milli as u128);
    let e128: u128 = product / 1_000_000_000_000;
    assert(e128 <= bits) by (nonlinear_arith)
        requires
            e128 == product / 1_000_000_000_000,
            product == (bits as u128) * base * (factor_milli as u128),
            base <= 200_000,
            factor_milli < 2000,
    ;
    let e = e128 as u64;
    proof {
        let n = result.error_seconds + result.error_free_seconds;
        assert(bits * (n + 1) == bits * n + bits) by (nonlinear_arith);
    }
    result.bits_transmitted = result.bits_transmitted + bits;
    result.bits_received = result.bits_received + bits;
    result.error_bits = result.error_bits + e;
    if e > 0 {
        result.error_seconds = result.error_seconds + 1;
        if (e as u128) * 1000 > bits as u128 {
            result.severely_error_seconds = result.severely_error_seconds + 1;
        }
    } else {
        result.error_free_seconds = result.error_free_seconds + 1;
    }
    if result.bits_transmitted > 0 {
        let eb: u128 = result.error_bits as u128;
        let tx: u128 = result.bits_transmitted as u128;
        let num: u128 = eb * 1_000_000_000;
        let r128: u128 = num / tx;
        assert(r128 <= 1_000_000_000) by (nonlinear_arith)
            requires
                r128 == num / tx,
                num == eb * 1_000_000_000,
                eb <= tx,
                tx > 0,
        ;
        result.bit_error_rate_ppb = r128 as u64;
    } else {
        result.bit_error_rate_ppb = 0;
    }
    result.duration_ms = elapsed_ms;
}

/// Runs one second of a BERT test: draws the error factor, then records the
/// second. Whatever the draw, the second's bits are counted and it is counted
/// as either errored or error free.
pub fn bert_second(result: &mut BertResult, elapsed_ms: u64)
    requires
        old(result).wf(),
        old(result).bits_transmitted + old(result).bit_rate <= u64::MAX,
        old(result).error_seconds < u32::MAX,
        old(result).error_free_seconds < u32::MAX,
    ensures
        final(result).wf(),
        final(result).channel == old(result).channel,
        final(result).pattern == old(result).pattern,
        final(result).bits_transmitted == old(result).bits_transmitted + old(result).bit_rate,
        final(result).error_seconds + final(result).error_free_seconds
            == old(result).error_seconds + old(result).error_free_seconds + 1,
        final(result).bit_error_rate_ppb == ber_ppb(final(result).error_bits as nat, final(result).bits_transmitted as nat),
        final(result).duration_ms == elapsed_ms,
{
    let factor = random_below(1500) + 500;
    record_bert_second(result, factor, elapsed_ms);
}

/// Whether a BERT run passes a threshold (parts per billion): when it ran no
/// second its rate is zero; when it ran seconds without sending a bit its rate
/// is undefined and it fails; otherwise its exact rate must not exceed the threshold.
pub open spec fn bert_passes(r: BertResult, threshold_ppb: nat) -> bool {
    if r.error_seconds + r.error_free_seconds == 0 {
        true
    } else if r.bits_transmitted == 0 {
        false
    } else {
        r.error_bits * 1_000_000_000 <= threshold_ppb * r.bits_transmitted
    }
}

/// Ends a BERT test at `now_ms`: it completes when its error rate is within
/// the threshold, and otherwise fails with `failure_text` as its message (the
/// caller prints the two rates in it, in floating point).
pub fn finish_bert_test(result: &mut BertResult, threshold_ppb: u64, now_ms: u64, failure_text: String)
    requires
        old(result).wf(),
    ensures
        final(result).wf(),
        final(result).channel == old(result).channel,
        final(result).pattern == old(result).pattern,
        final(result).start_ms == old(result).start_ms,
        final(result).bits_transmitted == old(result).bits_transmitted,
        final(result).error_bits == old(result).error_bits,
        final(result).error_seconds == old(result).error_seconds,
        final(result).error_free_seconds == old(result).error_free_seconds,
        final(result).severely_error_seconds == old(result).severely_error_seconds,
        final(result).bit_error_rate_ppb == old(result).bit_error_rate_ppb,
        final(result).end_ms == Some(now_ms),
        final(result).duration_ms == if now_ms >= old(result).start_ms { (now_ms - old(result).start_ms) as int } else { 0 },
        final(result).success == bert_passes(*old(result), threshold_ppb as nat),
        final(result).status == if final(result).success { TestStatus::Completed } else { TestStatus::Failed },
        final(result).error_message == if final(result).success { None } else { Some(failure_text) },
{
    result.end_ms = Some(now_ms);
    result.duration_ms = if now_ms >= result.start_ms { now_ms - result.start_ms } else { 0 };
    let seconds = result.error_seconds as u64 + result.error_free_seconds as u64;
    let ok = if seconds == 0 {
        true
    } else if result.bits_transmitted == 0 {
        false
    } else {
        let thr: u128 = threshold_ppb as u128;
        let tx: u128 = result.bits_transmitted as u128;
        assert(thr * tx <= 0xffff_ffff_ffff_ffffu128 * 0xffff_ffff_ffff_ffffu128) by (nonlinear_arith)
            requires
                thr <= 0xffff_ffff_ffff_ffffu128,
                tx <= 0xffff_ffff_ffff_ffffu128,
        ;
        (result.error_bits as u128) * 1_000_000_000 <= thr * tx
    };
    result.success = ok;
    result.status = if ok { TestStatus::Completed } else { TestStatus::Failed };
    result.error_message = if ok { None } else { Some(failure_text) };
}

/// The id under which a finished test is kept: `<kind>-<channel>-<seconds>`.
pub open spec fn test_id(kind: Seq<char>, channel: u16, elapsed_secs: u64) -> Seq<char> {
    kind + "-"@ + decimal(channel as nat) + "-"@ + decimal(elapsed_secs as nat)
}

fn test_id_text(kind: &str, channel: u16, elapsed_secs: u64) -> (r: String)
    ensures
        r@ == test_id(kind@, channel, elapsed_secs),
{
    let mut r = join2(kind, "-");
    let c = u64_text(channel as u64);
    r.append(c.as_str());
    r.append("-");
    let t = u64_text(elapsed_secs);
    r.append(t.as_str());
    r
}

/// Whether a bounded list of finished tests is `before` with `id` mapped to
/// `item` added, the oldest entry having made way when the bound was passed.
pub open spec fn kept_after_insert<T>(
    before: Map<Seq<char>, T>,
    after: Map<Seq<char>, T>,
    id: Seq<char>,
    item: T,
) -> bool {
    &&& after.dom().contains(id)
    &&& after[id] == item
    &&& forall|k: Seq<char>| #[trigger] after.dom().contains(k) && k != id ==> before.dom().contains(k) && after[k] == before[k]
    &&& (before.dom().len() < MAX_COMPLETED_TESTS || before.dom().contains(id)) ==> after == before.insert(id, item)
}

impl TestingService {
    /// Replaces the running loopback result of its channel, if that test is still running.
    pub fn update_active_loopback(&mut self, result: LoopbackResult)
        requires
            old(self).wf(),
        ensures
            final(self).wf(),
            final(self).config == old(self).config,
            final(self).active_bert_tests == old(self).active_bert_tests,
            final(self).completed_loopback_tests == old(self).completed_loopback_tests,
            final(self).completed_bert_tests == old(self).completed_bert_tests,
            final(self).active_loopback_tests.view() == if old(self).active_loopback_tests.view().dom().contains(result.channel as u128) {
                old(self).active_loopback_tests.view().insert(result.channel as u128, result)
            } else {
                old(self).active_loopback_tests.view()
            },
    {
        if self.active_loopback_tests.get(result.channel as u128).is_some() {
            self.active_loopback_tests.insert(result);
        }
    }

    /// Replaces the running BERT result of its channel, if that test is still running.
    pub fn update_active_bert(&mut self, result: BertResult)
        requires
            old(self).wf(),
        ensures
            final(self).wf(),
            final(self).config == old(self).config,
            final(self).active_loopback_tests == old(self).active_loopback_tests,
            final(self).completed_loopback_tests == old(self).completed_loopback_tests,
            final(self).completed_bert_tests == old(self).completed_bert_tests,
            final(self).active_bert_tests.view() == if old(self).active_bert_tests.view().dom().contains(result.channel as u128) {
                old(self).active_bert_tests.view().insert(result.channel as u128, result)
            } else {
                old(self).active_bert_tests.view()
            },
    {
        if self.active_bert_tests.get(result.channel as u128).is_some() {
            self.active_bert_tests.insert(result);
        }
    }

    /// Files a finished loopback test under `loopback-<channel>-<seconds>` and
    /// drops its channel from the running tests; past `MAX_COMPLETED_TESTS`
    /// the oldest finished test makes way.
    pub fn complete_loopback_test(&mut self, result: LoopbackResult, elapsed_secs: u64)
        requires
            old(self).wf(),
        ensures
            final(self).wf(),
            final(self).config == old(self).config,
            final(self).active_bert_tests == old(self).active_bert_tests,
            final(self).completed_bert_tests == old(self).completed_bert_tests,
            final(self).active_loopback_tests.view() == old(self).active_loopback_tests.view().remove(result.channel as u128),
            kept_after_insert(
                old(self).completed_loopback_tests.view(),
                final(self).completed_loopback_tests.view(),
                test_id("loopback"@, result.channel, elapsed_secs),
                CompletedLoopback { test_id: final(self).completed_loopback_tests.view()[test_id("loopback"@, result.channel, elapsed_secs)].test_id, result },
            ),
    {
        let channel = result.channel;
        let id = test_id_text("loopback", channel, elapsed_secs);
        let ghost idv = id@;
        let entry = CompletedLoopback { test_id: id, result };
        let ghost ev = entry;
        proof {
            self.completed_loopback_tests.lemma_len_pub();
        }
        self.completed_loopback_tests.insert(entry);
        let ghost mid = self.completed_loopback_tests.view();
        proof {
            self.completed_loopback_tests.lemma_len_pub();
        }
        if self.completed_loopback_tests.len() > MAX_COMPLETED_TESTS {
            let oldest = self.completed_loopback_tests.at(0).test_id.clone();
            proof {
                self.completed_loopback_tests.lemma_get_at(0);
                assert(!old(self).completed_loopback_tests.contains(idv));
                assert(self.completed_loopback_tests.seq() == old(self).completed_loopback_tests.seq().push(ev));
                assert(oldest@ != idv);
            }
            self.completed_loopback_tests.remove(oldest.as_str());
        }
        self.active_loopback_tests.remove(channel as u128);
    }

    /// Files a finished BERT test under `bert-<channel>-<seconds>`, as
    /// `complete_loopback_test` does loopback tests.
    pub fn complete_bert_test(&mut self, result: BertResult, elapsed_secs: u64)
        requires
            old(self).wf(),
        ensures
            final(self).wf(),
            final(self).config == old(self).config,
            final(self).active_loopback_tests == old(self).active_loopback_tests,
            final(self).completed_loopback_tests == old(self).completed_loopback_tests,
            final(self).active_bert_tests.view() == old(self).active_bert_tests.view().remove(result.channel as u128),
            kept_after_insert(
                old(self).completed_bert_tests.view(),
                final(self).completed_bert_tests.view(),
                test_id("bert"@, result.channel, elapsed_secs),
                CompletedBert { test_id: final(self).completed_bert_tests.view()[test_id("bert"@, result.channel, elapsed_secs)].test_id, result },
            ),
    {
        let channel = result.channel;
        let id = test_id_text("bert", channel, elapsed_secs);
        let ghost idv = id@;
        let entry = CompletedBert { test_id: id, result };
        let ghost ev = entry;
        proof {
            self.completed_bert_tests.lemma_len_pub();
        }
        self.completed_bert_tests.insert(entry);
        proof {
            self.completed_bert_tests.lemma_len_pub();
        }
        if self.completed_bert_tests.len() > MAX_COMPLETED_TESTS {
            let oldest = self.completed_bert_tests.at(0).test_id.clone();
            proof {
                self.completed_bert_tests.lemma_get_at(0);
                assert(!old(self).completed_bert_tests.contains(idv));
                assert(self.completed_bert_tests.seq() == old(self).completed_bert_tests.seq().push(ev));
                assert(oldest@ != idv);
            }
            self.completed_bert_tests.remove(oldest.as_str());
        }
        self.active_bert_tests.remove(channel as u128);
    }

    /// The latest finished BERT test of a channel: the one that started last,
    /// the later filed one among equals.
    pub fn get_bert_results_for_channel(&self, channel: u16) -> (r: Option<&BertResult>)
        requires
            self.wf(),
        ensures
            r is None <==> forall|i: int| 0 <= i < self.completed_bert_tests.seq().len()
                ==> (#[trigger] self.completed_bert_tests.seq()[i]).result.channel != channel,
            r matches Some(x) ==> exists|i: int| {
                &&& 0 <= i < self.completed_bert_tests.seq().len()
                &&& #[trigger] self.completed_bert_tests.seq()[i].result == *x
                &&& x.channel == channel
                &&& forall|j: int| 0 <= j < self.completed_bert_tests.seq().len()
                    && (#[trigger] self.completed_bert_tests.seq()[j]).result.channel == channel ==> {
                    &&& self.completed_bert_tests.seq()[j].result.start_ms <= x.start_ms
                    &&& j > i ==> self.completed_bert_tests.seq()[j].result.start_ms < x.start_ms
                }
            },
    {
        let items = self.completed_bert_tests.items();
        let ghost s = items@;
        let mut best: Option<usize> = None;
        let mut i: usize = 0;
        while i < items.len()
            invariant
                s == items@,
                s == self.completed_bert_tests.seq(),
                i <= s.len(),
                best is None <==> forall|j: int| 0 <= j < i ==> (#[trigger] s[j]).result.channel != channel,
                best matches Some(b) ==> {
                    &&& b < i
                    &&& s[b as int].result.channel == channel
                    &&& forall|j: int| 0 <= j < i && (#[trigger] s[j]).result.channel == channel ==> {
                        &&& s[j].result.start_ms <= s[b as int].result.start_ms
                        &&& j > b ==> s[j].result.start_ms < s[b as int].result.start_ms
                    }
                },
            decreases s.len() - i,
        {
            if items[i].result.channel == channel {
                match best {
                    Some(b) => {
                        if items[i].result.start_ms >= items[b].result.start_ms {
                            best = Some(i);
                        }
                    },
                    None => {
                        best = Some(i);
                    },
                }
            }
            i = i + 1;
        }
        match best {
            Some(b) => {
                let x = &items[b].result;
                proof {
                    assert(s[b as int].result == *x);
                }
                Some(x)
            },
            None => None,
        }
    }
}

/// The name of a loopback type.
pub open spec fn loopback_type_name(t: LoopbackType) -> Seq<char> {
    match t {
        LoopbackType::Local => "local"@,
        LoopbackType::Remote => "remote"@,
        LoopbackType::Line => "line"@,
    }
}

/// The name of a BERT pattern.
pub open spec fn bert_pattern_name(p: BertPattern) -> Seq<char> {
    match p {
        BertPattern::Prbs15 => "prbs_15"@,
        BertPattern::Prbs23 => "prbs_23"@,
        BertPattern::Prbs31 => "prbs_31"@,
        BertPattern::AllZeros => "all_zeros"@,
        BertPattern::AllOnes => "all_ones"@,
        BertPattern::Alternating => "alternating"@,
        BertPattern::Qrss => "qrss"@,
    }
}

impl LoopbackType {
    /// The name of the type, such as `local`.
    pub fn to_string(&self) -> (r: String)
        ensures
            r@ == loopback_type_name(*self),
    {
        match self {
            LoopbackType::Local => String::from_str("local"),
            LoopbackType::Remote => String::from_str("remote"),
            LoopbackType::Line => String::from_str("line"),
        }
    }
}

impl BertPattern {
    /// The name of the pattern, such as `prbs_15`.
    pub fn to_string(&self) -> (r: String)
        ensures
            r@ == bert_pattern_name(*self),
    {
        match self {
            BertPattern::Prbs15 => String::from_str("prbs_15"),
            BertPattern::Prbs23 => String::from_str("prbs_23"),
            BertPattern::Prbs31 => String::from_str("prbs_31"),
            BertPattern::AllZeros => String::from_str("all_zeros"),
            BertPattern::AllOnes => String::from_str("all_ones"),
            BertPattern::Alternating => String::from_str("alternating"),
            BertPattern::Qrss => String::from_str("qrss"),
        }
    }
}

} // verus!
