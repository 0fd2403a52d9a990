//! Test automation: scenarios become sequences of interface test steps, each
//! step's result is judged against its success criteria, and a session's
//! outcomes are summed up. Durations are milliseconds, delays microseconds,
//! success rates hundredths of a percent, bit error rates parts per trillion
//! and frame error rates parts per million.

use vstd::prelude::*;
use crate::error::{GatewayError, GatewayResult};
use crate::interface_testing::{
    InterfaceTestResult, InterfaceTestStats, InterfaceTestType, Ratio, TestPattern, TestPatternView, texts, uuid_text,
    uuid_text_spec, new_test_id, push_text,
};
use crate::keyed::{NumKeyed, NumKeyedList};
use crate::text::{decimal, join2, u64_text};

verus! {

/// Suspected issues that a troubleshooting scenario looks into.
#[derive(Clone, Copy, Debug, PartialEq, Eq, Structural)]
pub enum TroubleshootingIssue {
    HighLatency,
    PacketLoss,
    BitErrors,
    SyncIssues,
    CrossTalk,
    TimingDrift,
}

/// What a test must reach to pass.
#[derive(Clone, Copy, Debug, PartialEq, Eq, Structural)]
pub struct SuccessCriteria {
    pub min_success_rate_centi: u32,
    pub max_bit_error_rate_ppt: u64,
    pub max_frame_error_rate_ppm: u64,
    pub max_average_delay_us: u64,
    pub max_jitter_us: u64,
}

/// The default criteria: 99% of frames, bit errors up to 1e-6, frame errors
/// up to 1%, 50 ms average delay and 10 ms jitter.
pub open spec fn default_criteria() -> SuccessCriteria {
    SuccessCriteria {
        min_success_rate_centi: 9900,
        max_bit_error_rate_ppt: 1_000_000,
        max_frame_error_rate_ppm: 10_000,
        max_average_delay_us: 50_000,
        max_jitter_us: 10_000,
    }
}

impl Default for SuccessCriteria {
    /// The default criteria.
    fn default() -> (r: Self)
        ensures
            r == default_criteria(),
    {
        SuccessCriteria {
            min_success_rate_centi: 9900,
            max_bit_error_rate_ppt: 1_000_000,
            max_frame_error_rate_ppm: 10_000,
            max_average_delay_us: 50_000,
            max_jitter_us: 10_000,
        }
    }
}

/// One step of a test sequence.
pub struct CustomTestStep {
    pub name: String,
    pub test_type: InterfaceTestType,
    pub source_span: u32,
    pub dest_span: Option<u32>,
    pub pattern: TestPattern,
    pub duration_ms: u64,
    pub success_criteria: SuccessCriteria,
    pub wait_before_ms: Option<u64>,
    pub wait_after_ms: Option<u64>,
}

/// A test step as a mathematical value.
pub struct StepSpec {
    pub name: Seq<char>,
    pub test_type: InterfaceTestType,
    pub source_span: u32,
    pub dest_span: Option<u32>,
    pub pattern: TestPatternView,
    pub duration_ms: u64,
    pub success_criteria: SuccessCriteria,
    pub wait_before_ms: Option<u64>,
    pub wait_after_ms: Option<u64>,
}

impl View for CustomTestStep {
    type V = StepSpec;

    open spec fn view(&self) -> StepSpec {
        StepSpec {
            name: self.name@,
            test_type: self.test_type,
            source_span: self.source_span,
            dest_span: self.dest_span,
            pattern: self.pattern@,
            duration_ms: self.duration_ms,
            success_criteria: self.success_criteria,
            wait_before_ms: self.wait_before_ms,
            wait_after_ms: self.wait_after_ms,
        }
    }
}

/// The views of a list of steps.
pub open spec fn step_views(v: Seq<CustomTestStep>) -> Seq<StepSpec> {
    v.map_values(|s: CustomTestStep| s@)
}

/// Test scenario definitions; durations per test are in seconds.
pub enum TestScenario {
    /// Basic connectivity validation
    BasicConnectivity { spans: Vec<u32> },
    /// Comprehensive system validation
    SystemValidation { spans: Vec<u32>, duration_per_test: u64, include_stress_tests: bool },
    /// Production readiness test
    ProductionReadiness { spans: Vec<u32>, call_volume: u32, duration_hours: u8 },
    /// Troubleshooting of a suspected issue
    Troubleshooting { problem_spans: Vec<u32>, suspected_issue: TroubleshootingIssue },
    /// Custom test sequence
    Custom { name: String, test_sequence: Vec<CustomTestStep> },
}

/// The steps a scenario makes for each span, by kind; durations in milliseconds.
#[derive(Clone, Copy, Debug, PartialEq, Eq, Structural)]
pub enum SpanStepKind {
    BasicLoopback,
    SystemLoopback(u64),
    SystemProtocol(u64),
    SystemStress(u64),
    ProductionStability(u64),
    Latency,
    PacketLoss,
    BitErrors,
    Sync,
    TimingDrift,
}

/// The steps a scenario makes for each pair of spans, by kind; durations in milliseconds.
#[derive(Clone, Copy, Debug, PartialEq, Eq, Structural)]
pub enum PairStepKind {
    BasicCrossPort,
    SystemCrossPort(u64),
    SystemEndToEnd(u64),
    ProductionHighVolume(u64),
    Crosstalk,
}

/// A step with both waits set.
pub open spec fn step(
    name: Seq<char>,
    t: InterfaceTestType,
    source: u32,
    dest: Option<u32>,
    pattern: TestPatternView,
    duration_ms: u64,
    criteria: SuccessCriteria,
    wait_before_ms: u64,
    wait_after_ms: u64,
) -> StepSpec {
    StepSpec {
        name,
        test_type: t,
        source_span: source,
        dest_span: dest,
        pattern,
        duration_ms,
        success_criteria: criteria,
        wait_before_ms: Some(wait_before_ms),
        wait_after_ms: Some(wait_after_ms),
    }
}

/// `prefix` followed by a span number.
pub open spec fn span_name(prefix: Seq<char>, s: u32) -> Seq<char> {
    prefix + decimal(s as nat)
}

/// `prefix`, a span number, `mid`, another span number.
pub open spec fn pair_name(prefix: Seq<char>, a: u32, mid: Seq<char>, b: u32) -> Seq<char> {
    prefix + decimal(a as nat) + mid + decimal(b as nat)
}

/// The steps for one span.
pub open spec fn span_steps(k: SpanStepKind, s: u32) -> Seq<StepSpec> {
    let d = default_criteria();
    match k {
        SpanStepKind::BasicLoopback => seq![step(span_name("Loopback Test - Span "@, s), InterfaceTestType::TdmoeLoopback, s, None,
            TestPatternView::Prbs15, 30_000, d, 2000, 1000)],
        SpanStepKind::SystemLoopback(t) => seq![step(span_name("System Validation - Loopback Span "@, s),
            InterfaceTestType::TdmoeLoopback, s, None, TestPatternView::Prbs23, t, d, 3000, 2000)],
        SpanStepKind::SystemProtocol(t) => seq![step(span_name("System Validation - Protocol Stack Span "@, s),
            InterfaceTestType::ProtocolStackTest, s, None, TestPatternView::Q931Setup, t, d, 5000, 2000)],
        SpanStepKind::SystemStress(t) => seq![step(span_name("System Validation - Stress Test Span "@, s),
            InterfaceTestType::TdmoeLoopback, s, None, TestPatternView::Prbs31, t,
            SuccessCriteria { min_success_rate_centi: 9700, ..d }, 10_000, 5000)],
        SpanStepKind::ProductionStability(t) => seq![step(span_name("Production Readiness - Stability Test Span "@, s),
            InterfaceTestType::TdmoeLoopback, s, None, TestPatternView::Prbs23, t,
            SuccessCriteria { min_success_rate_centi: 9950, max_bit_error_rate_ppt: 1000, max_frame_error_rate_ppm: 1000, ..d },
            30_000, 10_000)],
        SpanStepKind::Latency => seq![step(span_name("Troubleshoot Latency - Span "@, s), InterfaceTestType::TimingSyncTest, s,
            None, TestPatternView::Custom(seq![0x55u8, 0xAAu8]), 60_000,
            SuccessCriteria { max_average_delay_us: 200, max_jitter_us: 50, ..d }, 5000, 2000)],
        SpanStepKind::PacketLoss => seq![step(span_name("Troubleshoot Packet Loss - Span "@, s), InterfaceTestType::TdmoeLoopback,
            s, None, TestPatternView::Prbs15, 120_000,
            SuccessCriteria { min_success_rate_centi: 9999, max_frame_error_rate_ppm: 100, ..d }, 3000, 2000)],
        SpanStepKind::BitErrors => {
            let c = SuccessCriteria { max_bit_error_rate_ppt: 1, ..d };
            seq![
                step(span_name("Troubleshoot Bit Errors - Span "@, s) + " Pattern AllZeros"@, InterfaceTestType::TdmoeLoopback, s,
                    None, TestPatternView::AllZeros, 90_000, c, 5000, 3000),
                step(span_name("Troubleshoot Bit Errors - Span "@, s) + " Pattern AllOnes"@, InterfaceTestType::TdmoeLoopback, s,
                    None, TestPatternView::AllOnes, 90_000, c, 5000, 3000),
                step(span_name("Troubleshoot Bit Errors - Span "@, s) + " Pattern Prbs31"@, InterfaceTestType::TdmoeLoopback, s,
                    None, TestPatternView::Prbs31, 90_000, c, 5000, 3000)
            ]
        },
        SpanStepKind::Sync => seq![step(span_name("Troubleshoot Sync - Span "@, s), InterfaceTestType::TimingSyncTest, s, None,
            TestPatternView::LapdFrames, 180_000, SuccessCriteria { max_jitter_us: 10, ..d }, 10_000, 5000)],
        SpanStepKind::TimingDrift => seq![step(span_name("Troubleshoot Timing Drift - Span "@, s), InterfaceTestType::TimingSyncTest,
            s, None, TestPatternView::Custom(seq![0x00u8, 0xFFu8]), 600_000,
            SuccessCriteria { max_jitter_us: 5, max_average_delay_us: 125, ..d }, 30_000, 10_000)],
    }
}

/// Whether two span numbers, taken as 32-bit signed values, are at most one apart.
pub open spec fn adjacent(a: u32, b: u32) -> bool {
    let d = (b as i32) as int - (a as i32) as int;
    -1 <= d <= 1
}

/// The steps for one pair of spans.
pub open spec fn pair_steps(k: PairStepKind, a: u32, b: u32) -> Seq<StepSpec> {
    let d = default_criteria();
    match k {
        PairStepKind::BasicCrossPort => seq![step(pair_name("Cross-Port Test - Span "@, a, " to "@, b),
            InterfaceTestType::CrossPortWiring, a, Some(b), TestPatternView::Alternating, 45_000,
            SuccessCriteria { min_success_rate_centi: 9800, ..d }, 2000, 1000)],
        PairStepKind::SystemCrossPort(t) => seq![step(pair_name("System Validation - Cross-Port "@, a, " to "@, b),
            InterfaceTestType::CrossPortWiring, a, Some(b), TestPatternView::Prbs15, t, d, 3000, 2000)],
        PairStepKind::SystemEndToEnd(t) => seq![step(pair_name("System Validation - E2E Call "@, a, " to "@, b),
            InterfaceTestType::EndToEndCall, a, Some(b), TestPatternView::ToneGeneration(1000), t,
            SuccessCriteria { min_success_rate_centi: 9500, max_average_delay_us: 100_000, ..d }, 5000, 3000)],
        PairStepKind::ProductionHighVolume(t) => seq![step(pair_name("Production Readiness - High Volume "@, a, " to "@, b),
            InterfaceTestType::EndToEndCall, a, Some(b), TestPatternView::ToneGeneration(800), t,
            SuccessCriteria { min_success_rate_centi: 9900, max_average_delay_us: 150_000, max_jitter_us: 20_000, ..d },
            60_000, 30_000)],
        PairStepKind::Crosstalk => if adjacent(a, b) {
            seq![step(pair_name("Troubleshoot Crosstalk - Span "@, a, " vs "@, b), InterfaceTestType::CrossPortWiring, a, Some(b),
                TestPatternView::Alternating, 300_000, SuccessCriteria { max_bit_error_rate_ppt: 1000, ..d }, 10_000, 5000)]
        } else {
            Seq::empty()
        },
    }
}

/// The steps for each span in turn.
pub open spec fn all_span_steps(k: SpanStepKind, spans: Seq<u32>) -> Seq<StepSpec>
    decreases spans.len(),
{
    if spans.len() == 0 {
        Seq::empty()
    } else {
        all_span_steps(k, spans.drop_last()) + span_steps(k, spans.last())
    }
}

/// The steps for the pairs of span `i` with the spans after it and before `j`.
pub open spec fn pair_row(k: PairStepKind, spans: Seq<u32>, i: int, j: int) -> Seq<StepSpec>
    decreases j - i,
{
    if j <= i + 1 {
        Seq::empty()
    } else {
        pair_row(k, spans, i, j - 1) + pair_steps(k, spans[i], spans[j - 1])
    }
}

/// The steps for the pairs whose first span comes before position `i`.
pub open spec fn pairs_upto(k: PairStepKind, spans: Seq<u32>, i: int) -> Seq<StepSpec>
    decreases i,
{
    if i <= 0 {
        Seq::empty()
    } else {
        pairs_upto(k, spans, i - 1) + pair_row(k, spans, i - 1, spans.len() as int)
    }
}

/// The steps for every pair of spans, each span with those after it.
pub open spec fn all_pair_steps(k: PairStepKind, spans: Seq<u32>) -> Seq<StepSpec> {
    pairs_upto(k, spans, spans.len() as int)
}

/// How many steps a span kind makes for one span: three patterns when
/// hunting bit errors, else one.
pub open spec fn steps_per_span(k: SpanStepKind) -> nat {
    if k == SpanStepKind::BitErrors { 3 } else { 1 }
}

/// Every span gets its steps, in the order of the spans: as many steps per
/// span as the kind makes, each testing that span alone. With one step per
/// span, step `i` tests span `i`.
pub proof fn law_span_steps_cover_each_span(k: SpanStepKind, spans: Seq<u32>)
    ensures
        all_span_steps(k, spans).len() == steps_per_span(k) * spans.len(),
        forall|i: int| 0 <= i < all_span_steps(k, spans).len() ==> (#[trigger] all_span_steps(k, spans)[i]).dest_span is None,
        steps_per_span(k) == 1 ==> forall|i: int| 0 <= i < spans.len() ==> (#[trigger] all_span_steps(k, spans)[i]).source_span
            == spans[i],
    decreases spans.len(),
{
    if spans.len() > 0 {
        let t = spans.drop_last();
        law_span_steps_cover_each_span(k, t);
        let a = all_span_steps(k, t);
        let b = span_steps(k, spans.last());
        assert(all_span_steps(k, spans) == a + b);
        assert(b.len() == steps_per_span(k));
        assert(steps_per_span(k) * spans.len() == steps_per_span(k) * t.len() + steps_per_span(k)) by (nonlinear_arith)
            requires
                spans.len() == t.len() + 1,
        ;
        assert forall|i: int| 0 <= i < (a + b).len() implies (#[trigger] (a + b)[i]).dest_span is None by {
            if i < a.len() {
                assert((a + b)[i] == a[i]);
            } else {
                assert((a + b)[i] == b[i - a.len()]);
            }
        }
        if steps_per_span(k) == 1 {
            assert forall|i: int| 0 <= i < spans.len() implies (#[trigger] all_span_steps(k, spans)[i]).source_span == spans[i] by {
                if i < t.len() {
                    assert((a + b)[i] == a[i]);
                    assert(t[i] == spans[i]);
                } else {
                    assert((a + b)[i] == b[0]);
                }
            }
        }
    }
}

proof fn lemma_pair_row(k: PairStepKind, spans: Seq<u32>, i: int, j: int)
    requires
        k != PairStepKind::Crosstalk,
        0 <= i < j <= spans.len(),
    ensures
        pair_row(k, spans, i, j).len() == j - i - 1,
        forall|x: int| 0 <= x < pair_row(k, spans, i, j).len() ==> (#[trigger] pair_row(k, spans, i, j)[x]).source_span == spans[i]
            && pair_row(k, spans, i, j)[x].dest_span == Some(spans[i + 1 + x]),
    decreases j - i,
{
    if j > i + 1 {
        lemma_pair_row(k, spans, i, j - 1);
        let a = pair_row(k, spans, i, j - 1);
        let b = pair_steps(k, spans[i], spans[j - 1]);
        assert(pair_row(k, spans, i, j) == a + b);
        assert forall|x: int| 0 <= x < (a + b).len() implies (#[trigger] (a + b)[x]).source_span == spans[i] && (a
            + b)[x].dest_span == Some(spans[i + 1 + x]) by {
            if x < a.len() {
                assert((a + b)[x] == a[x]);
            } else {
                assert((a + b)[x] == b[0]);
            }
        }
    }
}

proof fn lemma_pairs_upto(k: PairStepKind, spans: Seq<u32>, i: int)
    requires
        k != PairStepKind::Crosstalk,
        0 <= i <= spans.len(),
    ensures
        2 * pairs_upto(k, spans, i).len() == 2 * i * spans.len() - i * (i + 1),
        forall|x: int| 0 <= x < pairs_upto(k, spans, i).len() ==> (#[trigger] pairs_upto(k, spans, i)[x]).dest_span is Some,
    decreases i,
{
    if i > 0 {
        lemma_pairs_upto(k, spans, i - 1);
        lemma_pair_row(k, spans, i - 1, spans.len() as int);
        let a = pairs_upto(k, spans, i - 1);
        let b = pair_row(k, spans, i - 1, spans.len() as int);
        assert(pairs_upto(k, spans, i) == a + b);
        let n = spans.len() as int;
        assert(2 * (i - 1) * n - (i - 1) * i + 2 * (n - i) == 2 * i * n - i * (i + 1)) by (nonlinear_arith);
        assert forall|x: int| 0 <= x < (a + b).len() implies (#[trigger] (a + b)[x]).dest_span is Some by {
            if x < a.len() {
                assert((a + b)[x] == a[x]);
            } else {
                assert((a + b)[x] == b[x - a.len()]);
            }
        }
    }
}

/// Every unordered pair of spans gets one step, sent from the earlier span of
/// the pair to the later: n spans make n(n-1)/2 steps, each with a
/// destination. (Crosstalk hunts only pairs of neighbouring spans.)
pub proof fn law_pair_steps_cover_each_pair(k: PairStepKind, spans: Seq<u32>)
    requires
        k != PairStepKind::Crosstalk,
    ensures
        2 * all_pair_steps(k, spans).len() == spans.len() * (spans.len() - 1),
        forall|x: int| 0 <= x < all_pair_steps(k, spans).len() ==> (#[trigger] all_pair_steps(k, spans)[x]).dest_span is Some,
        spans.len() >= 2 ==> all_pair_steps(k, spans)[0].source_span == spans[0] && all_pair_steps(k, spans)[0].dest_span
            == Some(spans[1]),
{
    lemma_pairs_upto(k, spans, spans.len() as int);
    let n = spans.len() as int;
    assert(2 * n * n - n * (n + 1) == n * (n - 1)) by (nonlinear_arith);
    if n >= 2 {
        lemma_pairs_upto(k, spans, 1);
        lemma_pair_row(k, spans, 0, n);
        assert(pairs_upto(k, spans, 1) == pairs_upto(k, spans, 0) + pair_row(k, spans, 0, n));
        assert(pairs_upto(k, spans, 0).len() == 0);
        lemma_pairs_prefix(k, spans, 1, n);
        let p1 = pairs_upto(k, spans, 1);
        let pn = pairs_upto(k, spans, n);
        assert(p1 =~= pair_row(k, spans, 0, n));
        assert(p1.len() == n - 1);
        assert(p1[0].source_span == spans[0] && p1[0].dest_span == Some(spans[1]));
        assert(pn.subrange(0, p1.len() as int)[0] == pn[0]);
        assert(all_pair_steps(k, spans) == pn);
    }
}

proof fn lemma_pairs_prefix(k: PairStepKind, spans: Seq<u32>, i: int, j: int)
    requires
        0 <= i <= j,
    ensures
        pairs_upto(k, spans, j).subrange(0, pairs_upto(k, spans, i).len() as int) == pairs_upto(k, spans, i),
        pairs_upto(k, spans, i).len() <= pairs_upto(k, spans, j).len(),
    decreases j - i,
{
    if j > i {
        lemma_pairs_prefix(k, spans, i, j - 1);
        let a = pairs_upto(k, spans, j - 1);
        if j > 0 {
            assert(pairs_upto(k, spans, j) == a + pair_row(k, spans, j - 1, spans.len() as int));
            assert((a + pair_row(k, spans, j - 1, spans.len() as int)).subrange(0, pairs_upto(k, spans, i).len() as int)
                =~= a.subrange(0, pairs_upto(k, spans, i).len() as int));
        }
    } else {
        assert(pairs_upto(k, spans, j).subrange(0, pairs_upto(k, spans, i).len() as int) =~= pairs_upto(k, spans, i));
    }
}

fn span_text(prefix: &str, s: u32) -> (r: String)
    ensures
        r@ == span_name(prefix@, s),
{
    let n = u64_text(s as u64);
    join2(prefix, n.as_str())
}

fn pair_text(prefix: &str, a: u32, mid: &str, b: u32) -> (r: String)
    ensures
        r@ == pair_name(prefix@, a, mid@, b),
{
    let mut r = span_text(prefix, a);
    r.append(mid);
    let n = u64_text(b as u64);
    r.append(n.as_str());
    r
}

fn make_step(
    name: String,
    t: InterfaceTestType,
    source: u32,
    dest: Option<u32>,
    pattern: TestPattern,
    duration_ms: u64,
    criteria: SuccessCriteria,
    wait_before_ms: u64,
    wait_after_ms: u64,
) -> (r: CustomTestStep)
    ensures
        r@ == step(name@, t, source, dest, pattern@, duration_ms, criteria, wait_before_ms, wait_after_ms),
{
    CustomTestStep {
        name,
        test_type: t,
        source_span: source,
        dest_span: dest,
        pattern,
        duration_ms,
        success_criteria: criteria,
        wait_before_ms: Some(wait_before_ms),
        wait_after_ms: Some(wait_after_ms),
    }
}

/// The steps for one span.
pub fn make_span_steps(k: SpanStepKind, s: u32) -> (r: Vec<CustomTestStep>)
    ensures
        step_views(r@) == span_steps(k, s),
{
    let d = SuccessCriteria::default();
    let mut r: Vec<CustomTestStep> = Vec::new();
    match k {
        SpanStepKind::BasicLoopback => {
            r.push(make_step(span_text("Loopback Test - Span ", s), InterfaceTestType::TdmoeLoopback, s, None,
                TestPattern::Prbs15, 30_000, d, 2000, 1000));
        },
        SpanStepKind::SystemLoopback(t) => {
            r.push(make_step(span_text("System Validation - Loopback Span ", s), InterfaceTestType::TdmoeLoopback, s, None,
                TestPattern::Prbs23, t, d, 3000, 2000));
        },
        SpanStepKind::SystemProtocol(t) => {
            r.push(make_step(span_text("System Validation - Protocol Stack Span ", s), InterfaceTestType::ProtocolStackTest, s,
                None, TestPattern::Q931Setup, t, d, 5000, 2000));
        },
        SpanStepKind::SystemStress(t) => {
            r.push(make_step(span_text("System Validation - Stress Test Span ", s), InterfaceTestType::TdmoeLoopback, s, None,
                TestPattern::Prbs31, t, SuccessCriteria { min_success_rate_centi: 9700, ..d }, 10_000, 5000));
        },
        SpanStepKind::ProductionStability(t) => {
            r.push(make_step(span_text("Production Readiness - Stability Test Span ", s), InterfaceTestType::TdmoeLoopback, s,
                None, TestPattern::Prbs23, t,
                SuccessCriteria { min_success_rate_centi: 9950, max_bit_error_rate_ppt: 1000, max_frame_error_rate_ppm: 1000, ..d },
                30_000, 10_000));
        },
        SpanStepKind::Latency => {
            let c: Vec<u8> = vec![0x55, 0xAA];
            proof {
                assert(c@ =~= seq![0x55u8, 0xAAu8]);
            }
            r.push(make_step(span_text("Troubleshoot Latency - Span ", s), InterfaceTestType::TimingSyncTest, s, None,
                TestPattern::Custom(c), 60_000, SuccessCriteria { max_average_delay_us: 200, max_jitter_us: 50, ..d }, 5000, 2000));
        },
        SpanStepKind::PacketLoss => {
            r.push(make_step(span_text("Troubleshoot Packet Loss - Span ", s), InterfaceTestType::TdmoeLoopback, s, None,
                TestPattern::Prbs15, 120_000, SuccessCriteria { min_success_rate_centi: 9999, max_frame_error_rate_ppm: 100, ..d },
                3000, 2000));
        },
        SpanStepKind::BitErrors => {
            let c = SuccessCriteria { max_bit_error_rate_ppt: 1, ..d };
            let mut n1 = span_text("Troubleshoot Bit Errors - Span ", s);
            n1.append(" Pattern AllZeros");
            r.push(make_step(n1, InterfaceTestType::TdmoeLoopback, s, None, TestPattern::AllZeros, 90_000, c, 5000, 3000));
            let mut n2 = span_text("Troubleshoot Bit Errors - Span ", s);
            n2.append(" Pattern AllOnes");
            r.push(make_step(n2, InterfaceTestType::TdmoeLoopback, s, None, TestPattern::AllOnes, 90_000, c, 5000, 3000));
            let mut n3 = span_text("Troubleshoot Bit Errors - Span ", s);
            n3.append(" Pattern Prbs31");
            r.push(make_step(n3, InterfaceTestType::TdmoeLoopback, s, None, TestPattern::Prbs31, 90_000, c, 5000, 3000));
        },
        SpanStepKind::Sync => {
            r.push(make_step(span_text("Troubleshoot Sync - Span ", s), InterfaceTestType::TimingSyncTest, s, None,
                TestPattern::LapdFrames, 180_000, SuccessCriteria { max_jitter_us: 10, ..d }, 10_000, 5000));
        },
        SpanStepKind::TimingDrift => {
            let c: Vec<u8> = vec![0x00, 0xFF];
            proof {
                assert(c@ =~= seq![0x00u8, 0xFFu8]);
            }
            r.push(make_step(span_text("Troubleshoot Timing Drift - Span ", s), InterfaceTestType::TimingSyncTest, s, None,
                TestPattern::Custom(c), 600_000, SuccessCriteria { max_jitter_us: 5, max_average_delay_us: 125, ..d }, 30_000,
                10_000));
        },
    }
    proof {
        assert(step_views(r@) =~= span_steps(k, s));
    }
    r
}

/// Whether two span numbers, taken as 32-bit signed values, are at most one apart.
fn spans_adjacent(a: u32, b: u32) -> (r: bool)
    ensures
        r == adjacent(a, b),
{
    let d: i64 = (b as i32) as i64 - (a as i32) as i64;
    -1 <= d && d <= 1
}

/// The steps for one pair of spans.
pub fn make_pair_steps(k: PairStepKind, a: u32, b: u32) -> (r: Vec<CustomTestStep>)
    ensures
        step_views(r@) == pair_steps(k, a, b),
{
    let d = SuccessCriteria::default();
    let mut r: Vec<CustomTestStep> = Vec::new();
    match k {
        PairStepKind::BasicCrossPort => {
            r.push(make_step(pair_text("Cross-Port Test - Span ", a, " to ", b), InterfaceTestType::CrossPortWiring, a, Some(b),
                TestPattern::Alternating, 45_000, SuccessCriteria { min_success_rate_centi: 9800, ..d }, 2000, 1000));
        },
        PairStepKind::SystemCrossPort(t) => {
            r.push(make_step(pair_text("System Validation - Cross-Port ", a, " to ", b), InterfaceTestType::CrossPortWiring, a,
                Some(b), TestPattern::Prbs15, t, d, 3000, 2000));
        },
        PairStepKind::SystemEndToEnd(t) => {
            r.push(make_step(pair_text("System Validation - E2E Call ", a, " to ", b), InterfaceTestType::EndToEndCall, a,
                Some(b), TestPattern::ToneGeneration(1000), t,
                SuccessCriteria { min_success_rate_centi: 9500, max_average_delay_us: 100_000, ..d }, 5000, 3000));
        },
        PairStepKind::ProductionHighVolume(t) => {
            r.push(make_step(pair_text("Production Readiness - High Volume ", a, " to ", b), InterfaceTestType::EndToEndCall, a,
                Some(b), TestPattern::ToneGeneration(800), t,
                SuccessCriteria { min_success_rate_centi: 9900, max_average_delay_us: 150_000, max_jitter_us: 20_000, ..d },
                60_000, 30_000));
        },
        PairStepKind::Crosstalk => {
            if spans_adjacent(a, b) {
                r.push(make_step(pair_text("Troubleshoot Crosstalk - Span ", a, " vs ", b), InterfaceTestType::CrossPortWiring, a,
                    Some(b), TestPattern::Alternating, 300_000, SuccessCriteria { max_bit_error_rate_ppt: 1000, ..d }, 10_000, 5000));
            }
        },
    }
    proof {
        assert(step_views(r@) =~= pair_steps(k, a, b));
    }
    r
}

fn append_steps(steps: &mut Vec<CustomTestStep>, more: Vec<CustomTestStep>)
    ensures
        step_views(final(steps)@) == step_views(old(steps)@) + step_views(more@),
{
    let mut m = more;
    steps.append(&mut m);
    proof {
        assert(step_views(steps@) =~= step_views(old(steps)@) + step_views(more@));
    }
}

/// Adds the steps for each span in turn.
pub fn push_span_steps(steps: &mut Vec<CustomTestStep>, k: SpanStepKind, spans: &Vec<u32>)
    ensures
        step_views(final(steps)@) == step_views(old(steps)@) + all_span_steps(k, spans@),
{
    let mut i: usize = 0;
    proof {
        assert(spans@.subrange(0, 0) =~= Seq::<u32>::empty());
        assert(step_views(steps@) =~= step_views(old(steps)@) + all_span_steps(k, spans@.subrange(0, 0)));
    }
    while i < spans.len()
        invariant
            i <= spans@.len(),
            step_views(steps@) == step_views(old(steps)@) + all_span_steps(k, spans@.subrange(0, i as int)),
        decreases spans@.len() - i,
    {
        let more = make_span_steps(k, spans[i]);
        append_steps(steps, more);
        proof {
            assert(spans@.subrange(0, i as int + 1).drop_last() =~= spans@.subrange(0, i as int));
            assert(step_views(steps@) =~= step_views(old(steps)@) + all_span_steps(k, spans@.subrange(0, i as int + 1)));
        }
        i = i + 1;
    }
    proof {
        assert(spans@.subrange(0, spans@.len() as int) =~= spans@);
    }
}

/// Adds the steps for every pair of spans, each span with those after it.
pub fn push_pair_steps(steps: &mut Vec<CustomTestStep>, k: PairStepKind, spans: &Vec<u32>)
    ensures
        step_views(final(steps)@) == step_views(old(steps)@) + all_pair_steps(k, spans@),
{
    let n = spans.len();
    let mut i: usize = 0;
    proof {
        assert(step_views(steps@) =~= step_views(old(steps)@) + pairs_upto(k, spans@, 0));
    }
    while i < n
        invariant
            n == spans@.len(),
            i <= n,
            step_views(steps@) == step_views(old(steps)@) + pairs_upto(k, spans@, i as int),
        decreases n - i,
    {
        let ghost before = step_views(steps@);
        let mut j: usize = i + 1;
        proof {
            assert(before =~= before + pair_row(k, spans@, i as int, j as int));
        }
        while j < n
            invariant
                n == spans@.len(),
                i < n,
                i + 1 <= j <= n,
                step_views(steps@) == before + pair_row(k, spans@, i as int, j as int),
            decreases n - j,
        {
            let more = make_pair_steps(k, spans[i], spans[j]);
            append_steps(steps, more);
            proof {
                assert(step_views(steps@) =~= before + pair_row(k, spans@, i as int, j as int + 1));
            }
            j = j + 1;
        }
        proof {
            assert(step_views(steps@) =~= step_views(old(steps)@) + pairs_upto(k, spans@, i as int + 1));
        }
        i = i + 1;
    }
}

/// A scenario as a mathematical value.
pub enum ScenarioView {
    BasicConnectivity { spans: Seq<u32> },
    SystemValidation { spans: Seq<u32>, duration_per_test: u64, include_stress_tests: bool },
    ProductionReadiness { spans: Seq<u32>, call_volume: u32, duration_hours: u8 },
    Troubleshooting { problem_spans: Seq<u32>, suspected_issue: TroubleshootingIssue },
    Custom { name: Seq<char>, test_sequence: Seq<StepSpec> },
}

impl View for TestScenario {
    type V = ScenarioView;

    open spec fn view(&self) -> ScenarioView {
        match self {
            TestScenario::BasicConnectivity { spans } => ScenarioView::BasicConnectivity { spans: spans@ },
            TestScenario::SystemValidation { spans, duration_per_test, include_stress_tests } => ScenarioView::SystemValidation {
                spans: spans@,
                duration_per_test: *duration_per_test,
                include_stress_tests: *include_stress_tests,
            },
            TestScenario::ProductionReadiness { spans, call_volume, duration_hours } => ScenarioView::ProductionReadiness {
                spans: spans@,
                call_volume: *call_volume,
                duration_hours: *duration_hours,
            },
            TestScenario::Troubleshooting { problem_spans, suspected_issue } => ScenarioView::Troubleshooting {
                problem_spans: problem_spans@,
                suspected_issue: *suspected_issue,
            },
            TestScenario::Custom { name, test_sequence } => ScenarioView::Custom {
                name: name@,
                test_sequence: step_views(test_sequence@),
            },
        }
    }
}

/// The steps of a scenario, in the order they run. Basic connectivity: a
/// loopback test of each span, then a cross-port test of each pair. System
/// validation: loopback, cross-port, protocol stack and end-to-end phases,
/// then stress tests of three times the length if asked for. Production
/// readiness: a stability test of each span sharing the hours between the
/// spans, then high-volume calls of half that length between each pair.
/// Troubleshooting: the tests that look into the suspected issue. Custom: the
/// steps given.
pub open spec fn scenario_steps(sc: ScenarioView) -> Seq<StepSpec> {
    match sc {
        ScenarioView::BasicConnectivity { spans } => all_span_steps(SpanStepKind::BasicLoopback, spans)
            + all_pair_steps(PairStepKind::BasicCrossPort, spans),
        ScenarioView::SystemValidation { spans, duration_per_test, include_stress_tests } => {
            let t = (duration_per_test * 1000) as u64;
            all_span_steps(SpanStepKind::SystemLoopback(t), spans) + all_pair_steps(PairStepKind::SystemCrossPort(t), spans)
                + all_span_steps(SpanStepKind::SystemProtocol(t), spans) + all_pair_steps(PairStepKind::SystemEndToEnd(t), spans)
                + if include_stress_tests {
                all_span_steps(SpanStepKind::SystemStress((duration_per_test * 3 * 1000) as u64), spans)
            } else {
                Seq::empty()
            }
        },
        ScenarioView::ProductionReadiness { spans, call_volume, duration_hours } => {
            let base_secs = (duration_hours * 3600) / (spans.len() as int);
            all_span_steps(SpanStepKind::ProductionStability((base_secs * 1000) as u64), spans)
                + all_pair_steps(PairStepKind::ProductionHighVolume((base_secs * 500) as u64), spans)
        },
        ScenarioView::Troubleshooting { problem_spans, suspected_issue } => match suspected_issue {
            TroubleshootingIssue::HighLatency => all_span_steps(SpanStepKind::Latency, problem_spans),
            TroubleshootingIssue::PacketLoss => all_span_steps(SpanStepKind::PacketLoss, problem_spans),
            TroubleshootingIssue::BitErrors => all_span_steps(SpanStepKind::BitErrors, problem_spans),
            TroubleshootingIssue::SyncIssues => all_span_steps(SpanStepKind::Sync, problem_spans),
            TroubleshootingIssue::CrossTalk => all_pair_steps(PairStepKind::Crosstalk, problem_spans),
            TroubleshootingIssue::TimingDrift => all_span_steps(SpanStepKind::TimingDrift, problem_spans),
        },
        ScenarioView::Custom { name, test_sequence } => test_sequence,
    }
}

/// How many steps each scenario makes from n spans: a loopback per span and a
/// cross-port test per pair for basic connectivity and production readiness;
/// for system validation a loopback and a protocol test per span, a
/// cross-port and an end-to-end test per pair, and a stress test per span
/// when asked; for troubleshooting one test per span (three when hunting bit
/// errors); a custom scenario its own steps, unchanged.
pub proof fn law_scenario_step_counts(sc: ScenarioView)
    ensures
        sc matches ScenarioView::BasicConnectivity { spans } ==> 2 * scenario_steps(sc).len() == 2 * spans.len() + spans.len()
            * (spans.len() - 1),
        sc matches ScenarioView::SystemValidation { spans, include_stress_tests, .. } ==> scenario_steps(sc).len() == 2
            * spans.len() + spans.len() * (spans.len() - 1) + if include_stress_tests { spans.len() as int } else { 0 },
        sc matches ScenarioView::ProductionReadiness { spans, .. } ==> 2 * scenario_steps(sc).len() == 2 * spans.len()
            + spans.len() * (spans.len() - 1),
        sc matches ScenarioView::Troubleshooting { problem_spans, suspected_issue } ==> (suspected_issue
            != TroubleshootingIssue::CrossTalk ==> scenario_steps(sc).len() == (if suspected_issue
            == TroubleshootingIssue::BitErrors { 3 * problem_spans.len() } else { problem_spans.len() })),
        sc matches ScenarioView::Custom { test_sequence, .. } ==> scenario_steps(sc) == test_sequence,
{
    match sc {
        ScenarioView::BasicConnectivity { spans } => {
            law_span_steps_cover_each_span(SpanStepKind::BasicLoopback, spans);
            law_pair_steps_cover_each_pair(PairStepKind::BasicCrossPort, spans);
        },
        ScenarioView::SystemValidation { spans, duration_per_test, include_stress_tests } => {
            let t = (duration_per_test * 1000) as u64;
            law_span_steps_cover_each_span(SpanStepKind::SystemLoopback(t), spans);
            law_span_steps_cover_each_span(SpanStepKind::SystemProtocol(t), spans);
            law_span_steps_cover_each_span(SpanStepKind::SystemStress((duration_per_test * 3 * 1000) as u64), spans);
            law_pair_steps_cover_each_pair(PairStepKind::SystemCrossPort(t), spans);
            law_pair_steps_cover_each_pair(PairStepKind::SystemEndToEnd(t), spans);
        },
        ScenarioView::ProductionReadiness { spans, call_volume, duration_hours } => {
            let base_secs = (duration_hours * 3600) / (spans.len() as int);
            law_span_steps_cover_each_span(SpanStepKind::ProductionStability((base_secs * 1000) as u64), spans);
            law_pair_steps_cover_each_pair(PairStepKind::ProductionHighVolume((base_secs * 500) as u64), spans);
        },
        ScenarioView::Troubleshooting { problem_spans, suspected_issue } => {
            law_span_steps_cover_each_span(SpanStepKind::Latency, problem_spans);
            law_span_steps_cover_each_span(SpanStepKind::PacketLoss, problem_spans);
            law_span_steps_cover_each_span(SpanStepKind::BitErrors, problem_spans);
            law_span_steps_cover_each_span(SpanStepKind::Sync, problem_spans);
            law_span_steps_cover_each_span(SpanStepKind::TimingDrift, problem_spans);
        },
        ScenarioView::Custom { .. } => {},
    }
}

/// What building a scenario's steps needs: step durations that fit in a
/// 64-bit count of milliseconds (three times the test duration for a stress
/// test, which only a run with stress tests makes), and spans to share a
/// production run between.
pub open spec fn scenario_buildable(sc: ScenarioView) -> bool {
    match sc {
        ScenarioView::SystemValidation { duration_per_test, include_stress_tests, .. } => if include_stress_tests {
            duration_per_test * 3000 <= u64::MAX
        } else {
            duration_per_test * 1000 <= u64::MAX
        },
        ScenarioView::ProductionReadiness { spans, .. } => spans.len() > 0,
        _ => true,
    }
}

impl CustomTestStep {
    /// A copy of the step.
    pub fn duplicate(&self) -> (r: Self)
        ensures
            r@ == self@,
    {
        CustomTestStep {
            name: self.name.clone(),
            test_type: self.test_type,
            source_span: self.source_span,
            dest_span: self.dest_span,
            pattern: self.pattern.duplicate(),
            duration_ms: self.duration_ms,
            success_criteria: self.success_criteria,
            wait_before_ms: self.wait_before_ms,
            wait_after_ms: self.wait_after_ms,
        }
    }
}

/// Builds the steps of a scenario.
pub fn build_test_steps(scenario: &TestScenario) -> (r: GatewayResult<Vec<CustomTestStep>>)
    requires
        scenario_buildable(scenario@),
    ensures
        r matches Ok(v) && step_views(v@) == scenario_steps(scenario@),
{
    let mut steps: Vec<CustomTestStep> = Vec::new();
    match scenario {
        TestScenario::BasicConnectivity { spans } => {
            push_span_steps(&mut steps, SpanStepKind::BasicLoopback, spans);
            push_pair_steps(&mut steps, PairStepKind::BasicCrossPort, spans);
        },
        TestScenario::SystemValidation { spans, duration_per_test, include_stress_tests } => {
            let t = *duration_per_test * 1000;
            push_span_steps(&mut steps, SpanStepKind::SystemLoopback(t), spans);
            push_pair_steps(&mut steps, PairStepKind::SystemCrossPort(t), spans);
            push_span_steps(&mut steps, SpanStepKind::SystemProtocol(t), spans);
            push_pair_steps(&mut steps, PairStepKind::SystemEndToEnd(t), spans);
            if *include_stress_tests {
                push_span_steps(&mut steps, SpanStepKind::SystemStress(*duration_per_test * 3 * 1000), spans);
            }
        },
        TestScenario::ProductionReadiness { spans, call_volume: _, duration_hours } => {
            let total: u64 = (*duration_hours as u64) * 3600;
            let n: u64 = spans.len() as u64;
            let base_secs: u64 = total / n;
            assert(base_secs <= total) by (nonlinear_arith)
                requires
                    base_secs == total / n,
                    n > 0,
            ;
            push_span_steps(&mut steps, SpanStepKind::ProductionStability(base_secs * 1000), spans);
            push_pair_steps(&mut steps, PairStepKind::ProductionHighVolume(base_secs * 500), spans);
        },
        TestScenario::Troubleshooting { problem_spans, suspected_issue } => {
            match suspected_issue {
                TroubleshootingIssue::HighLatency => push_span_steps(&mut steps, SpanStepKind::Latency, problem_spans),
                TroubleshootingIssue::PacketLoss => push_span_steps(&mut steps, SpanStepKind::PacketLoss, problem_spans),
                TroubleshootingIssue::BitErrors => push_span_steps(&mut steps, SpanStepKind::BitErrors, problem_spans),
                TroubleshootingIssue::SyncIssues => push_span_steps(&mut steps, SpanStepKind::Sync, problem_spans),
                TroubleshootingIssue::CrossTalk => push_pair_steps(&mut steps, PairStepKind::Crosstalk, problem_spans),
                TroubleshootingIssue::TimingDrift => push_span_steps(&mut steps, SpanStepKind::TimingDrift, problem_spans),
            }
        },
        TestScenario::Custom { name: _, test_sequence } => {
            let mut i: usize = 0;
            while i < test_sequence.len()
                invariant
                    i <= test_sequence@.len(),
                    step_views(steps@) == step_views(test_sequence@.subrange(0, i as int)),
                decreases test_sequence@.len() - i,
            {
                let d = test_sequence[i].duplicate();
                let ghost prev = steps@;
                steps.push(d);
                proof {
                    assert(step_views(steps@) =~= step_views(prev).push(d@));
                    assert(step_views(test_sequence@.subrange(0, i as int + 1)) =~= step_views(
                        test_sequence@.subrange(0, i as int),
                    ).push(test_sequence@[i as int]@));
                }
                i = i + 1;
            }
            proof {
                assert(test_sequence@.subrange(0, test_sequence@.len() as int) =~= test_sequence@);
            }
        },
    }
    proof {
        assert(step_views(steps@) =~= scenario_steps(scenario@));
    }
    Ok(steps)
}

/// Whether a finished test's share of arrived frames reaches a rate in
/// hundredths of a percent (no frame sent counts as none arrived).
pub open spec fn rate_reached(st: InterfaceTestStats, min_centi: nat) -> bool {
    if st.frames_sent > 0 {
        st.frames_received * 10_000 >= min_centi * st.frames_sent
    } else {
        min_centi == 0
    }
}

/// Whether a finished test meets its criteria: it passed, and each measure is
/// within its bound.
pub open spec fn meets_criteria(r: InterfaceTestResult, c: SuccessCriteria) -> bool {
    &&& r.success
    &&& rate_reached(r.stats, c.min_success_rate_centi as nat)
    &&& !r.stats.bit_error_rate.exceeds(c.max_bit_error_rate_ppt as nat, 1_000_000_000_000)
    &&& !r.stats.frame_error_rate.exceeds(c.max_frame_error_rate_ppm as nat, 1_000_000)
    &&& r.stats.avg_delay_us <= c.max_average_delay_us
    &&& r.stats.jitter_us <= c.max_jitter_us
}

/// Judging and diagnosing agree: a test that ran to success meets its
/// criteria exactly when the diagnosis finds nothing missed, and a test that
/// did not succeed never meets them.
pub proof fn law_criteria_met_iff_nothing_missed(r: InterfaceTestResult, c: SuccessCriteria)
    ensures
        r.success ==> (meets_criteria(r, c) <==> missed_criteria(r.stats, c).len() == 0),
        !r.success ==> !meets_criteria(r, c),
{
}

fn ratio_exceeds(r: Ratio, a: u64, b: u64) -> (x: bool)
    requires
        b <= 1_000_000_000_000,
    ensures
        x == r.exceeds(a as nat, b as nat),
{
    if r.den == 0 {
        return false;
    }
    let n: u128 = r.num as u128;
    let bb: u128 = b as u128;
    let aa: u128 = a as u128;
    let d: u128 = r.den as u128;
    assert(n * bb <= 0xffff_ffff_ffff_ffffu128 * 1_000_000_000_000) by (nonlinear_arith)
        requires
            bb <= 1_000_000_000_000,
            n <= 0xffff_ffff_ffff_ffffu128,
    ;
    assert(aa * d <= 0xffff_ffff_ffff_ffffu128 * 0xffff_ffff_ffff_ffffu128) by (nonlinear_arith)
        requires
            aa <= 0xffff_ffff_ffff_ffffu128,
            d <= 0xffff_ffff_ffff_ffffu128,
    ;
    n * bb > aa * d
}

fn rate_reached_exec(st: &InterfaceTestStats, min_centi: u32) -> (x: bool)
    ensures
        x == rate_reached(*st, min_centi as nat),
{
    if st.frames_sent > 0 {
        let m: u128 = min_centi as u128;
        let sent: u128 = st.frames_sent as u128;
        assert(m * sent <= 0xffff_ffffu128 * 0xffff_ffff_ffff_ffffu128) by (nonlinear_arith)
            requires
                m <= 0xffff_ffffu128,
                sent <= 0xffff_ffff_ffff_ffffu128,
        ;
        (st.frames_received as u128) * 10_000 >= m * sent
    } else {
        min_centi == 0
    }
}

/// Whether a finished test meets its criteria.
pub fn evaluate_test_success(result: &InterfaceTestResult, criteria: &SuccessCriteria) -> (r: bool)
    ensures
        r == meets_criteria(*result, *criteria),
{
    if !result.success {
        return false;
    }
    rate_reached_exec(&result.stats, criteria.min_success_rate_centi)
        && !ratio_exceeds(result.stats.bit_error_rate, criteria.max_bit_error_rate_ppt, 1_000_000_000_000)
        && !ratio_exceeds(result.stats.frame_error_rate, criteria.max_frame_error_rate_ppm, 1_000_000)
        && result.stats.avg_delay_us <= criteria.max_average_delay_us
        && result.stats.jitter_us <= criteria.max_jitter_us
}

/// A way in which a test missed its criteria, with the measured value and the bound.
#[derive(Clone, Copy, Debug, PartialEq, Eq, Structural)]
pub enum FailureIssue {
    /// Arrived frames over sent frames, against the rate required (hundredths of a percent).
    LowSuccessRate { received: u64, sent: u64, required_centi: u32 },
    /// The bit error rate, against the most allowed (parts per trillion).
    HighBitErrorRate { rate: Ratio, max_ppt: u64 },
    /// The frame error rate, against the most allowed (parts per million).
    HighFrameErrorRate { rate: Ratio, max_ppm: u64 },
    /// The average delay, against the most allowed (microseconds).
    HighAverageDelay { delay_us: u64, max_us: u64 },
    /// The jitter, against the most allowed (microseconds).
    HighJitter { jitter_us: u64, max_us: u64 },
}

/// The ways a test missed its criteria, each with its recommendation, in order:
/// success rate, bit error rate, frame error rate, average delay, jitter.
pub open spec fn missed_criteria(st: InterfaceTestStats, c: SuccessCriteria) -> Seq<(FailureIssue, Seq<char>)> {
    (if !rate_reached(st, c.min_success_rate_centi as nat) {
        seq![(FailureIssue::LowSuccessRate { received: st.frames_received, sent: st.frames_sent, required_centi: c.min_success_rate_centi },
            "Check physical connections and cable integrity"@)]
    } else {
        Seq::empty()
    }) + (if st.bit_error_rate.exceeds(c.max_bit_error_rate_ppt as nat, 1_000_000_000_000) {
        seq![(FailureIssue::HighBitErrorRate { rate: st.bit_error_rate, max_ppt: c.max_bit_error_rate_ppt },
            "Verify signal levels and reduce electromagnetic interference"@)]
    } else {
        Seq::empty()
    }) + (if st.frame_error_rate.exceeds(c.max_frame_error_rate_ppm as nat, 1_000_000) {
        seq![(FailureIssue::HighFrameErrorRate { rate: st.frame_error_rate, max_ppm: c.max_frame_error_rate_ppm },
            "Check framing configuration and synchronization"@)]
    } else {
        Seq::empty()
    }) + (if st.avg_delay_us > c.max_average_delay_us {
        seq![(FailureIssue::HighAverageDelay { delay_us: st.avg_delay_us, max_us: c.max_average_delay_us },
            "Optimize processing pipeline and reduce buffering delays"@)]
    } else {
        Seq::empty()
    }) + (if st.jitter_us > c.max_jitter_us {
        seq![(FailureIssue::HighJitter { jitter_us: st.jitter_us, max_us: c.max_jitter_us },
            "Improve timing synchronization and reduce network variability"@)]
    } else {
        Seq::empty()
    })
}

fn add_finding(
    issues: &mut Vec<FailureIssue>,
    recs: &mut Vec<String>,
    issue: FailureIssue,
    rec: &str,
    Ghost(done): Ghost<Seq<(FailureIssue, Seq<char>)>>,
)
    requires
        old(issues)@ == done.map_values(|f: (FailureIssue, Seq<char>)| f.0),
        texts(old(recs)@) == done.map_values(|f: (FailureIssue, Seq<char>)| f.1),
    ensures
        final(issues)@ == done.push((issue, rec@)).map_values(|f: (FailureIssue, Seq<char>)| f.0),
        texts(final(recs)@) == done.push((issue, rec@)).map_values(|f: (FailureIssue, Seq<char>)| f.1),
{
    issues.push(issue);
    push_text(recs, rec);
    proof {
        assert(issues@ =~= done.push((issue, rec@)).map_values(|f: (FailureIssue, Seq<char>)| f.0));
        assert(texts(recs@) =~= done.push((issue, rec@)).map_values(|f: (FailureIssue, Seq<char>)| f.1));
    }
}

/// The ways a test missed its criteria and a recommendation for each.
pub fn analyze_test_failure(result: &InterfaceTestResult, criteria: &SuccessCriteria) -> (r: (Vec<FailureIssue>, Vec<String>))
    ensures
        r.0@ == missed_criteria(result.stats, *criteria).map_values(|f: (FailureIssue, Seq<char>)| f.0),
        texts(r.1@) == missed_criteria(result.stats, *criteria).map_values(|f: (FailureIssue, Seq<char>)| f.1),
{
    let st = &result.stats;
    let c = criteria;
    let mut issues: Vec<FailureIssue> = Vec::new();
    let mut recs: Vec<String> = Vec::new();
    let ghost mut done: Seq<(FailureIssue, Seq<char>)> = Seq::empty();
    proof {
        assert(issues@ =~= done.map_values(|f: (FailureIssue, Seq<char>)| f.0));
        assert(texts(recs@) =~= done.map_values(|f: (FailureIssue, Seq<char>)| f.1));
    }
    if !rate_reached_exec(st, c.min_success_rate_centi) {
        let i = FailureIssue::LowSuccessRate { received: st.frames_received, sent: st.frames_sent, required_centi: c.min_success_rate_centi };
        add_finding(&mut issues, &mut recs, i, "Check physical connections and cable integrity", Ghost(done));
        proof { done = done.push((i, "Check physical connections and cable integrity"@)); }
    }
    if ratio_exceeds(st.bit_error_rate, c.max_bit_error_rate_ppt, 1_000_000_000_000) {
        let i = FailureIssue::HighBitErrorRate { rate: st.bit_error_rate, max_ppt: c.max_bit_error_rate_ppt };
        add_finding(&mut issues, &mut recs, i, "Verify signal levels and reduce electromagnetic interference", Ghost(done));
        proof { done = done.push((i, "Verify signal levels and reduce electromagnetic interference"@)); }
    }
    if ratio_exceeds(st.frame_error_rate, c.max_frame_error_rate_ppm, 1_000_000) {
        let i = FailureIssue::HighFrameErrorRate { rate: st.frame_error_rate, max_ppm: c.max_frame_error_rate_ppm };
        add_finding(&mut issues, &mut recs, i, "Check framing configuration and synchronization", Ghost(done));
        proof { done = done.push((i, "Check framing configuration and synchronization"@)); }
    }
    if st.avg_delay_us > c.max_average_delay_us {
        let i = FailureIssue::HighAverageDelay { delay_us: st.avg_delay_us, max_us: c.max_average_delay_us };
        add_finding(&mut issues, &mut recs, i, "Optimize processing pipeline and reduce buffering delays", Ghost(done));
        proof { done = done.push((i, "Optimize processing pipeline and reduce buffering delays"@)); }
    }
    if st.jitter_us > c.max_jitter_us {
        let i = FailureIssue::HighJitter { jitter_us: st.jitter_us, max_us: c.max_jitter_us };
        add_finding(&mut issues, &mut recs, i, "Improve timing synchronization and reduce network variability", Ghost(done));
        proof { done = done.push((i, "Improve timing synchronization and reduce network variability"@)); }
    }
    proof {
        assert(done =~= missed_criteria(result.stats, *criteria));
    }
    (issues, recs)
}

/// The interface test a step asks for.
pub enum TestRequest {
    Loopback { span: u32, pattern: TestPattern, duration_ms: u64 },
    CrossPort { source_span: u32, dest_span: u32, pattern: TestPattern, duration_ms: u64 },
    EndToEnd { calling_span: u32, called_span: u32, duration_ms: u64 },
}

/// Whether `r` is the interface test that `step` asks for: a cross-port or
/// end-to-end step needs a destination span (without one it is refused);
/// loopback steps, and the kinds without a test of their own, run a loopback
/// test of the source span.
pub open spec fn requested(step: CustomTestStep, r: GatewayResult<TestRequest>) -> bool {
    match step.test_type {
        InterfaceTestType::CrossPortWiring => match step.dest_span {
            Some(d) => r matches Ok(TestRequest::CrossPort { source_span, dest_span, pattern, duration_ms })
                && source_span == step.source_span && dest_span == d && pattern@ == step.pattern@
                && duration_ms == step.duration_ms,
            None => r matches Err(e) && e.kind() == 2 && e.message() == "Cross-port test requires destination span"@,
        },
        InterfaceTestType::EndToEndCall => match step.dest_span {
            Some(d) => r matches Ok(TestRequest::EndToEnd { calling_span, called_span, duration_ms })
                && calling_span == step.source_span && called_span == d && duration_ms == step.duration_ms,
            None => r matches Err(e) && e.kind() == 2 && e.message() == "End-to-end test requires destination span"@,
        },
        _ => r matches Ok(TestRequest::Loopback { span, pattern, duration_ms }) && span == step.source_span
            && pattern@ == step.pattern@ && duration_ms == step.duration_ms,
    }
}

/// Chooses the interface test for a step: a cross-port or end-to-end step
/// needs a destination span; loopback steps, and the kinds without a test of
/// their own, run a loopback test of the source span.
pub fn step_request(step: &CustomTestStep) -> (r: GatewayResult<TestRequest>)
    ensures
        requested(*step, r),
{
    match step.test_type {
        InterfaceTestType::CrossPortWiring => match step.dest_span {
            Some(d) => Ok(TestRequest::CrossPort {
                source_span: step.source_span,
                dest_span: d,
                pattern: step.pattern.duplicate(),
                duration_ms: step.duration_ms,
            }),
            None => Err(GatewayError::InvalidState(String::from_str("Cross-port test requires destination span"))),
        },
        InterfaceTestType::EndToEndCall => match step.dest_span {
            Some(d) => Ok(TestRequest::EndToEnd { calling_span: step.source_span, called_span: d, duration_ms: step.duration_ms }),
            None => Err(GatewayError::InvalidState(String::from_str("End-to-end test requires destination span"))),
        },
        _ => Ok(TestRequest::Loopback { span: step.source_span, pattern: step.pattern.duplicate(), duration_ms: step.duration_ms }),
    }
}

/// A critical issue of a session.
pub enum SessionIssue {
    /// A test missed a criterion.
    Missed(FailureIssue),
    /// A step's test could not be started.
    StartFailed { step_name: String, error: String },
}

/// Whether `n` is the tally `o` with a finished step counted: its test id
/// noted, and the step passed when its test meets the criteria; otherwise it
/// failed, and each criterion it missed joins the critical issues and its
/// recommendation the recommendations, in order.
pub open spec fn result_recorded(o: SessionTally, n: SessionTally, test_id: u128, result: InterfaceTestResult, criteria: SuccessCriteria) -> bool {
    let missed = missed_criteria(result.stats, criteria);
    &&& n.test_results@ == o.test_results@.push(test_id)
    &&& meets_criteria(result, criteria) ==> {
        &&& n.passed_tests == o.passed_tests + 1
        &&& n.failed_tests == o.failed_tests
        &&& n.critical_issues@ == o.critical_issues@
        &&& n.recommendations@ == o.recommendations@
    }
    &&& !meets_criteria(result, criteria) ==> {
        &&& n.failed_tests == o.failed_tests + 1
        &&& n.passed_tests == o.passed_tests
        &&& n.critical_issues@.len() == o.critical_issues@.len() + missed.len()
        &&& texts(n.recommendations@) == texts(o.recommendations@) + missed.map_values(|f: (FailureIssue, Seq<char>)| f.1)
        &&& forall|i: int| 0 <= i < missed.len() ==> #[trigger] n.critical_issues@[o.critical_issues@.len() + i]
            == SessionIssue::Missed(missed[i].0)
        &&& forall|i: int| 0 <= i < o.critical_issues@.len() ==> #[trigger] n.critical_issues@[i] == o.critical_issues@[i]
    }
}

/// Whether `n` is the tally `o` with a step that could not start counted as
/// failed, with one more critical issue naming the step and the error.
pub open spec fn start_failure_recorded(o: SessionTally, n: SessionTally, step_name: Seq<char>, error: GatewayError) -> bool {
    &&& n.failed_tests == o.failed_tests + 1
    &&& n.passed_tests == o.passed_tests
    &&& n.test_results@ == o.test_results@
    &&& n.recommendations@ == o.recommendations@
    &&& n.critical_issues@.len() == o.critical_issues@.len() + 1
    &&& forall|i: int| 0 <= i < o.critical_issues@.len() ==> #[trigger] n.critical_issues@[i] == o.critical_issues@[i]
    &&& n.critical_issues@.last() matches SessionIssue::StartFailed { step_name: sn, error: e }
        && sn@ == step_name && e@ == error.message()
}

/// The running count of a session's outcomes.
pub struct SessionTally {
    pub passed_tests: u64,
    pub failed_tests: u64,
    pub test_results: Vec<u128>,
    pub critical_issues: Vec<SessionIssue>,
    pub recommendations: Vec<String>,
}

impl SessionTally {
    /// Nothing counted yet.
    pub fn new() -> (r: Self)
        ensures
            r.passed_tests == 0,
            r.failed_tests == 0,
            r.test_results@.len() == 0,
            r.critical_issues@.len() == 0,
            r.recommendations@.len() == 0,
    {
        SessionTally {
            passed_tests: 0,
            failed_tests: 0,
            test_results: Vec::new(),
            critical_issues: Vec::new(),
            recommendations: Vec::new(),
        }
    }

    /// Counts a finished step: it passes when its test meets the criteria;
    /// when it does not, what it missed joins the critical issues and the
    /// recommendations. Returns whether it passed.
    pub fn record_result(&mut self, test_id: u128, result: &InterfaceTestResult, criteria: &SuccessCriteria) -> (passed: bool)
        requires
            old(self).passed_tests + old(self).failed_tests < u64::MAX,
        ensures
            passed == meets_criteria(*result, *criteria),
            result_recorded(*old(self), *final(self), test_id, *result, *criteria),
    {
        self.test_results.push(test_id);
        let passed = evaluate_test_success(result, criteria);
        if passed {
            self.passed_tests = self.passed_tests + 1;
        } else {
            self.failed_tests = self.failed_tests + 1;
            let (issues, mut recs) = analyze_test_failure(result, criteria);
            let mut extra: Vec<SessionIssue> = Vec::new();
            let mut i: usize = 0;
            while i < issues.len()
                invariant
                    i <= issues@.len(),
                    extra@.len() == i,
                    forall|j: int| 0 <= j < i ==> #[trigger] extra@[j] == SessionIssue::Missed(issues@[j]),
                decreases issues@.len() - i,
            {
                extra.push(SessionIssue::Missed(issues[i]));
                i = i + 1;
            }
            let ghost start = self.critical_issues@;
            let ghost ex = extra@;
            self.critical_issues.append(&mut extra);
            proof {
                assert forall|j: int| 0 <= j < missed_criteria(result.stats, *criteria).len() implies
                    #[trigger] self.critical_issues@[start.len() + j] == SessionIssue::Missed(missed_criteria(result.stats, *criteria)[j].0) by {
                    assert(self.critical_issues@[start.len() + j] == ex[j]);
                }
            }
            let ghost before = self.recommendations@;
            let ghost added = recs@;
            self.recommendations.append(&mut recs);
            proof {
                assert(texts(self.recommendations@) =~= texts(before) + texts(added));
            }
        }
        passed
    }

    /// Counts a step whose test could not be started, as failed, with a
    /// critical issue naming the step and the error.
    pub fn record_start_failure(&mut self, step_name: &str, error: &GatewayError)
        requires
            old(self).failed_tests < u64::MAX,
        ensures
            start_failure_recorded(*old(self), *final(self), step_name@, *error),
    {
        self.failed_tests = self.failed_tests + 1;
        self.critical_issues.push(SessionIssue::StartFailed { step_name: String::from_str(step_name), error: error.describe() });
    }
}

/// A session's state.
#[derive(Clone, Copy, Debug, PartialEq, Eq, Structural)]
pub enum SessionStatus {
    Pending,
    Running,
    Paused,
    Completed,
    Failed,
    Cancelled,
}

/// A test automation session that is under way.
pub struct TestSession {
    pub session_id: u128,
    pub scenario: TestScenario,
    pub start_ms: i64,
    pub status: SessionStatus,
    pub current_step: u64,
    pub total_steps: u64,
    pub test_results: Vec<u128>,
    pub errors: Vec<String>,
    pub warnings: Vec<String>,
}

impl NumKeyed for TestSession {
    open spec fn key(&self) -> u128 {
        self.session_id
    }

    fn key_num(&self) -> (r: u128) {
        self.session_id
    }
}

/// The summary of a finished session.
pub struct SessionSummary {
    pub session_id: u128,
    pub scenario_name: String,
    pub start_ms: i64,
    pub end_ms: i64,
    pub duration_ms: u64,
    pub total_tests: u64,
    pub passed_tests: u64,
    pub failed_tests: u64,
    pub overall_success: bool,
    pub recommendations: Vec<String>,
    pub critical_issues: Vec<SessionIssue>,
}

impl NumKeyed for SessionSummary {
    open spec fn key(&self) -> u128 {
        self.session_id
    }

    fn key_num(&self) -> (r: u128) {
        self.session_id
    }
}

/// The closing recommendation of a session, by how many of its tests failed.
pub open spec fn overall_recommendation(passed: u64, failed: u64) -> Seq<char> {
    if failed == 0 {
        "All tests passed successfully - system is ready for operation"@
    } else if failed < passed {
        "Some tests failed - investigate specific issues before production deployment"@
    } else {
        "Majority of tests failed - system requires significant troubleshooting"@
    }
}

/// Sums up a session: its counts (every step counted passed or failed),
/// success when no test failed, the recommendations gathered followed by the
/// closing one, and a nominal span of ten minutes ending now.
pub fn finish_session(tally: SessionTally, session_id: u128, now_ms: i64) -> (r: SessionSummary)
    requires
        tally.passed_tests + tally.failed_tests <= u64::MAX,
    ensures
        r.session_id == session_id,
        r.scenario_name@ == "Automated Test Session"@,
        r.end_ms == now_ms,
        r.start_ms == if now_ms >= i64::MIN + 600_000 { now_ms - 600_000 } else { i64::MIN as int },
        r.duration_ms == 600_000,
        r.total_tests == r.passed_tests + r.failed_tests,
        r.passed_tests == tally.passed_tests,
        r.failed_tests == tally.failed_tests,
        r.overall_success == (tally.failed_tests == 0),
        texts(r.recommendations@) == texts(tally.recommendations@).push(overall_recommendation(tally.passed_tests, tally.failed_tests)),
        r.critical_issues@ == tally.critical_issues@,
{
    let mut recs = tally.recommendations;
    if tally.failed_tests == 0 {
        push_text(&mut recs, "All tests passed successfully - system is ready for operation");
    } else if tally.failed_tests < tally.passed_tests {
        push_text(&mut recs, "Some tests failed - investigate specific issues before production deployment");
    } else {
        push_text(&mut recs, "Majority of tests failed - system requires significant troubleshooting");
    }
    SessionSummary {
        session_id,
        scenario_name: String::from_str("Automated Test Session"),
        start_ms: if now_ms >= i64::MIN + 600_000 { now_ms - 600_000 } else { i64::MIN },
        end_ms: now_ms,
        duration_ms: 600_000,
        total_tests: tally.passed_tests + tally.failed_tests,
        passed_tests: tally.passed_tests,
        failed_tests: tally.failed_tests,
        overall_success: tally.failed_tests == 0,
        recommendations: recs,
        critical_issues: tally.critical_issues,
    }
}

/// What became of a session step's test: it ran and gave a result, or it
/// could not be started.
pub enum StepOutcome {
    Completed { test_id: u128, result: InterfaceTestResult },
    StartFailed(GatewayError),
}

/// A session being run, step by step: its steps, the next one, and the
/// outcomes counted so far.
pub struct SessionRun {
    pub session_id: u128,
    pub steps: Vec<CustomTestStep>,
    pub next_step: usize,
    pub tally: SessionTally,
}

impl SessionRun {
    /// Every step before the next one is counted, passed or failed, once.
    pub open spec fn wf(&self) -> bool {
        &&& self.next_step <= self.steps@.len()
        &&& self.tally.passed_tests + self.tally.failed_tests == self.next_step
    }

    /// A run of the steps with nothing counted.
    pub fn new(session_id: u128, steps: Vec<CustomTestStep>) -> (r: Self)
        ensures
            r.wf(),
            r.session_id == session_id,
            r.steps@ == steps@,
            r.next_step == 0,
            r.tally.passed_tests == 0 && r.tally.failed_tests == 0,
            r.tally.critical_issues@.len() == 0 && r.tally.recommendations@.len() == 0,
    {
        SessionRun { session_id, steps, next_step: 0, tally: SessionTally::new() }
    }

    /// The test the next step asks for; `None` once every step is counted. A
    /// two-span step without a destination is refused, which ends the run
    /// with that error.
    pub fn next_request(&self) -> (r: Option<GatewayResult<TestRequest>>)
        requires
            self.wf(),
        ensures
            r is None <==> self.next_step == self.steps@.len(),
            r matches Some(q) ==> requested(self.steps@[self.next_step as int], q),
    {
        if self.next_step == self.steps.len() {
            None
        } else {
            Some(step_request(&self.steps[self.next_step]))
        }
    }

    /// Counts the next step by its outcome: a result is judged against the
    /// step's criteria; a test that could not start counts as failed.
    pub fn record_outcome(&mut self, outcome: StepOutcome)
        requires
            old(self).wf(),
            old(self).next_step < old(self).steps@.len(),
        ensures
            final(self).wf(),
            final(self).session_id == old(self).session_id,
            final(self).steps@ == old(self).steps@,
            final(self).next_step == old(self).next_step + 1,
            match outcome {
                StepOutcome::Completed { test_id, result } => result_recorded(
                    old(self).tally,
                    final(self).tally,
                    test_id,
                    result,
                    old(self).steps@[old(self).next_step as int].success_criteria,
                ),
                StepOutcome::StartFailed(e) => start_failure_recorded(
                    old(self).tally,
                    final(self).tally,
                    old(self).steps@[old(self).next_step as int].name@,
                    e,
                ),
            },
    {
        let i = self.next_step;
        let n = self.steps.len();
        assert(i < n);
        assert(n as int <= u64::MAX);
        match outcome {
            StepOutcome::Completed { test_id, result } => {
                self.tally.record_result(test_id, &result, &self.steps[i].success_criteria);
            },
            StepOutcome::StartFailed(e) => {
                self.tally.record_start_failure(self.steps[i].name.as_str(), &e);
            },
        }
        self.next_step = i + 1;
    }

    /// Sums up a run whose steps are all counted: as many tests as steps,
    /// each passed or failed.
    pub fn finish(self, now_ms: i64) -> (r: SessionSummary)
        requires
            self.wf(),
            self.next_step == self.steps@.len(),
        ensures
            r.session_id == self.session_id,
            r.total_tests == self.steps@.len(),
            r.total_tests == r.passed_tests + r.failed_tests,
            r.passed_tests == self.tally.passed_tests,
            r.failed_tests == self.tally.failed_tests,
            r.overall_success == (r.failed_tests == 0),
            r.end_ms == now_ms,
            texts(r.recommendations@) == texts(self.tally.recommendations@).push(
                overall_recommendation(self.tally.passed_tests, self.tally.failed_tests),
            ),
            r.critical_issues@ == self.tally.critical_issues@,
    {
        finish_session(self.tally, self.session_id, now_ms)
    }
}

/// The test automation service: sessions under way and finished sessions by id.
pub struct TestAutomationService {
    pub active_sessions: NumKeyedList<TestSession>,
    pub completed_sessions: NumKeyedList<SessionSummary>,
}

impl TestAutomationService {
    /// Ids are distinct.
    pub open spec fn wf(&self) -> bool {
        &&& self.active_sessions.wf()
        &&& self.completed_sessions.wf()
    }

    /// A service with no sessions.
    pub fn new() -> (r: Self)
        ensures
            r.wf(),
            r.active_sessions.view() == Map::<u128, TestSession>::empty(),
            r.completed_sessions.view() == Map::<u128, SessionSummary>::empty(),
    {
        TestAutomationService { active_sessions: NumKeyedList::new(), completed_sessions: NumKeyedList::new() }
    }

    /// Starts a session for a scenario under a fresh id, pending, with the
    /// scenario's steps counted; the runner then runs the steps.
    pub fn start_session(&mut self, scenario: TestScenario, now_ms: i64) -> (r: GatewayResult<u128>)
        requires
            old(self).wf(),
            scenario_buildable(scenario@),
        ensures
            final(self).wf(),
            final(self).completed_sessions == old(self).completed_sessions,
            r matches Ok(id) && {
                &&& final(self).active_sessions.view() == old(self).active_sessions.view().insert(id, final(self).active_sessions.view()[id])
                &&& final(self).active_sessions.view()[id].scenario@ == scenario@
                &&& final(self).active_sessions.view()[id].status == SessionStatus::Pending
                &&& final(self).active_sessions.view()[id].start_ms == now_ms
                &&& final(self).active_sessions.view()[id].current_step == 0
                &&& final(self).active_sessions.view()[id].total_steps == scenario_steps(scenario@).len()
                &&& final(self).active_sessions.view()[id].test_results@.len() == 0
            },
    {
        let steps = match build_test_steps(&scenario) {
            Ok(v) => v,
            Err(e) => { return Err(e); },
        };
        let id = new_test_id();
        let session = TestSession {
            session_id: id,
            scenario,
            start_ms: now_ms,
            status: SessionStatus::Pending,
            current_step: 0,
            total_steps: steps.len() as u64,
            test_results: Vec::new(),
            errors: Vec::new(),
            warnings: Vec::new(),
        };
        let ghost sv = session;
        self.active_sessions.insert(session);
        proof {
            assert(self.active_sessions.view() =~= old(self).active_sessions.view().insert(id, sv));
        }
        Ok(id)
    }

    /// Marks a session as running, if it is under way.
    pub fn mark_running(&mut self, session_id: u128)
        requires
            old(self).wf(),
        ensures
            final(self).wf(),
            final(self).completed_sessions == old(self).completed_sessions,
            final(self).active_sessions.view().dom() == old(self).active_sessions.view().dom(),
            old(self).active_sessions.view().dom().contains(session_id) ==> final(self).active_sessions.view()[session_id].status == SessionStatus::Running,
            forall|k: u128| k != session_id && #[trigger] old(self).active_sessions.view().dom().contains(k)
                ==> final(self).active_sessions.view()[k] == old(self).active_sessions.view()[k],
    {
        match self.active_sessions.remove(session_id) {
            Some(mut sess) => {
                sess.status = SessionStatus::Running;
                let ghost sv = sess;
                self.active_sessions.insert(sess);
                proof {
                    assert(self.active_sessions.view() =~= old(self).active_sessions.view().insert(session_id, sv));
                }
            },
            None => {
                proof {
                    assert(self.active_sessions.view() =~= old(self).active_sessions.view());
                }
            },
        }
    }

    /// Notes that step `step_index` of a session ran as test `test_id`.
    pub fn record_step(&mut self, session_id: u128, step_index: u64, test_id: u128)
        requires
            old(self).wf(),
            step_index < u64::MAX,
        ensures
            final(self).wf(),
            final(self).completed_sessions == old(self).completed_sessions,
            final(self).active_sessions.view().dom() == old(self).active_sessions.view().dom(),
            old(self).active_sessions.view().dom().contains(session_id) ==> {
                &&& final(self).active_sessions.view()[session_id].current_step == step_index + 1
                &&& final(self).active_sessions.view()[session_id].test_results@
                    == old(self).active_sessions.view()[session_id].test_results@.push(test_id)
            },
            forall|k: u128| k != session_id && #[trigger] old(self).active_sessions.view().dom().contains(k)
                ==> final(self).active_sessions.view()[k] == old(self).active_sessions.view()[k],
    {
        match self.active_sessions.remove(session_id) {
            Some(mut sess) => {
                sess.current_step = step_index + 1;
                sess.test_results.push(test_id);
                let ghost sv = sess;
                self.active_sessions.insert(sess);
                proof {
                    assert(self.active_sessions.view() =~= old(self).active_sessions.view().insert(session_id, sv));
                }
            },
            None => {
                proof {
                    assert(self.active_sessions.view() =~= old(self).active_sessions.view());
                }
            },
        }
    }

    /// Files a session's summary and ends the session.
    pub fn complete_session(&mut self, summary: SessionSummary)
        requires
            old(self).wf(),
        ensures
            final(self).wf(),
            final(self).active_sessions.view() == old(self).active_sessions.view().remove(summary.session_id),
            final(self).completed_sessions.view() == old(self).completed_sessions.view().insert(summary.session_id, summary),
    {
        let id = summary.session_id;
        self.completed_sessions.insert(summary);
        self.active_sessions.remove(id);
    }

    /// Ends a session that failed, keeping no summary.
    pub fn drop_session(&mut self, session_id: u128)
        requires
            old(self).wf(),
        ensures
            final(self).wf(),
            final(self).active_sessions.view() == old(self).active_sessions.view().remove(session_id),
            final(self).completed_sessions == old(self).completed_sessions,
    {
        self.active_sessions.remove(session_id);
    }

    /// Cancels a session under way and returns the ids of its tests, for the
    /// caller to stop; refused when no such session is under way.
    pub fn cancel_session(&mut self, session_id: u128) -> (r: GatewayResult<Vec<u128>>)
        requires
            old(self).wf(),
        ensures
            final(self).wf(),
            final(self).completed_sessions == old(self).completed_sessions,
            r is Ok <==> old(self).active_sessions.view().dom().contains(session_id),
            r matches Ok(tests) ==> {
                &&& tests@ == old(self).active_sessions.view()[session_id].test_results@
                &&& final(self).active_sessions.view().dom() == old(self).active_sessions.view().dom()
                &&& final(self).active_sessions.view()[session_id].status == SessionStatus::Cancelled
                &&& forall|k: u128| k != session_id && #[trigger] old(self).active_sessions.view().dom().contains(k)
                    ==> final(self).active_sessions.view()[k] == old(self).active_sessions.view()[k]
            },
            r is Err ==> final(self).active_sessions.view() == old(self).active_sessions.view(),
            r matches Err(e) ==> e.kind() == 2 && e.message() == "Session "@ + uuid_text_spec(session_id) + " not found"@,
    {
        match self.active_sessions.remove(session_id) {
            Some(mut sess) => {
                sess.status = SessionStatus::Cancelled;
                let mut tests: Vec<u128> = Vec::new();
                let mut i: usize = 0;
                while i < sess.test_results.len()
                    invariant
                        i <= sess.test_results@.len(),
                        tests@ == sess.test_results@.subrange(0, i as int),
                    decreases sess.test_results@.len() - i,
                {
                    tests.push(sess.test_results[i]);
                    i = i + 1;
                    proof {
                        assert(tests@ =~= sess.test_results@.subrange(0, i as int));
                    }
                }
                proof {
                    assert(tests@ =~= sess.test_results@);
                }
                let ghost sv = sess;
                self.active_sessions.insert(sess);
                proof {
                    assert(self.active_sessions.view() =~= old(self).active_sessions.view().insert(session_id, sv));
                }
                Ok(tests)
            },
            None => {
                proof {
                    assert(self.active_sessions.view() =~= old(self).active_sessions.view());
                }
                let mut m = join2("Session ", uuid_text(session_id).as_str());
                m.append(" not found");
                Err(GatewayError::InvalidState(m))
            },
        }
    }

    /// A session under way.
    pub fn get_session_status(&self, session_id: u128) -> (r: Option<&TestSession>)
        requires
            self.wf(),
        ensures
            r is Some <==> self.active_sessions.view().dom().contains(session_id),
            r matches Some(x) ==> *x == self.active_sessions.view()[session_id],
    {
        self.active_sessions.get(session_id)
    }

    /// The summary of a finished session.
    pub fn get_session_summary(&self, session_id: u128) -> (r: Option<&SessionSummary>)
        requires
            self.wf(),
        ensures
            r is Some <==> self.completed_sessions.view().dom().contains(session_id),
            r matches Some(x) ==> *x == self.completed_sessions.view()[session_id],
    {
        self.completed_sessions.get(session_id)
    }

    /// All sessions under way.
    pub fn get_active_sessions(&self) -> (r: &Vec<TestSession>)
        ensures
            r@ == self.active_sessions.seq(),
    {
        self.active_sessions.items()
    }

    /// All finished sessions.
    pub fn get_completed_sessions(&self) -> (r: &Vec<SessionSummary>)
        ensures
            r@ == self.completed_sessions.seq(),
    {
        self.completed_sessions.items()
    }
}

} // verus!
