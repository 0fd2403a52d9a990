//! Detection of what a span is connected to: its line, its signaling, the
//! switch at the far end and, where enabled, a mobile network. Each span's
//! detection runs until everything enabled has been found.

use vstd::prelude::*;
use crate::error::{GatewayError, GatewayResult};
use crate::interface_testing::{push_text, texts};
use crate::keyed::{NumKeyed, NumKeyedList};
use crate::text::text;

verus! {

/// The kind of digital line.
#[derive(Clone, Copy, Debug, PartialEq, Eq, Structural)]
pub enum Layer1Type {
    E1,
    T1,
}

/// The signaling on a span.
#[derive(Clone, Copy, Debug, PartialEq, Eq, Structural)]
pub enum SignalingType {
    Pri,
    Bri,
    Cas,
}

/// The switch at the far end of a span.
#[derive(Clone, Copy, Debug, PartialEq, Eq, Structural)]
pub enum SwitchType {
    EuroISDN,
    NationalISDN2,
    NationalISDN1,
    Dms100,
    Ess5,
    Lucent5e,
    Nortel,
    Unknown,
}

/// The generation of a mobile network.
#[derive(Clone, Copy, Debug, PartialEq, Eq, Structural)]
pub enum MobileNetworkType {
    Gsm,
    Umts,
    Lte,
    Nr,
    Unknown,
}

/// A protocol found on a span; the confidence in permille.
pub struct DetectedProtocol {
    pub protocol_type: SignalingType,
    pub confidence_permille: u32,
    pub characteristics: Vec<String>,
    pub detected_at_ms: u64,
}

/// The characteristics of a line; the signal level in hundredths of a dBm,
/// the error rate in parts per billion.
pub struct LineCharacteristics {
    pub line_type: Layer1Type,
    pub framing: String,
    pub line_code: String,
    pub clock_source: String,
    pub signal_level_centi_dbm: i32,
    pub error_rate_ppb: u64,
    pub alarm_status: Vec<String>,
    pub detected_at_ms: u64,
}

/// Detection settings; times in milliseconds, the confidence a protocol
/// needs in permille.
pub struct AutoDetectionConfig {
    pub enabled: bool,
    pub detection_timeout_ms: u64,
    pub retry_interval_ms: u64,
    pub max_retries: u32,
    pub enable_protocol_detection: bool,
    pub enable_line_detection: bool,
    pub enable_switch_detection: bool,
    pub enable_mobile_detection: bool,
    pub confidence_threshold_permille: u32,
}

impl Default for AutoDetectionConfig {
    /// Enabled; 30 s to detect, 5 s between retries, 3 retries; everything
    /// but mobile networks detected; 80% confidence needed.
    fn default() -> (r: Self)
        ensures
            r.enabled,
            r.detection_timeout_ms == 30_000,
            r.retry_interval_ms == 5_000,
            r.max_retries == 3,
            r.enable_protocol_detection && r.enable_line_detection && r.enable_switch_detection,
            !r.enable_mobile_detection,
            r.confidence_threshold_permille == 800,
    {
        AutoDetectionConfig {
            enabled: true,
            detection_timeout_ms: 30_000,
            retry_interval_ms: 5_000,
            max_retries: 3,
            enable_protocol_detection: true,
            enable_line_detection: true,
            enable_switch_detection: true,
            enable_mobile_detection: false,
            confidence_threshold_permille: 800,
        }
    }
}

/// Where a span's detection stands; times in milliseconds.
pub struct SpanDetectionState {
    pub span_id: u32,
    pub detection_started_ms: u64,
    pub retry_count: u32,
    pub detected_protocol: Option<DetectedProtocol>,
    pub detected_characteristics: Option<LineCharacteristics>,
    pub detected_switch: Option<SwitchType>,
    pub detected_mobile: Option<MobileNetworkType>,
    pub is_detecting: bool,
}

impl NumKeyed for SpanDetectionState {
    open spec fn key(&self) -> u128 {
        self.span_id as u128
    }

    fn key_num(&self) -> (r: u128) {
        self.span_id as u128
    }
}

/// The confidence of the PRI signaling that detection finds.
pub const PRI_CONFIDENCE_PERMILLE: u32 = 950;

/// The line a detection pass finds: E1, CRC4 framing, HDB3, external clock,
/// -12.5 dBm, an error rate of 1e-5, no alarms.
pub open spec fn line_found(c: LineCharacteristics, now_ms: u64) -> bool {
    &&& c.line_type == Layer1Type::E1
    &&& c.framing@ == "crc4"@
    &&& c.line_code@ == "hdb3"@
    &&& c.clock_source@ == "external"@
    &&& c.signal_level_centi_dbm == -1250
    &&& c.error_rate_ppb == 10_000
    &&& c.alarm_status@.len() == 0
    &&& c.detected_at_ms == now_ms
}

/// The signaling a detection pass finds: PRI, with 95% confidence.
pub open spec fn protocol_found(p: DetectedProtocol, now_ms: u64) -> bool {
    &&& p.protocol_type == SignalingType::Pri
    &&& p.confidence_permille == PRI_CONFIDENCE_PERMILLE
    &&& texts(p.characteristics@) == seq![
        "Q.931 messages detected"@,
        "Layer 2 LAPD frames"@,
        "D-channel on timeslot 16"@,
    ]
    &&& p.detected_at_ms == now_ms
}

/// Whether everything that is to be detected has been found.
pub open spec fn complete(s: SpanDetectionState, config: AutoDetectionConfig) -> bool {
    &&& (!config.enable_line_detection || s.detected_characteristics is Some)
    &&& (!config.enable_protocol_detection || s.detected_protocol is Some)
    &&& (!config.enable_switch_detection || s.detected_switch is Some)
    &&& (!config.enable_mobile_detection || s.detected_mobile is Some)
}

/// What one detection pass at `now_ms` makes of a span's state: each enabled
/// detection records what it finds (the signaling only with enough
/// confidence), and the span stops detecting once complete.
pub open spec fn detected(o: SpanDetectionState, n: SpanDetectionState, config: AutoDetectionConfig, now_ms: u64) -> bool {
    &&& n.span_id == o.span_id
    &&& n.detection_started_ms == o.detection_started_ms
    &&& n.retry_count == o.retry_count
    &&& if config.enable_line_detection {
        n.detected_characteristics matches Some(c) && line_found(c, now_ms)
    } else {
        n.detected_characteristics == o.detected_characteristics
    }
    &&& if config.enable_protocol_detection && PRI_CONFIDENCE_PERMILLE >= config.confidence_threshold_permille {
        n.detected_protocol matches Some(p) && protocol_found(p, now_ms)
    } else {
        n.detected_protocol == o.detected_protocol
    }
    &&& n.detected_switch == if config.enable_switch_detection {
        Some(SwitchType::EuroISDN)
    } else {
        o.detected_switch
    }
    &&& n.detected_mobile == if config.enable_mobile_detection {
        Some(MobileNetworkType::Lte)
    } else {
        o.detected_mobile
    }
    &&& n.is_detecting == !complete(n, config)
}

/// One pass completes a span's detection whenever the signaling it finds is
/// confident enough to count (or signaling is not detected).
pub proof fn law_one_pass_completes(o: SpanDetectionState, n: SpanDetectionState, config: AutoDetectionConfig, now_ms: u64)
    requires
        detected(o, n, config, now_ms),
        PRI_CONFIDENCE_PERMILLE >= config.confidence_threshold_permille || !config.enable_protocol_detection,
    ensures
        complete(n, config),
        !n.is_detecting,
{
}

/// Whether a span is due for a detection pass: detecting, and within the
/// detection timeout of its start.
pub open spec fn due(s: SpanDetectionState, config: AutoDetectionConfig, now_ms: u64) -> bool {
    s.is_detecting && (if now_ms >= s.detection_started_ms { now_ms - s.detection_started_ms } else { 0 })
        < config.detection_timeout_ms
}

/// The channel numbers of a line: 1 to 31 but the D-channel 16 on E1, 1 to
/// 24 on T1.
pub open spec fn channel_plan(t: Layer1Type) -> Seq<u8> {
    match t {
        Layer1Type::E1 => Seq::new(30, |i: int| (if i < 15 { i + 1 } else { i + 2 }) as u8),
        Layer1Type::T1 => Seq::new(24, |i: int| (i + 1) as u8),
    }
}

/// The configuration name of a switch type.
pub open spec fn switch_name(s: SwitchType) -> Seq<char> {
    match s {
        SwitchType::EuroISDN => "euroISDN"@,
        SwitchType::NationalISDN2 => "national"@,
        SwitchType::NationalISDN1 => "ni1"@,
        SwitchType::Dms100 => "dms100"@,
        SwitchType::Ess5 => "5ess"@,
        SwitchType::Lucent5e => "lucent5e"@,
        SwitchType::Nortel => "nortel"@,
        SwitchType::Unknown => "unknown"@,
    }
}

/// A configuration recommended for a span; the confidence in permille.
pub struct RecommendedConfig {
    pub span_id: u32,
    pub line_type: Layer1Type,
    pub framing: String,
    pub line_code: String,
    pub signaling: SignalingType,
    pub switch_type: String,
    pub channels: Vec<u8>,
    pub confidence_score_permille: u32,
}

/// The detection service: its settings and the state of each span.
pub struct AutoDetectionService {
    pub config: AutoDetectionConfig,
    pub span_states: NumKeyedList<SpanDetectionState>,
    pub is_running: bool,
}

fn switch_text(s: SwitchType) -> (r: String)
    ensures
        r@ == switch_name(s),
{
    match s {
        SwitchType::EuroISDN => text("euroISDN"),
        SwitchType::NationalISDN2 => text("national"),
        SwitchType::NationalISDN1 => text("ni1"),
        SwitchType::Dms100 => text("dms100"),
        SwitchType::Ess5 => text("5ess"),
        SwitchType::Lucent5e => text("lucent5e"),
        SwitchType::Nortel => text("nortel"),
        SwitchType::Unknown => text("unknown"),
    }
}

fn channels_of(t: Layer1Type) -> (r: Vec<u8>)
    ensures
        r@ == channel_plan(t),
{
    let mut r: Vec<u8> = Vec::new();
    let last: u8 = match t {
        Layer1Type::E1 => 31,
        Layer1Type::T1 => 24,
    };
    let mut c: u8 = 1;
    while c <= last
        invariant
            1 <= c <= last + 1,
            last == (match t { Layer1Type::E1 => 31u8, Layer1Type::T1 => 24u8 }),
            r@ == channel_plan(t).take(match t {
                Layer1Type::E1 => if c <= 16 { c - 1 } else { c - 2 },
                Layer1Type::T1 => c - 1,
            }),
        decreases last + 1 - c,
    {
        let skip = match t {
            Layer1Type::E1 => c == 16,
            Layer1Type::T1 => false,
        };
        if !skip {
            r.push(c);
        }
        c = c + 1;
    }
    proof {
        assert(r@ == channel_plan(t).take(channel_plan(t).len() as int));
    }
    r
}

impl AutoDetectionService {
    /// Spans are found by distinct ids.
    pub open spec fn wf(&self) -> bool {
        self.span_states.wf()
    }

    /// A stopped service with no spans.
    pub fn new(config: AutoDetectionConfig) -> (r: Self)
        ensures
            r.wf(),
            r.config == config,
            r.span_states.view() == Map::<u128, SpanDetectionState>::empty(),
            !r.is_running,
    {
        AutoDetectionService { config, span_states: NumKeyedList::new(), is_running: false }
    }

    /// Starts the service, unless detection is disabled.
    pub fn start(&mut self) -> (r: GatewayResult<()>)
        ensures
            r is Ok,
            final(self).is_running == (old(self).is_running || old(self).config.enabled),
            final(self).config == old(self).config,
            final(self).span_states == old(self).span_states,
    {
        if self.config.enabled {
            self.is_running = true;
        }
        Ok(())
    }

    /// Stops the service.
    pub fn stop(&mut self) -> (r: GatewayResult<()>)
        ensures
            r is Ok,
            !final(self).is_running,
            final(self).config == old(self).config,
            final(self).span_states == old(self).span_states,
    {
        self.is_running = false;
        Ok(())
    }

    /// Whether the service runs.
    pub fn is_running(&self) -> (r: bool)
        ensures
            r == self.is_running,
    {
        self.is_running
    }

    /// Starts detecting a span afresh at `now_ms`; refused when detection is
    /// disabled.
    pub fn start_detection(&mut self, span_id: u32, now_ms: u64) -> (r: GatewayResult<()>)
        requires
            old(self).wf(),
        ensures
            final(self).wf(),
            final(self).config == old(self).config,
            final(self).is_running == old(self).is_running,
            r is Ok <==> old(self).config.enabled,
            r matches Err(e) ==> e.kind() == 3 && e.message() == "Auto-detection is disabled"@,
            r is Ok ==> final(self).span_states.view() == old(self).span_states.view().insert(
                span_id as u128,
                SpanDetectionState {
                    span_id,
                    detection_started_ms: now_ms,
                    retry_count: 0,
                    detected_protocol: None,
                    detected_characteristics: None,
                    detected_switch: None,
                    detected_mobile: None,
                    is_detecting: true,
                },
            ),
            r is Err ==> final(self).span_states == old(self).span_states,
    {
        if !self.config.enabled {
            return Err(GatewayError::NotSupported(text("Auto-detection is disabled")));
        }
        self.span_states.insert(SpanDetectionState {
            span_id,
            detection_started_ms: now_ms,
            retry_count: 0,
            detected_protocol: None,
            detected_characteristics: None,
            detected_switch: None,
            detected_mobile: None,
            is_detecting: true,
        });
        Ok(())
    }

    /// Stops detecting a span; an unknown span changes nothing.
    pub fn stop_detection(&mut self, span_id: u32) -> (r: GatewayResult<()>)
        requires
            old(self).wf(),
        ensures
            r is Ok,
            final(self).wf(),
            final(self).config == old(self).config,
            final(self).is_running == old(self).is_running,
            if old(self).span_states.view().dom().contains(span_id as u128) {
                final(self).span_states.view() == old(self).span_states.view().insert(
                    span_id as u128,
                    SpanDetectionState { is_detecting: false, ..old(self).span_states.view()[span_id as u128] },
                )
            } else {
                final(self).span_states.view() == old(self).span_states.view()
            },
    {
        match self.span_states.remove(span_id as u128) {
            Some(mut st) => {
                let ghost s0 = st;
                proof {
                    let sq = old(self).span_states.seq();
                    let j = choose|j: int| 0 <= j < sq.len() && (#[trigger] sq[j]).key() == span_id as u128;
                    old(self).span_states.lemma_get_at(j);
                }
                st.is_detecting = false;
                self.span_states.insert(st);
                proof {
                    assert(self.span_states.view() =~= old(self).span_states.view().insert(
                        span_id as u128,
                        SpanDetectionState { is_detecting: false, ..s0 },
                    ));
                }
            },
            None => {},
        }
        Ok(())
    }

    /// The state of a span, if it is known.
    pub fn get_detection_results(&self, span_id: u32) -> (r: Option<&SpanDetectionState>)
        requires
            self.wf(),
        ensures
            r is Some <==> self.span_states.view().dom().contains(span_id as u128),
            r matches Some(s) ==> *s == self.span_states.view()[span_id as u128],
    {
        self.span_states.get(span_id as u128)
    }

    /// The states of all spans, each once.
    pub fn get_all_detection_states(&self) -> (r: &Vec<SpanDetectionState>)
        ensures
            r@ == self.span_states.seq(),
    {
        self.span_states.items()
    }
}

/// The confidence of a recommendation: the mean, in permille rounded down,
/// of 90% for a detected line, the detected signaling's confidence, and 85%
/// for a detected switch; zero when nothing was detected.
pub open spec fn recommended_confidence(s: SpanDetectionState) -> nat {
    let sum: nat = (if s.detected_characteristics is Some { 900nat } else { 0nat }) + (match s.detected_protocol {
        Some(p) => p.confidence_permille as nat,
        None => 0nat,
    }) + (if s.detected_switch is Some { 850nat } else { 0nat });
    let count: nat = (if s.detected_characteristics is Some { 1nat } else { 0nat }) + (if s.detected_protocol is Some {
        1nat
    } else {
        0nat
    }) + (if s.detected_switch is Some { 1nat } else { 0nat });
    if count > 0 { sum / count } else { 0 }
}

/// Whether `c` is the configuration recommended for span `s`: what was
/// detected of its line, signaling and switch, else E1, CRC4, HDB3, PRI and
/// EuroISDN; the channels of its line type; and the mean confidence.
pub open spec fn recommendation_for(c: RecommendedConfig, s: SpanDetectionState) -> bool {
    &&& c.span_id == s.span_id
    &&& match s.detected_characteristics {
        Some(l) => c.line_type == l.line_type && c.framing@ == l.framing@ && c.line_code@ == l.line_code@,
        None => c.line_type == Layer1Type::E1 && c.framing@ == "crc4"@ && c.line_code@ == "hdb3"@,
    }
    &&& c.signaling == match s.detected_protocol {
        Some(p) => p.protocol_type,
        None => SignalingType::Pri,
    }
    &&& c.switch_type@ == match s.detected_switch {
        Some(w) => switch_name(w),
        None => "euroISDN"@,
    }
    &&& c.channels@ == channel_plan(c.line_type)
    &&& c.confidence_score_permille == recommended_confidence(s)
}

impl AutoDetectionService {
    /// One detection pass over a span at `now_ms`, if it is detecting: each
    /// enabled detection records what it finds, and the span stops once
    /// complete. Returns whether the span completed.
    pub fn detect_span_characteristics(&mut self, span_id: u32, now_ms: u64) -> (r: bool)
        requires
            old(self).wf(),
        ensures
            final(self).wf(),
            final(self).config == old(self).config,
            final(self).is_running == old(self).is_running,
            if old(self).span_states.view().dom().contains(span_id as u128)
                && old(self).span_states.view()[span_id as u128].is_detecting {
                let n = final(self).span_states.view()[span_id as u128];
                &&& final(self).span_states.view() == old(self).span_states.view().insert(span_id as u128, n)
                &&& detected(old(self).span_states.view()[span_id as u128], n, old(self).config, now_ms)
                &&& r == !n.is_detecting
            } else {
                &&& final(self).span_states.view() == old(self).span_states.view()
                &&& !r
            },
    {
        let detecting = match self.span_states.get(span_id as u128) {
            Some(st) => st.is_detecting,
            None => false,
        };
        if !detecting {
            return false;
        }
        let mut st = match self.span_states.remove(span_id as u128) {
            Some(st) => st,
            None => return false,
        };
        proof {
            let sq = old(self).span_states.seq();
            let j = choose|j: int| 0 <= j < sq.len() && (#[trigger] sq[j]).key() == span_id as u128;
            old(self).span_states.lemma_get_at(j);
        }
        if self.config.enable_line_detection {
            st.detected_characteristics = Some(LineCharacteristics {
                line_type: Layer1Type::E1,
                framing: text("crc4"),
                line_code: text("hdb3"),
                clock_source: text("external"),
                signal_level_centi_dbm: -1250,
                error_rate_ppb: 10_000,
                alarm_status: Vec::new(),
                detected_at_ms: now_ms,
            });
        }
        if self.config.enable_protocol_detection && PRI_CONFIDENCE_PERMILLE >= self.config.confidence_threshold_permille {
            let mut characteristics: Vec<String> = Vec::new();
            push_text(&mut characteristics, "Q.931 messages detected");
            push_text(&mut characteristics, "Layer 2 LAPD frames");
            push_text(&mut characteristics, "D-channel on timeslot 16");
            proof {
                assert(texts(characteristics@) =~= seq![
                    "Q.931 messages detected"@,
                    "Layer 2 LAPD frames"@,
                    "D-channel on timeslot 16"@,
                ]);
            }
            st.detected_protocol = Some(DetectedProtocol {
                protocol_type: SignalingType::Pri,
                confidence_permille: PRI_CONFIDENCE_PERMILLE,
                characteristics,
                detected_at_ms: now_ms,
            });
        }
        if self.config.enable_switch_detection {
            st.detected_switch = Some(SwitchType::EuroISDN);
        }
        if self.config.enable_mobile_detection {
            st.detected_mobile = Some(MobileNetworkType::Lte);
        }
        let done = (!self.config.enable_line_detection || st.detected_characteristics.is_some())
            && (!self.config.enable_protocol_detection || st.detected_protocol.is_some())
            && (!self.config.enable_switch_detection || st.detected_switch.is_some())
            && (!self.config.enable_mobile_detection || st.detected_mobile.is_some());
        st.is_detecting = !done;
        self.span_states.insert(st);
        done
    }

    /// The spans due for a detection pass at `now_ms`, each once.
    pub fn due_spans(&self, now_ms: u64) -> (r: Vec<u32>)
        requires
            self.wf(),
        ensures
            forall|i: int|
                0 <= i < r@.len() ==> self.span_states.view().dom().contains((#[trigger] r@[i]) as u128) && due(
                    self.span_states.view()[r@[i] as u128],
                    self.config,
                    now_ms,
                ),
            forall|k: u128|
                #[trigger] self.span_states.view().dom().contains(k) && due(self.span_states.view()[k], self.config, now_ms)
                    ==> exists|i: int| 0 <= i < r@.len() && r@[i] as u128 == k,
            forall|i: int, j: int| 0 <= i < j < r@.len() ==> r@[i] != r@[j],
    {
        let items = self.span_states.items();
        let mut r: Vec<u32> = Vec::new();
        let mut i: usize = 0;
        let timeout = self.config.detection_timeout_ms;
        while i < items.len()
            invariant
                self.wf(),
                items@ == self.span_states.seq(),
                timeout == self.config.detection_timeout_ms,
                i <= items@.len(),
                forall|a: int|
                    0 <= a < r@.len() ==> exists|j: int|
                        0 <= j < i && items@[j].span_id == (#[trigger] r@[a]) && due(items@[j], self.config, now_ms),
                forall|j: int|
                    0 <= j < i && due(#[trigger] items@[j], self.config, now_ms) ==> exists|a: int|
                        0 <= a < r@.len() && r@[a] == items@[j].span_id,
                forall|a: int, b: int| 0 <= a < b < r@.len() ==> r@[a] != r@[b],
                forall|a: int| 0 <= a < r@.len() ==> exists|j: int| 0 <= j < i && items@[j].span_id == (#[trigger] r@[a]),
            decreases items@.len() - i,
        {
            let st = &items[i];
            let elapsed = now_ms.saturating_sub(st.detection_started_ms);
            let ghost before = r@;
            if st.is_detecting && elapsed < timeout {
                proof {
                    assert forall|a: int| 0 <= a < before.len() implies before[a] != st.span_id by {
                        let j = choose|j: int| 0 <= j < i && items@[j].span_id == (#[trigger] before[a]);
                        self.span_states.lemma_get_at(j);
                        self.span_states.lemma_get_at(i as int);
                        assert(items@[j].key() != items@[i as int].key());
                    }
                }
                r.push(st.span_id);
                proof {
                    assert forall|a: int| 0 <= a < r@.len() implies exists|j: int|
                        0 <= j < i + 1 && items@[j].span_id == (#[trigger] r@[a]) && due(items@[j], self.config, now_ms) by {
                        if a < before.len() {
                            assert(r@[a] == before[a]);
                        } else {
                            assert(items@[i as int].span_id == r@[a]);
                        }
                    }
                    assert forall|a: int| 0 <= a < r@.len() implies exists|j: int|
                        0 <= j < i + 1 && items@[j].span_id == (#[trigger] r@[a]) by {
                        if a < before.len() {
                            assert(r@[a] == before[a]);
                        } else {
                            assert(items@[i as int].span_id == r@[a]);
                        }
                    }
                    assert forall|j: int| 0 <= j < i + 1 && due(#[trigger] items@[j], self.config, now_ms) implies exists|a: int|
                        0 <= a < r@.len() && r@[a] == items@[j].span_id by {
                        if j < i {
                            let a = choose|a: int| 0 <= a < before.len() && before[a] == items@[j].span_id;
                            assert(r@[a] == before[a]);
                        } else {
                            assert(r@[before.len() as int] == items@[j].span_id);
                        }
                    }
                }
            }
            i = i + 1;
        }
        proof {
            let sq = self.span_states.seq();
            assert forall|a: int| 0 <= a < r@.len() implies self.span_states.view().dom().contains((#[trigger] r@[a]) as u128)
                && due(self.span_states.view()[r@[a] as u128], self.config, now_ms) by {
                let j = choose|j: int| 0 <= j < items@.len() && items@[j].span_id == (#[trigger] r@[a]) && due(items@[j], self.config, now_ms);
                self.span_states.lemma_get_at(j);
            }
            assert forall|k: u128| #[trigger] self.span_states.view().dom().contains(k) && due(self.span_states.view()[k], self.config, now_ms)
                implies exists|a: int| 0 <= a < r@.len() && r@[a] as u128 == k by {
                let j = choose|j: int| 0 <= j < sq.len() && (#[trigger] sq[j]).key() == k;
                self.span_states.lemma_get_at(j);
                assert(due(items@[j], self.config, now_ms));
                let a = choose|a: int| 0 <= a < r@.len() && r@[a] == items@[j].span_id;
            }
        }
        r
    }

    /// A detection pass over every span that is due at `now_ms`; the others
    /// are left alone. Returns the spans passed over.
    pub fn process_detections(&mut self, now_ms: u64) -> (r: Vec<u32>)
        requires
            old(self).wf(),
        ensures
            final(self).wf(),
            final(self).config == old(self).config,
            final(self).is_running == old(self).is_running,
            final(self).span_states.view().dom() == old(self).span_states.view().dom(),
            forall|k: u128|
                #[trigger] old(self).span_states.view().dom().contains(k) ==> if due(
                    old(self).span_states.view()[k],
                    old(self).config,
                    now_ms,
                ) {
                    detected(old(self).span_states.view()[k], final(self).span_states.view()[k], old(self).config, now_ms)
                } else {
                    final(self).span_states.view()[k] == old(self).span_states.view()[k]
                },
            forall|i: int|
                0 <= i < r@.len() ==> old(self).span_states.view().dom().contains((#[trigger] r@[i]) as u128) && due(
                    old(self).span_states.view()[r@[i] as u128],
                    old(self).config,
                    now_ms,
                ),
    {
        let spans = self.due_spans(now_ms);
        let ghost old_view = old(self).span_states.view();
        let mut i: usize = 0;
        while i < spans.len()
            invariant
                self.wf(),
                self.config == old(self).config,
                self.is_running == old(self).is_running,
                old_view == old(self).span_states.view(),
                i <= spans@.len(),
                forall|a: int|
                    0 <= a < spans@.len() ==> old_view.dom().contains((#[trigger] spans@[a]) as u128) && due(
                        old_view[spans@[a] as u128],
                        self.config,
                        now_ms,
                    ),
                forall|k: u128|
                    #[trigger] old_view.dom().contains(k) && due(old_view[k], self.config, now_ms) ==> exists|a: int|
                        0 <= a < spans@.len() && spans@[a] as u128 == k,
                forall|a: int, b: int| 0 <= a < b < spans@.len() ==> spans@[a] != spans@[b],
                self.span_states.view().dom() == old_view.dom(),
                forall|k: u128|
                    #[trigger] old_view.dom().contains(k) ==> if exists|a: int| 0 <= a < i && spans@[a] as u128 == k {
                        detected(old_view[k], self.span_states.view()[k], self.config, now_ms)
                    } else {
                        self.span_states.view()[k] == old_view[k]
                    },
            decreases spans@.len() - i,
        {
            let span = spans[i];
            let ghost before = self.span_states.view();
            proof {
                let k = span as u128;
                assert(old_view.dom().contains(k));
                if exists|a: int| 0 <= a < i && spans@[a] as u128 == k {
                    let a = choose|a: int| 0 <= a < i && spans@[a] as u128 == k;
                    assert(spans@[a] != spans@[i as int]);
                }
                assert(before[k] == old_view[k]);
            }
            self.detect_span_characteristics(span, now_ms);
            proof {
                assert forall|k: u128| #[trigger] old_view.dom().contains(k) implies if exists|a: int|
                    0 <= a < i + 1 && spans@[a] as u128 == k {
                    detected(old_view[k], self.span_states.view()[k], self.config, now_ms)
                } else {
                    self.span_states.view()[k] == old_view[k]
                } by {
                    if k == span as u128 {
                        assert(spans@[i as int] as u128 == k);
                    } else {
                        if exists|a: int| 0 <= a < i + 1 && spans@[a] as u128 == k {
                            let a = choose|a: int| 0 <= a < i + 1 && spans@[a] as u128 == k;
                            assert(a != i);
                        }
                    }
                }
                assert(self.span_states.view().dom() =~= old_view.dom());
            }
            i = i + 1;
        }
        spans
    }

    /// Starts a span's detection over at `now_ms`, counting the retry;
    /// refused once the retries are used up. An unknown span changes nothing.
    pub fn retry_detection(&mut self, span_id: u32, now_ms: u64) -> (r: GatewayResult<()>)
        requires
            old(self).wf(),
        ensures
            final(self).wf(),
            final(self).config == old(self).config,
            final(self).is_running == old(self).is_running,
            ({
                let k = span_id as u128;
                let o = old(self).span_states.view();
                if !o.dom().contains(k) {
                    r is Ok && final(self).span_states.view() == o
                } else if o[k].retry_count < old(self).config.max_retries {
                    &&& r is Ok
                    &&& final(self).span_states.view() == o.insert(
                        k,
                        SpanDetectionState {
                            retry_count: (o[k].retry_count + 1) as u32,
                            is_detecting: true,
                            detection_started_ms: now_ms,
                            ..o[k]
                        },
                    )
                } else {
                    &&& r matches Err(e) && e.kind() == 1 && e.message() == "Maximum retry attempts reached"@
                    &&& final(self).span_states.view() == o
                }
            }),
    {
        let can_retry = match self.span_states.get(span_id as u128) {
            None => return Ok(()),
            Some(st) => st.retry_count < self.config.max_retries,
        };
        if !can_retry {
            return Err(GatewayError::Internal(text("Maximum retry attempts reached")));
        }
        let mut st = match self.span_states.remove(span_id as u128) {
            Some(st) => st,
            None => return Ok(()),
        };
        let ghost s0 = st;
        proof {
            let sq = old(self).span_states.seq();
            let j = choose|j: int| 0 <= j < sq.len() && (#[trigger] sq[j]).key() == span_id as u128;
            old(self).span_states.lemma_get_at(j);
        }
        st.retry_count = st.retry_count + 1;
        st.is_detecting = true;
        st.detection_started_ms = now_ms;
        self.span_states.insert(st);
        proof {
            assert(self.span_states.view() =~= old(self).span_states.view().insert(
                span_id as u128,
                SpanDetectionState {
                    retry_count: (s0.retry_count + 1) as u32,
                    is_detecting: true,
                    detection_started_ms: now_ms,
                    ..s0
                },
            ));
        }
        Ok(())
    }

    /// The configuration recommended for a known span.
    pub fn get_recommended_config(&self, span_id: u32) -> (r: Option<RecommendedConfig>)
        requires
            self.wf(),
        ensures
            r is Some <==> self.span_states.view().dom().contains(span_id as u128),
            r matches Some(c) ==> recommendation_for(c, self.span_states.view()[span_id as u128]),
    {
        let st = match self.span_states.get(span_id as u128) {
            Some(st) => st,
            None => return None,
        };
        let mut sum: u64 = 0;
        let mut count: u64 = 0;
        let (line_type, framing, line_code) = match &st.detected_characteristics {
            Some(l) => {
                sum = sum + 900;
                count = count + 1;
                (l.line_type, text(l.framing.as_str()), text(l.line_code.as_str()))
            },
            None => (Layer1Type::E1, text("crc4"), text("hdb3")),
        };
        let signaling = match &st.detected_protocol {
            Some(p) => {
                sum = sum + p.confidence_permille as u64;
                count = count + 1;
                p.protocol_type
            },
            None => SignalingType::Pri,
        };
        let switch_type = match st.detected_switch {
            Some(w) => {
                sum = sum + 850;
                count = count + 1;
                switch_text(w)
            },
            None => text("euroISDN"),
        };
        let channels = channels_of(line_type);
        let score: u32 = if count > 0 {
            assert(sum <= count * 4294967295);
            assert(sum / count <= 4294967295) by (nonlinear_arith)
                requires
                    sum <= count * 4294967295,
                    count >= 1,
            ;
            (sum / count) as u32
        } else {
            0
        };
        Some(RecommendedConfig { span_id, line_type, framing, line_code, signaling, switch_type, channels, confidence_score_permille: score })
    }
}

} // verus!
