//! Call detail records: one per call, opened when the call starts, billed by
//! the longest matching rate prefix, and closed with its duration, billable
//! duration and cost. Money is in millionths of the currency unit, rates per
//! minute; times are milliseconds, durations seconds. Storing a finished
//! record is the caller's part.

use vstd::prelude::*;
use crate::error::GatewayResult;
use crate::text::{text, chars_of};
use crate::debug::{byte_len, utf8_len, opt_view};
use crate::b2bua::{B2buaCall, RouteType};
use crate::media_relay::MediaRelayStats;
use crate::transcoding::codec_name;
use crate::interface_testing::{new_test_id, uuid_text};

verus! {

/// The category of the calling party.
#[derive(Clone, Copy, Debug, PartialEq, Eq, Structural)]
pub enum CallingPartyCategory {
    Unknown,
    Subscriber,
    National,
    International,
    Emergency,
    Test,
    PayPhone,
    Cellular,
    Prison,
    Hotel,
}

/// The kind of call.
#[derive(Clone, Copy, Debug, PartialEq, Eq, Structural)]
pub enum CallType {
    Voice,
    Video,
    Fax,
    Data,
    Emergency,
    Test,
    Conference,
}

/// Why a call ended.
#[derive(Clone, Copy, Debug, PartialEq, Eq, Structural)]
pub enum DisconnectReason {
    Normal,
    Busy,
    NoAnswer,
    Rejected,
    NetworkError,
    Timeout,
    SystemError,
    UserDisconnect,
    ProviderDisconnect,
    Congestion,
    Forbidden,
    NotFound,
    ServerError,
}

/// The billing category of a destination.
#[derive(Clone, Copy, Debug, PartialEq, Eq, Structural)]
pub enum BillingCategory {
    Local,
    National,
    International,
    Mobile,
    Premium,
    Toll,
    Emergency,
    Test,
}

/// How long a record is kept.
#[derive(Clone, Copy, Debug, PartialEq, Eq, Structural)]
pub enum DataRetentionClass {
    /// One year
    Standard,
    /// Three years
    Extended,
    /// Seven years
    Legal,
    /// Indefinitely
    Permanent,
}

/// Call quality; the opinion score in hundredths, loss in parts per million,
/// times in microseconds.
pub struct QualityMetrics {
    pub mos_score_centi: Option<u32>,
    pub packet_loss_ppm: u32,
    pub jitter_us: u64,
    pub latency_us: u64,
    pub codec_a: String,
    pub codec_b: String,
    pub rtp_packets_sent: u64,
    pub rtp_packets_received: u64,
    pub rtp_bytes_sent: u64,
    pub rtp_bytes_received: u64,
    pub transcoding_used: bool,
}

/// How a call is billed.
pub struct BillingInfo {
    pub account_id: String,
    pub rate_plan: String,
    pub rate_per_minute_micro: u64,
    pub currency: String,
    pub cost_micro: u64,
    pub tax_amount_micro: u64,
    pub billing_increment_seconds: u32,
    pub minimum_charge_seconds: u32,
    pub carrier_cost_micro: u64,
    pub margin_micro: u64,
    pub billing_category: BillingCategory,
}

/// How a call was routed.
pub struct RoutingCdrInfo {
    pub rule_id: String,
    pub route_type: RouteType,
    pub target_gateway: String,
    pub number_translation_applied: bool,
    pub routing_decision_time_ms: u64,
    pub failover_attempts: u32,
}

/// A DTMF digit seen during a call.
pub struct DtmfEvent {
    pub digit: char,
    pub timestamp_ms: i64,
    pub duration_ms: u32,
    pub direction: String,
}

/// The media of a call.
pub struct MediaCdrInfo {
    pub leg_a_codec: String,
    pub leg_b_codec: String,
    pub transcoding_backend: Option<String>,
    pub media_relay_used: bool,
    pub dtmf_events: Vec<DtmfEvent>,
    pub media_processing_enabled: bool,
}

/// Privacy settings of a call.
#[derive(Clone, Copy, Debug, PartialEq, Eq, Structural)]
pub struct PrivacyFlags {
    pub caller_id_blocked: bool,
    pub recording_enabled: bool,
    pub analytics_enabled: bool,
    pub location_tracking_enabled: bool,
}

/// Regulatory facts of a call.
pub struct ComplianceInfo {
    pub jurisdiction: String,
    pub emergency_call: bool,
    pub lawful_intercept_required: bool,
    pub data_retention_class: DataRetentionClass,
    pub privacy_flags: PrivacyFlags,
}

/// A call detail record.
pub struct CallDetailRecord {
    pub id: String,
    pub call_id: String,
    pub session_id: String,
    pub caller: String,
    pub callee: String,
    pub original_called_number: String,
    pub translated_called_number: String,
    pub calling_party_category: CallingPartyCategory,
    pub call_type: CallType,
    pub route_type: RouteType,
    pub start_ms: i64,
    pub answer_ms: Option<i64>,
    pub end_ms: Option<i64>,
    pub duration_seconds: u64,
    pub billable_duration_seconds: u64,
    pub disconnect_reason: Option<DisconnectReason>,
    pub quality_metrics: QualityMetrics,
    pub billing_info: BillingInfo,
    pub routing_info: RoutingCdrInfo,
    pub media_info: MediaCdrInfo,
    pub compliance_info: ComplianceInfo,
}

/// A concurrent map of open call records by id.
pub type CdrMap = dashmap::DashMap<String, CallDetailRecord>;

/// The records that a `DashMap` holds, by id.
pub uninterp spec fn dash_cdrs(m: CdrMap) -> Map<Seq<char>, CallDetailRecord>;

/// `DashMap::new`: a map that holds nothing.
#[verifier::external_body]
fn cdrs_new() -> (r: CdrMap)
    ensures
        dash_cdrs(r).dom().len() == 0,
        dash_cdrs(r).dom().finite(),
{
    dashmap::DashMap::new()
}

/// `DashMap::insert`: the map holds `c` under `id` afterwards, in place of
/// any record it held there.
#[verifier::external_body]
fn cdrs_insert(m: &mut CdrMap, id: String, c: CallDetailRecord)
    ensures
        dash_cdrs(*final(m)) == dash_cdrs(*old(m)).insert(id@, c),
{
    m.insert(id, c);
}

/// `DashMap::remove`: the map no longer holds `id`, and the record it held
/// there, if any, is handed back (without its key).
#[verifier::external_body]
fn cdrs_remove(m: &mut CdrMap, id: &str) -> (r: Option<CallDetailRecord>)
    ensures
        dash_cdrs(*final(m)) == dash_cdrs(*old(m)).remove(id@),
        r is Some <==> dash_cdrs(*old(m)).dom().contains(id@),
        r matches Some(c) ==> c == dash_cdrs(*old(m))[id@],
{
    match m.remove(id) {
        Some((_, c)) => Some(c),
        None => None,
    }
}

/// `DashMap::len`: the number of entries of the map.
#[verifier::external_body]
fn cdrs_len(m: &CdrMap) -> (r: usize)
    ensures
        r == dash_cdrs(*m).dom().len(),
{
    m.len()
}

/// The id and start time of a record.
fn id_and_start(id: &String, c: &CallDetailRecord) -> (r: (String, i64))
    ensures
        r.0@ == id@,
        r.1 == c.start_ms,
{
    (id.clone(), c.start_ms)
}

/// `DashMap::iter`: each entry of the map once, in the order the map walks
/// them, handed out as its id and the record's start time.
#[verifier::external_body]
fn cdrs_starts(m: &CdrMap) -> (r: Vec<(String, i64)>)
    ensures
        forall|i: int| 0 <= i < r@.len() ==> dash_cdrs(*m).dom().contains(#[trigger] r@[i].0@)
            && r@[i].1 == dash_cdrs(*m)[r@[i].0@].start_ms,
        forall|k: Seq<char>| #[trigger] dash_cdrs(*m).dom().contains(k) ==> exists|i: int| 0 <= i < r@.len() && r@[i].0@ == k,
        forall|i: int, j: int| 0 <= i < j < r@.len() ==> (#[trigger] r@[i]).0@ != (#[trigger] r@[j]).0@,
{
    m.iter().map(|e| id_and_start(e.key(), e.value())).collect()
}

/// A rate for the numbers that start with a prefix.
pub struct BillingRate {
    pub id: String,
    pub prefix: String,
    pub description: String,
    pub rate_per_minute_micro: u64,
    pub currency: String,
    pub billing_increment: u32,
    pub minimum_charge: u32,
    pub effective_ms: i64,
    pub expiry_ms: Option<i64>,
    pub category: BillingCategory,
}

/// Billing defaults; the tax rate is in parts per million.
pub struct BillingConfig {
    pub default_rate_per_minute_micro: u64,
    pub default_currency: String,
    pub default_billing_increment: u32,
    pub default_minimum_charge: u32,
    pub tax_rate_ppm: u64,
    pub default_account_id: String,
}

/// Whether `b` is the billing of a call to `number`: the rate, category,
/// increment and minimum charge of the longest matching rate, or the defaults
/// (local calls) when none matches, with the default account and currency, no
/// cost or tax yet, and the carrier's share 70% and the margin 30% of the rate.
pub open spec fn billing_info_for(rates: Seq<BillingRate>, cfg: BillingConfig, number: Seq<char>, b: BillingInfo) -> bool {
    &&& match best_rate(rates, number, rates.len() as int) {
        Some(i) => {
            let rate = rates[i];
            &&& b.rate_per_minute_micro == rate.rate_per_minute_micro
            &&& b.billing_category == rate.category
            &&& b.billing_increment_seconds == rate.billing_increment
            &&& b.minimum_charge_seconds == rate.minimum_charge
        },
        None => {
            &&& b.rate_per_minute_micro == cfg.default_rate_per_minute_micro
            &&& b.billing_category == BillingCategory::Local
            &&& b.billing_increment_seconds == cfg.default_billing_increment
            &&& b.minimum_charge_seconds == cfg.default_minimum_charge
        },
    }
    &&& b.account_id@ == cfg.default_account_id@
    &&& b.rate_plan@ == "standard"@
    &&& b.currency@ == cfg.default_currency@
    &&& b.cost_micro == 0
    &&& b.tax_amount_micro == 0
    &&& b.carrier_cost_micro == b.rate_per_minute_micro * 7 / 10
    &&& b.margin_micro == b.rate_per_minute_micro * 3 / 10
}

impl Default for BillingConfig {
    /// Ten cents a minute in USD, by the minute with a one-minute minimum, no
    /// tax, account `default`.
    fn default() -> (r: Self)
        ensures
            r.default_rate_per_minute_micro == 100_000,
            r.default_currency@ == "USD"@,
            r.default_billing_increment == 60,
            r.default_minimum_charge == 60,
            r.tax_rate_ppm == 0,
            r.default_account_id@ == "default"@,
    {
        BillingConfig {
            default_rate_per_minute_micro: 100_000,
            default_currency: String::from_str("USD"),
            default_billing_increment: 60,
            default_minimum_charge: 60,
            tax_rate_ppm: 0,
            default_account_id: String::from_str("default"),
        }
    }
}

/// Whether `p` starts `s`.
pub open spec fn has_prefix(s: Seq<char>, p: Seq<char>) -> bool {
    p.len() <= s.len() && s.subrange(0, p.len() as int) == p
}

/// The rate for a number: among the rates whose prefix starts it, one with
/// the longest prefix (in bytes), the first such in order.
pub open spec fn best_rate(rates: Seq<BillingRate>, number: Seq<char>, i: int) -> Option<int>
    decreases i,
{
    if i <= 0 {
        None
    } else {
        let prev = best_rate(rates, number, i - 1);
        let r = rates[i - 1];
        if has_prefix(number, r.prefix@) && utf8_len(r.prefix@) > match prev {
            Some(j) => utf8_len(rates[j].prefix@),
            None => 0,
        } {
            Some(i - 1)
        } else {
            prev
        }
    }
}

/// The rate found for a number is the longest match: it is a rate whose
/// non-empty prefix starts the number, no matching rate has a longer prefix,
/// and none before it has one as long. When none is found, no rate with a
/// non-empty prefix matches.
pub proof fn law_best_rate_is_longest_match(rates: Seq<BillingRate>, number: Seq<char>, n: int)
    requires
        0 <= n <= rates.len(),
    ensures
        best_rate(rates, number, n) matches Some(j) ==> {
            &&& 0 <= j < n
            &&& has_prefix(number, rates[j].prefix@)
            &&& utf8_len(rates[j].prefix@) > 0
            &&& forall|i: int| 0 <= i < n && #[trigger] has_prefix(number, rates[i].prefix@) ==> utf8_len(rates[i].prefix@)
                <= utf8_len(rates[j].prefix@)
            &&& forall|i: int| 0 <= i < j && #[trigger] has_prefix(number, rates[i].prefix@) ==> utf8_len(rates[i].prefix@)
                < utf8_len(rates[j].prefix@)
        },
        best_rate(rates, number, n) is None ==> forall|i: int| 0 <= i < n && #[trigger] has_prefix(number, rates[i].prefix@)
            ==> utf8_len(rates[i].prefix@) == 0,
    decreases n,
{
    if n > 0 {
        law_best_rate_is_longest_match(rates, number, n - 1);
    }
}

/// The seconds billed for a call: at least the minimum, rounded up to whole increments.
pub open spec fn billable_seconds(actual: nat, increment: nat, minimum: nat) -> nat {
    let d = if actual > minimum { actual } else { minimum };
    if increment > 0 { (((d + increment - 1) as nat / increment) * increment) as nat } else { d }
}

/// Billing rounds up: the billed seconds are a whole number of increments,
/// cover both the call and the minimum, and exceed the larger of them by
/// less than one increment.
pub proof fn law_billing_rounds_up(actual: nat, increment: nat, minimum: nat)
    requires
        increment > 0,
    ensures
        billable_seconds(actual, increment, minimum) % increment == 0,
        billable_seconds(actual, increment, minimum) >= actual,
        billable_seconds(actual, increment, minimum) >= minimum,
        billable_seconds(actual, increment, minimum) < (if actual > minimum { actual } else { minimum }) + increment,
{
    let d: nat = if actual > minimum { actual } else { minimum };
    let x: int = d + increment - 1;
    let q: int = x / (increment as int);
    vstd::arithmetic::div_mod::lemma_fundamental_div_mod(x, increment as int);
    vstd::arithmetic::div_mod::lemma_mod_pos_bound(x, increment as int);
    vstd::arithmetic::div_mod::lemma_mod_multiples_basic(q, increment as int);
    assert(q * increment == increment * q) by (nonlinear_arith);
    assert(billable_seconds(actual, increment, minimum) == q * increment);
}

/// The cost of a call in millionths: the billed minutes at the rate, with tax.
pub open spec fn call_cost(billable: nat, rate_micro: nat, tax_ppm: nat) -> nat {
    (billable * rate_micro * (1_000_000 + tax_ppm)) / 60_000_000
}

/// A call's cost is its base cost (the billed seconds at the per-minute rate)
/// plus the tax on it, rounded down once: with no tax it is the base cost, the
/// taxed cost is at least the base cost plus the tax each rounded down, and a
/// tax of at least one millionth of a unit makes the call dearer.
pub proof fn law_call_cost_adds_tax(billable: nat, rate_micro: nat, tax_ppm: nat)
    ensures
        call_cost(billable, rate_micro, 0) == (billable * rate_micro) / 60,
        call_cost(billable, rate_micro, tax_ppm) * 60_000_000 <= billable * rate_micro * 1_000_000 + billable * rate_micro
            * tax_ppm,
        billable * rate_micro * 1_000_000 + billable * rate_micro * tax_ppm < (call_cost(billable, rate_micro, tax_ppm) + 1)
            * 60_000_000,
        call_cost(billable, rate_micro, tax_ppm) >= call_cost(billable, rate_micro, 0) + (billable * rate_micro * tax_ppm)
            / 60_000_000,
        billable * rate_micro * tax_ppm >= 60_000_000 ==> call_cost(billable, rate_micro, tax_ppm) > call_cost(
            billable,
            rate_micro,
            0,
        ),
{
    let x: int = (billable * rate_micro) as int;
    let b: int = x * 1_000_000;
    let t: int = x * tax_ppm;
    assert(x >= 0 && t >= 0) by (nonlinear_arith)
        requires
            x == billable * rate_micro,
            t == x * tax_ppm,
    ;
    assert(billable * rate_micro * (1_000_000 + tax_ppm) == b + t) by (nonlinear_arith)
        requires
            x == billable * rate_micro,
            b == x * 1_000_000,
            t == x * tax_ppm,
    ;
    assert(billable * rate_micro * (1_000_000 + 0nat) == b) by (nonlinear_arith)
        requires
            x == billable * rate_micro,
            b == x * 1_000_000,
    ;
    let d: int = 60_000_000;
    let c: int = (b + t) / d;
    let c0: int = b / d;
    let ct: int = t / d;
    vstd::arithmetic::div_mod::lemma_fundamental_div_mod(b + t, d);
    vstd::arithmetic::div_mod::lemma_fundamental_div_mod(b, d);
    vstd::arithmetic::div_mod::lemma_fundamental_div_mod(t, d);
    vstd::arithmetic::div_mod::lemma_fundamental_div_mod(x, 60);
    vstd::arithmetic::div_mod::lemma_mod_pos_bound(b + t, d);
    vstd::arithmetic::div_mod::lemma_mod_pos_bound(b, d);
    vstd::arithmetic::div_mod::lemma_mod_pos_bound(t, d);
    vstd::arithmetic::div_mod::lemma_mod_pos_bound(x, 60);
    assert(c0 == x / 60) by (nonlinear_arith)
        requires
            b == x * 1_000_000,
            d == 60_000_000,
            b == d * c0 + b % d,
            0 <= b % d < d,
            x == 60 * (x / 60) + x % 60,
            0 <= x % 60 < 60,
    ;
    assert(c >= c0 + ct) by (nonlinear_arith)
        requires
            b + t == d * c + (b + t) % d,
            b == d * c0 + b % d,
            t == d * ct + t % d,
            0 <= (b + t) % d < d,
            0 <= b % d < d,
            0 <= t % d < d,
            d > 0,
    ;
    if t >= d {
        assert(ct >= 1) by (nonlinear_arith)
            requires
                t >= d,
                t == d * ct + t % d,
                0 <= t % d < d,
        ;
    }
    assert(c * d <= b + t && b + t < (c + 1) * d) by (nonlinear_arith)
        requires
            b + t == d * c + (b + t) % d,
            0 <= (b + t) % d < d,
    ;
}

fn prefix_of(number: &Vec<char>, p: &str) -> (r: bool)
    ensures
        r == has_prefix(number@, p@),
{
    let pc = chars_of(p);
    if pc.len() > number.len() {
        return false;
    }
    let mut i: usize = 0;
    while i < pc.len()
        invariant
            pc@ == p@,
            pc@.len() <= number@.len(),
            i <= pc@.len(),
            forall|j: int| 0 <= j < i ==> number@[j] == pc@[j],
        decreases pc@.len() - i,
    {
        if number[i] != pc[i] {
            proof {
                assert(number@.subrange(0, pc@.len() as int)[i as int] != pc@[i as int]);
            }
            return false;
        }
        i = i + 1;
    }
    proof {
        assert(number@.subrange(0, pc@.len() as int) =~= pc@);
    }
    true
}

/// The CDR service: open records by id, the rates, the billing defaults.
pub struct CdrService {
    pub active_cdrs: CdrMap,
    pub billing_rates: Vec<BillingRate>,
    pub default_billing_config: BillingConfig,
    pub is_running: bool,
}

/// The seconds of a call: from its answer (or, unanswered, its start) to its
/// end, in whole seconds, none when the end is not later.
pub open spec fn call_seconds(start_ms: i64, answer_ms: Option<i64>, end_ms: i64) -> nat {
    let from = match answer_ms { Some(a) => a, None => start_ms };
    if end_ms > from { ((end_ms - from) / 1000) as nat } else { 0 }
}

/// How long an open record may stay open: a day.
pub const MAX_RECORD_AGE_MS: i64 = 86_400_000;

impl CdrService {
    /// The seconds billed for a call of `actual_duration` seconds.
    pub fn calculate_billable_duration(&self, actual_duration: u64, billing_info: &BillingInfo) -> (r: u64)
        requires
            actual_duration + billing_info.billing_increment_seconds <= u64::MAX,
        ensures
            r == billable_seconds(actual_duration as nat, billing_info.billing_increment_seconds as nat,
                billing_info.minimum_charge_seconds as nat),
    {
        let increment = billing_info.billing_increment_seconds as u64;
        let minimum = billing_info.minimum_charge_seconds as u64;
        let duration = if actual_duration > minimum { actual_duration } else { minimum };
        if increment > 0 {
            let top = duration + increment - 1;
            let n = top / increment;
            assert(n * increment <= top) by (nonlinear_arith)
                requires
                    n == top / increment,
                    increment > 0,
            ;
            n * increment
        } else {
            duration
        }
    }

    /// The cost in millionths of `billable_duration` seconds at the record's rate, with tax.
    pub fn calculate_call_cost(&self, billable_duration: u64, billing_info: &BillingInfo) -> (r: u64)
        requires
            call_cost(billable_duration as nat, billing_info.rate_per_minute_micro as nat, self.default_billing_config.tax_rate_ppm as nat)
                <= u64::MAX,
            billable_duration * billing_info.rate_per_minute_micro * (1_000_000 + self.default_billing_config.tax_rate_ppm)
                <= u128::MAX,
        ensures
            r == call_cost(billable_duration as nat, billing_info.rate_per_minute_micro as nat, self.default_billing_config.tax_rate_ppm as nat),
    {
        let tax_rate_ppm = self.default_billing_config.tax_rate_ppm;
        let a: u128 = billable_duration as u128;
        let b: u128 = billing_info.rate_per_minute_micro as u128;
        let c: u128 = 1_000_000 + tax_rate_ppm as u128;
        assert(a * b <= a * b * c) by (nonlinear_arith)
            requires
                c >= 1,
                a >= 0,
                b >= 0,
        ;
        ((a * b * c) / 60_000_000) as u64
    }

    /// The open records by id.
    pub open spec fn records(&self) -> Map<Seq<char>, CallDetailRecord> {
        dash_cdrs(self.active_cdrs)
    }

    /// Each open record is kept under its own id.
    pub open spec fn wf(&self) -> bool {
        forall|k: Seq<char>| #[trigger] self.records().dom().contains(k) ==> self.records()[k].id@ == k
    }

    /// A stopped service with no records and no rates.
    pub fn new(billing_config: BillingConfig) -> (r: Self)
        ensures
            r.wf(),
            r.records() == Map::<Seq<char>, CallDetailRecord>::empty(),
            r.billing_rates@.len() == 0,
            r.default_billing_config == billing_config,
            !r.is_running,
    {
        CdrService { active_cdrs: cdrs_new(), billing_rates: Vec::new(), default_billing_config: billing_config, is_running: false }
    }

    /// Replaces the rates.
    pub fn load_billing_rates(&mut self, rates: Vec<BillingRate>) -> (r: GatewayResult<()>)
        ensures
            r is Ok,
            final(self).billing_rates@ == rates@,
            final(self).active_cdrs == old(self).active_cdrs,
            final(self).default_billing_config == old(self).default_billing_config,
    {
        self.billing_rates = rates;
        Ok(())
    }

    /// The number of open records.
    pub fn get_active_cdr_count(&self) -> (r: usize)
        requires
            self.wf(),
        ensures
            r == self.records().dom().len(),
    {
        cdrs_len(&self.active_cdrs)
    }

    /// The rate for a called number.
    pub fn find_billing_rate(&self, called_number: &str) -> (r: Option<&BillingRate>)
        ensures
            match best_rate(self.billing_rates@, called_number@, self.billing_rates@.len() as int) {
                Some(i) => r == Some(&self.billing_rates@[i]),
                None => r is None,
            },
    {
        let number = chars_of(called_number);
        let rates = &self.billing_rates;
        let mut best: Option<usize> = None;
        let mut best_len: usize = 0;
        let mut i: usize = 0;
        while i < rates.len()
            invariant
                number@ == called_number@,
                i <= rates@.len(),
                match best_rate(rates@, called_number@, i as int) {
                    Some(j) => best == Some(j as usize) && 0 <= j < i && best_len == utf8_len(rates@[j].prefix@),
                    None => best is None && best_len == 0,
                },
            decreases rates@.len() - i,
        {
            let len = byte_len(rates[i].prefix.as_str());
            if prefix_of(&number, rates[i].prefix.as_str()) && len > best_len {
                best = Some(i);
                best_len = len;
            }
            i = i + 1;
        }
        match best {
            Some(j) => Some(&rates[j]),
            None => None,
        }
    }

    /// How a call to `called_number` is billed: by its rate, or by the
    /// defaults (as a local call) when no rate matches; the carrier gets 70%
    /// of the rate and 30% is margin. Returns whether a rate matched.
    pub fn calculate_billing_info(&self, called_number: &str) -> (r: (BillingInfo, bool))
        ensures
            r.1 == best_rate(self.billing_rates@, called_number@, self.billing_rates@.len() as int) is Some,
            billing_info_for(self.billing_rates@, self.default_billing_config, called_number@, r.0),
    {
        let (rate, category, increment, minimum, found): (u64, BillingCategory, u32, u32, bool) = match self.find_billing_rate(called_number) {
            Some(r) => (r.rate_per_minute_micro, r.category, r.billing_increment, r.minimum_charge, true),
            None => (
                self.default_billing_config.default_rate_per_minute_micro,
                BillingCategory::Local,
                self.default_billing_config.default_billing_increment,
                self.default_billing_config.default_minimum_charge,
                false,
            ),
        };
        let carrier: u64 = ((rate as u128) * 7 / 10) as u64;
        let margin: u64 = ((rate as u128) * 3 / 10) as u64;
        (BillingInfo {
            account_id: self.default_billing_config.default_account_id.clone(),
            rate_plan: String::from_str("standard"),
            rate_per_minute_micro: rate,
            currency: self.default_billing_config.default_currency.clone(),
            cost_micro: 0,
            tax_amount_micro: 0,
            billing_increment_seconds: increment,
            minimum_charge_seconds: minimum,
            carrier_cost_micro: carrier,
            margin_micro: margin,
            billing_category: category,
        }, found)
    }

    /// Opens the record of a call under a fresh id, billed by its callee,
    /// with the call's route; an emergency call is marked as such and kept
    /// under the legal retention class.
    pub fn start_call_record(&mut self, call: &B2buaCall, caller_category: CallingPartyCategory, call_type: CallType, now_ms: i64) -> (r: GatewayResult<String>)
        requires
            old(self).wf(),
        ensures
            final(self).wf(),
            final(self).billing_rates == old(self).billing_rates,
            r matches Ok(id) && {
                let c = final(self).records()[id@];
                &&& final(self).records() == old(self).records().insert(id@, c)
                &&& c.call_id@ == call.id@
                &&& c.session_id@ == call.leg_a_session_id@
                &&& c.caller@ == call.caller@
                &&& c.callee@ == call.callee@
                &&& c.original_called_number@ == call.callee@
                &&& c.translated_called_number@ == call.callee@
                &&& c.calling_party_category == caller_category
                &&& c.call_type == call_type
                &&& c.route_type == call.routing_info.route_type
                &&& c.start_ms == now_ms
                &&& c.answer_ms is None && c.end_ms is None
                &&& c.duration_seconds == 0 && c.billable_duration_seconds == 0
                &&& c.disconnect_reason is None
                &&& billing_info_for(old(self).billing_rates@, old(self).default_billing_config, call.callee@, c.billing_info)
                &&& c.routing_info.target_gateway@ == match call.routing_info.target_gateway { Some(g) => g@, None => Seq::empty() }
                &&& c.routing_info.number_translation_applied == call.routing_info.number_translation is Some
                &&& c.compliance_info.emergency_call == (call.routing_info.route_type == RouteType::Emergency)
                &&& c.compliance_info.data_retention_class == if call.routing_info.route_type == RouteType::Emergency {
                    DataRetentionClass::Legal
                } else {
                    DataRetentionClass::Standard
                }
            },
    {
        let id = uuid_text(new_test_id());
        let (billing_info, _found) = self.calculate_billing_info(call.callee.as_str());
        let emergency = call.routing_info.route_type == RouteType::Emergency;
        let gateway = match &call.routing_info.target_gateway {
            Some(g) => g.clone(),
            None => String::new(),
        };
        let cdr = CallDetailRecord {
            id: id.clone(),
            call_id: call.id.clone(),
            session_id: call.leg_a_session_id.clone(),
            caller: call.caller.clone(),
            callee: call.callee.clone(),
            original_called_number: call.callee.clone(),
            translated_called_number: call.callee.clone(),
            calling_party_category: caller_category,
            call_type,
            route_type: call.routing_info.route_type,
            start_ms: now_ms,
            answer_ms: None,
            end_ms: None,
            duration_seconds: 0,
            billable_duration_seconds: 0,
            disconnect_reason: None,
            quality_metrics: QualityMetrics {
                mos_score_centi: None,
                packet_loss_ppm: 0,
                jitter_us: 0,
                latency_us: 0,
                codec_a: String::from_str("unknown"),
                codec_b: String::from_str("unknown"),
                rtp_packets_sent: 0,
                rtp_packets_received: 0,
                rtp_bytes_sent: 0,
                rtp_bytes_received: 0,
                transcoding_used: false,
            },
            billing_info,
            routing_info: RoutingCdrInfo {
                rule_id: String::from_str("unknown"),
                route_type: call.routing_info.route_type,
                target_gateway: gateway,
                number_translation_applied: call.routing_info.number_translation.is_some(),
                routing_decision_time_ms: 0,
                failover_attempts: 0,
            },
            media_info: MediaCdrInfo {
                leg_a_codec: String::from_str("unknown"),
                leg_b_codec: String::from_str("unknown"),
                transcoding_backend: None,
                media_relay_used: false,
                dtmf_events: Vec::new(),
                media_processing_enabled: false,
            },
            compliance_info: ComplianceInfo {
                jurisdiction: String::from_str("US"),
                emergency_call: emergency,
                lawful_intercept_required: false,
                data_retention_class: if emergency { DataRetentionClass::Legal } else { DataRetentionClass::Standard },
                privacy_flags: PrivacyFlags {
                    caller_id_blocked: false,
                    recording_enabled: false,
                    analytics_enabled: true,
                    location_tracking_enabled: false,
                },
            },
        };
        let ghost cv = cdr;
        let key = id.clone();
        cdrs_insert(&mut self.active_cdrs, key, cdr);
        Ok(id)
    }

    /// Notes that a call was answered.
    pub fn update_call_answered(&mut self, cdr_id: &str, now_ms: i64) -> (r: GatewayResult<()>)
        requires
            old(self).wf(),
        ensures
            r is Ok,
            final(self).wf(),
            final(self).records().dom() == old(self).records().dom(),
            old(self).records().dom().contains(cdr_id@) ==> final(self).records()[cdr_id@].answer_ms == Some(now_ms)
                && final(self).records()[cdr_id@].start_ms == old(self).records()[cdr_id@].start_ms
                && final(self).records()[cdr_id@].billing_info == old(self).records()[cdr_id@].billing_info,
            forall|k: Seq<char>| k != cdr_id@ && #[trigger] old(self).records().dom().contains(k)
                ==> final(self).records()[k] == old(self).records()[k],
    {
        match cdrs_remove(&mut self.active_cdrs, cdr_id) {
            Some(mut c) => {
                c.answer_ms = Some(now_ms);
                let ghost cv = c;
                cdrs_insert(&mut self.active_cdrs, text(cdr_id), c);
            },
            None => {
                proof {
                    assert(self.records() =~= old(self).records());
                }
            },
        }
        Ok(())
    }

    /// Notes a call's media: codecs, packet and byte counts of both
    /// directions (capped at their largest value), and the transcoding backend.
    pub fn update_media_info(&mut self, cdr_id: &str, media_stats: &MediaRelayStats, transcoding_backend: Option<&str>) -> (r: GatewayResult<()>)
        requires
            old(self).wf(),
        ensures
            r is Ok,
            final(self).wf(),
            final(self).records().dom() == old(self).records().dom(),
            old(self).records().dom().contains(cdr_id@) ==> {
                let c = final(self).records()[cdr_id@];
                &&& c.quality_metrics.codec_a@ == codec_name(media_stats.codec_a@)
                &&& c.quality_metrics.codec_b@ == codec_name(media_stats.codec_b@)
                &&& c.media_info.leg_a_codec@ == codec_name(media_stats.codec_a@)
                &&& c.media_info.leg_b_codec@ == codec_name(media_stats.codec_b@)
                &&& c.quality_metrics.rtp_packets_sent == crate::media_relay::raised(media_stats.packets_relayed_a_to_b, media_stats.packets_relayed_b_to_a as nat)
                &&& c.quality_metrics.rtp_bytes_sent == crate::media_relay::raised(media_stats.bytes_relayed_a_to_b, media_stats.bytes_relayed_b_to_a as nat)
                &&& c.quality_metrics.transcoding_used == transcoding_backend is Some
                &&& c.media_info.media_relay_used
                &&& c.start_ms == old(self).records()[cdr_id@].start_ms
                &&& c.answer_ms == old(self).records()[cdr_id@].answer_ms
                &&& c.billing_info == old(self).records()[cdr_id@].billing_info
            },
            forall|k: Seq<char>| k != cdr_id@ && #[trigger] old(self).records().dom().contains(k)
                ==> final(self).records()[k] == old(self).records()[k],
    {
        match cdrs_remove(&mut self.active_cdrs, cdr_id) {
            Some(mut c) => {
                let packets = media_stats.packets_relayed_a_to_b.saturating_add(media_stats.packets_relayed_b_to_a);
                let bytes = media_stats.bytes_relayed_a_to_b.saturating_add(media_stats.bytes_relayed_b_to_a);
                c.quality_metrics.codec_a = text(media_stats.codec_a.to_name());
                c.quality_metrics.codec_b = text(media_stats.codec_b.to_name());
                c.quality_metrics.rtp_packets_sent = packets;
                c.quality_metrics.rtp_packets_received = packets;
                c.quality_metrics.rtp_bytes_sent = bytes;
                c.quality_metrics.rtp_bytes_received = bytes;
                c.quality_metrics.packet_loss_ppm = media_stats.packet_loss_ppm;
                c.quality_metrics.transcoding_used = transcoding_backend.is_some();
                c.media_info.leg_a_codec = text(media_stats.codec_a.to_name());
                c.media_info.leg_b_codec = text(media_stats.codec_b.to_name());
                c.media_info.transcoding_backend = match transcoding_backend {
                    Some(b) => Some(text(b)),
                    None => None,
                };
                c.media_info.media_relay_used = true;
                let ghost cv = c;
                cdrs_insert(&mut self.active_cdrs, text(cdr_id), c);
            },
            None => {
                proof {
                    assert(self.records() =~= old(self).records());
                }
            },
        }
        Ok(())
    }

    /// Closes a record: it leaves the open records with its end, reason,
    /// duration, billable duration and cost, and is returned to be stored.
    /// Closing a record that is not open does nothing.
    pub fn finalize_call_record(&mut self, cdr_id: &str, end_ms: i64, disconnect_reason: DisconnectReason) -> (r: GatewayResult<Option<CallDetailRecord>>)
        requires
            old(self).wf(),
            old(self).records().dom().contains(cdr_id@) ==> {
                let c = old(self).records()[cdr_id@];
                let secs = call_seconds(c.start_ms, c.answer_ms, end_ms);
                let billed = billable_seconds(secs, c.billing_info.billing_increment_seconds as nat, c.billing_info.minimum_charge_seconds as nat);
                &&& secs + c.billing_info.billing_increment_seconds <= u64::MAX
                &&& billed * c.billing_info.rate_per_minute_micro * (1_000_000 + old(self).default_billing_config.tax_rate_ppm) <= u128::MAX
                &&& call_cost(billed, c.billing_info.rate_per_minute_micro as nat, old(self).default_billing_config.tax_rate_ppm as nat) <= u64::MAX
            },
        ensures
            final(self).wf(),
            final(self).records() == old(self).records().remove(cdr_id@),
            r matches Ok(o) && (o is Some <==> old(self).records().dom().contains(cdr_id@)),
            r matches Ok(Some(c)) ==> {
                let o = old(self).records()[cdr_id@];
                let secs = call_seconds(o.start_ms, o.answer_ms, end_ms);
                &&& c.id@ == cdr_id@
                &&& c.start_ms == o.start_ms
                &&& c.answer_ms == o.answer_ms
                &&& c.end_ms == Some(end_ms)
                &&& c.disconnect_reason == Some(disconnect_reason)
                &&& c.duration_seconds == secs
                &&& c.billable_duration_seconds == billable_seconds(secs, o.billing_info.billing_increment_seconds as nat,
                    o.billing_info.minimum_charge_seconds as nat)
                &&& c.billing_info.cost_micro == call_cost(c.billable_duration_seconds as nat, o.billing_info.rate_per_minute_micro as nat,
                    old(self).default_billing_config.tax_rate_ppm as nat)
                &&& c.billing_info.rate_per_minute_micro == o.billing_info.rate_per_minute_micro
            },
    {
        match cdrs_remove(&mut self.active_cdrs, cdr_id) {
            Some(mut c) => {
                c.end_ms = Some(end_ms);
                c.disconnect_reason = Some(disconnect_reason);
                let from = match c.answer_ms { Some(a) => a, None => c.start_ms };
                let secs: u64 = if end_ms > from { (((end_ms as i128) - (from as i128)) / 1000) as u64 } else { 0 };
                c.duration_seconds = secs;
                c.billable_duration_seconds = self.calculate_billable_duration(secs, &c.billing_info);
                c.billing_info.cost_micro = self.calculate_call_cost(c.billable_duration_seconds, &c.billing_info);
                Ok(Some(c))
            },
            None => {
                proof {
                    assert(self.records() =~= old(self).records().remove(cdr_id@));
                }
                Ok(None)
            },
        }
    }

    /// The ids of the open records started more than a day before `now_ms`,
    /// each once, in the order the map walks them.
    pub fn stale_record_ids(&self, now_ms: i64) -> (r: Vec<String>)
        ensures
            forall|i: int| 0 <= i < r@.len() ==> self.records().dom().contains(#[trigger] r@[i]@)
                && now_ms - self.records()[r@[i]@].start_ms > MAX_RECORD_AGE_MS,
            forall|k: Seq<char>| #[trigger] self.records().dom().contains(k) && now_ms - self.records()[k].start_ms > MAX_RECORD_AGE_MS
                ==> exists|i: int| 0 <= i < r@.len() && r@[i]@ == k,
            forall|i: int, j: int| 0 <= i < j < r@.len() ==> (#[trigger] r@[i])@ != (#[trigger] r@[j])@,
    {
        let entries = cdrs_starts(&self.active_cdrs);
        let ghost m = self.records();
        let mut r: Vec<String> = Vec::new();
        let ghost mut picked: Seq<int> = Seq::empty();
        let mut i: usize = 0;
        while i < entries.len()
            invariant
                m == self.records(),
                i <= entries@.len(),
                forall|x: int| 0 <= x < entries@.len() ==> m.dom().contains(#[trigger] entries@[x].0@)
                    && entries@[x].1 == m[entries@[x].0@].start_ms,
                forall|x: int, y: int| 0 <= x < y < entries@.len() ==> (#[trigger] entries@[x]).0@ != (#[trigger] entries@[y]).0@,
                picked.len() == r@.len(),
                forall|q: int| 0 <= q < r@.len() ==> 0 <= #[trigger] picked[q] < i && r@[q]@ == entries@[picked[q]].0@
                    && now_ms - entries@[picked[q]].1 > MAX_RECORD_AGE_MS,
                forall|q: int, w: int| 0 <= q < w < r@.len() ==> #[trigger] picked[q] < #[trigger] picked[w],
                forall|x: int| 0 <= x < i && now_ms - (#[trigger] entries@[x]).1 > MAX_RECORD_AGE_MS
                    ==> exists|q: int| 0 <= q < r@.len() && picked[q] == x,
            decreases entries@.len() - i,
        {
            if (now_ms as i128) - (entries[i].1 as i128) > MAX_RECORD_AGE_MS as i128 {
                let ghost before = picked;
                r.push(entries[i].0.clone());
                proof {
                    picked = picked.push(i as int);
                    assert forall|x: int| 0 <= x < i + 1 && now_ms - (#[trigger] entries@[x]).1 > MAX_RECORD_AGE_MS
                        implies exists|q: int| 0 <= q < r@.len() && picked[q] == x by {
                        if x < i {
                            let q = choose|q: int| 0 <= q < before.len() && before[q] == x;
                            assert(picked[q] == x);
                        } else {
                            assert(picked[r@.len() - 1] == x);
                        }
                    }
                }
            }
            i = i + 1;
        }
        proof {
            assert forall|q: int| 0 <= q < r@.len() implies m.dom().contains(#[trigger] r@[q]@)
                && now_ms - m[r@[q]@].start_ms > MAX_RECORD_AGE_MS by {
                let x = picked[q];
                assert(m.dom().contains(entries@[x].0@));
            }
            assert forall|q: int, w: int| 0 <= q < w < r@.len() implies (#[trigger] r@[q])@ != (#[trigger] r@[w])@ by {
                assert(picked[q] < picked[w]);
            }
            assert forall|k: Seq<char>| #[trigger] m.dom().contains(k) && now_ms - m[k].start_ms > MAX_RECORD_AGE_MS
                implies exists|q: int| 0 <= q < r@.len() && r@[q]@ == k by {
                let x = choose|x: int| 0 <= x < entries@.len() && entries@[x].0@ == k;
                let q = choose|q: int| 0 <= q < r@.len() && picked[q] == x;
            }
        }
        r
    }

    /// Closes a record that stayed open too long: it ends at `now_ms`, timed
    /// out, with a day's duration, and is returned to be stored.
    pub fn auto_finalize(&mut self, cdr_id: &str, now_ms: i64) -> (r: Option<CallDetailRecord>)
        requires
            old(self).wf(),
        ensures
            final(self).wf(),
            final(self).records() == old(self).records().remove(cdr_id@),
            r is Some <==> old(self).records().dom().contains(cdr_id@),
            r matches Some(c) ==> c.id@ == cdr_id@ && c.end_ms == Some(now_ms) && c.disconnect_reason == Some(DisconnectReason::Timeout)
                && c.duration_seconds == 86_400 && c.start_ms == old(self).records()[cdr_id@].start_ms,
    {
        match cdrs_remove(&mut self.active_cdrs, cdr_id) {
            Some(mut c) => {
                c.end_ms = Some(now_ms);
                c.disconnect_reason = Some(DisconnectReason::Timeout);
                c.duration_seconds = 86_400;
                Some(c)
            },
            None => {
                proof {
                    assert(self.records() =~= old(self).records().remove(cdr_id@));
                }
                None
            },
        }
    }
}

} // verus!
