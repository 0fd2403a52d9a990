//! Alarm management: raising, clearing, acknowledging and counting alarms.

use vstd::prelude::*;
use crate::error::{GatewayError, GatewayResult};
use crate::keyed::{Keyed, KeyedList};
use crate::text::{join2, text, push_char, str_eq};

verus! {

/// Alarm severity levels
#[derive(Clone, Copy, Debug, PartialEq, Eq, Hash, Structural)]
pub enum AlarmSeverity {
    Critical,
    Major,
    Minor,
    Warning,
    Indeterminate,
    Cleared,
}

/// Alarm types
#[derive(Clone, Copy, Debug, PartialEq, Eq, Hash, Structural)]
pub enum AlarmType {
    Equipment,
    Environmental,
    Processing,
    Quality,
    Communication,
    Security,
}

/// Alarm states
#[derive(Clone, Copy, Debug, PartialEq, Eq, Structural)]
pub enum AlarmState {
    Active,
    Cleared,
    Acknowledged,
    Suppressed,
}

/// Alarm source information
pub struct AlarmSource {
    pub component: String,
    pub instance: String,
    pub location: Option<String>,
}

/// One entry of an alarm's additional information.
pub struct InfoEntry {
    pub key: String,
    pub value: String,
}

impl Keyed for InfoEntry {
    open spec fn key(&self) -> Seq<char> {
        self.key@
    }

    fn key_text(&self) -> (r: &String) {
        &self.key
    }
}

/// Individual alarm entry; times are in milliseconds since the epoch.
pub struct Alarm {
    pub id: String,
    pub sequence_number: u64,
    pub severity: AlarmSeverity,
    pub alarm_type: AlarmType,
    pub state: AlarmState,
    pub source: AlarmSource,
    pub description: String,
    pub additional_info: KeyedList<InfoEntry>,
    pub raised_time_ms: i64,
    pub cleared_time_ms: Option<i64>,
    pub acknowledged_time_ms: Option<i64>,
    pub acknowledged_by: Option<String>,
    pub probable_cause: Option<String>,
    pub proposed_repair_action: Option<String>,
    pub event_count: u32,
    pub last_event_time_ms: i64,
}

impl Keyed for Alarm {
    open spec fn key(&self) -> Seq<char> {
        self.id@
    }

    fn key_text(&self) -> (r: &String) {
        &self.id
    }
}

/// Alarm filter criteria; the time range bounds the raise time, both ends included.
pub struct AlarmFilter {
    pub severity: Option<AlarmSeverity>,
    pub alarm_type: Option<AlarmType>,
    pub state: Option<AlarmState>,
    pub component: Option<String>,
    pub time_range: Option<(i64, i64)>,
}

/// Alarm counts by type.
pub struct TypeCounts {
    pub equipment: u64,
    pub environmental: u64,
    pub processing: u64,
    pub quality: u64,
    pub communication: u64,
    pub security: u64,
}

/// The number of alarms of one component.
pub struct ComponentCount {
    pub component: String,
    pub count: u64,
}

impl Keyed for ComponentCount {
    open spec fn key(&self) -> Seq<char> {
        self.component@
    }

    fn key_text(&self) -> (r: &String) {
        &self.component
    }
}

/// Alarm statistics
pub struct AlarmStatistics {
    pub total_alarms: u64,
    pub active_alarms: u64,
    pub critical_alarms: u64,
    pub major_alarms: u64,
    pub minor_alarms: u64,
    pub warning_alarms: u64,
    pub cleared_alarms: u64,
    pub acknowledged_alarms: u64,
    pub suppressed_alarms: u64,
    pub alarms_by_type: TypeCounts,
    pub alarms_by_component: KeyedList<ComponentCount>,
}

/// Alarm configuration; timeouts are in seconds.
pub struct AlarmConfig {
    pub max_active_alarms: usize,
    pub max_history_size: usize,
    pub auto_acknowledge_timeout_secs: Option<u64>,
    pub alarm_aging_timeout_secs: u64,
    pub enable_notification: bool,
    pub notification_endpoints: Vec<String>,
}

impl Default for AlarmConfig {
    /// Ten thousand active alarms, fifty thousand in history, aging after 30 days.
    fn default() -> (r: Self)
        ensures
            r.max_active_alarms == 10000,
            r.max_history_size == 50000,
            r.auto_acknowledge_timeout_secs is None,
            r.alarm_aging_timeout_secs == 86400 * 30,
            r.enable_notification,
            r.notification_endpoints@.len() == 0,
    {
        AlarmConfig {
            max_active_alarms: 10000,
            max_history_size: 50000,
            auto_acknowledge_timeout_secs: None,
            alarm_aging_timeout_secs: 86400 * 30,
            enable_notification: true,
            notification_endpoints: Vec::new(),
        }
    }
}

/// The number of alarms of `s` that satisfy `p`.
pub open spec fn count_matching(s: Seq<Alarm>, p: spec_fn(Alarm) -> bool) -> nat
    decreases s.len(),
{
    if s.len() == 0 {
        0
    } else {
        count_matching(s.drop_last(), p) + if p(s.last()) { 1nat } else { 0nat }
    }
}

proof fn lemma_count_le(s: Seq<Alarm>, p: spec_fn(Alarm) -> bool)
    ensures
        count_matching(s, p) <= s.len(),
    decreases s.len(),
{
    if s.len() > 0 {
        lemma_count_le(s.drop_last(), p);
    }
}

proof fn lemma_kind_counts(s: Seq<Alarm>)
    ensures
        count_matching(s, of_type(AlarmType::Equipment)) + count_matching(s, of_type(AlarmType::Environmental))
            + count_matching(s, of_type(AlarmType::Processing)) + count_matching(s, of_type(AlarmType::Quality))
            + count_matching(s, of_type(AlarmType::Communication)) + count_matching(s, of_type(AlarmType::Security))
            == s.len(),
        count_matching(s, has_severity(AlarmSeverity::Critical)) + count_matching(s, has_severity(AlarmSeverity::Major))
            + count_matching(s, has_severity(AlarmSeverity::Minor)) + count_matching(s, has_severity(AlarmSeverity::Warning))
            <= s.len(),
        count_matching(s, in_state(AlarmState::Acknowledged)) + count_matching(s, in_state(AlarmState::Suppressed))
            <= s.len(),
    decreases s.len(),
{
    if s.len() > 0 {
        lemma_kind_counts(s.drop_last());
    }
}

/// Whether an alarm has a severity.
pub open spec fn has_severity(sev: AlarmSeverity) -> spec_fn(Alarm) -> bool {
    |a: Alarm| a.severity == sev
}

/// Whether an alarm is in a state.
pub open spec fn in_state(st: AlarmState) -> spec_fn(Alarm) -> bool {
    |a: Alarm| a.state == st
}

/// Whether an alarm has a type.
pub open spec fn of_type(t: AlarmType) -> spec_fn(Alarm) -> bool {
    |a: Alarm| a.alarm_type == t
}

/// Whether an alarm comes from a component.
pub open spec fn of_component(c: Seq<char>) -> spec_fn(Alarm) -> bool {
    |a: Alarm| a.source.component@ == c
}

/// Whether `stats` holds the counts of the active alarms `active` and of the
/// `history_len` alarms in history.
pub open spec fn statistics_of(stats: AlarmStatistics, active: Seq<Alarm>, history_len: nat) -> bool {
    &&& stats.active_alarms == active.len()
    &&& stats.critical_alarms == count_matching(active, has_severity(AlarmSeverity::Critical))
    &&& stats.major_alarms == count_matching(active, has_severity(AlarmSeverity::Major))
    &&& stats.minor_alarms == count_matching(active, has_severity(AlarmSeverity::Minor))
    &&& stats.warning_alarms == count_matching(active, has_severity(AlarmSeverity::Warning))
    &&& stats.acknowledged_alarms == count_matching(active, in_state(AlarmState::Acknowledged))
    &&& stats.suppressed_alarms == count_matching(active, in_state(AlarmState::Suppressed))
    &&& stats.alarms_by_type.equipment == count_matching(active, of_type(AlarmType::Equipment))
    &&& stats.alarms_by_type.environmental == count_matching(active, of_type(AlarmType::Environmental))
    &&& stats.alarms_by_type.processing == count_matching(active, of_type(AlarmType::Processing))
    &&& stats.alarms_by_type.quality == count_matching(active, of_type(AlarmType::Quality))
    &&& stats.alarms_by_type.communication == count_matching(active, of_type(AlarmType::Communication))
    &&& stats.alarms_by_type.security == count_matching(active, of_type(AlarmType::Security))
    &&& stats.alarms_by_component.wf()
    &&& forall|c: Seq<char>| #[trigger] stats.alarms_by_component.view().dom().contains(c)
        <==> count_matching(active, of_component(c)) > 0
    &&& forall|c: Seq<char>| #[trigger] stats.alarms_by_component.view().dom().contains(c)
        ==> stats.alarms_by_component.view()[c].count == count_matching(active, of_component(c))
    &&& stats.cleared_alarms == history_len
    &&& stats.total_alarms == (if active.len() + history_len > u64::MAX { u64::MAX as int } else { (active.len() + history_len) as int })
}

/// Whether an alarm passes a filter: every criterion that is set must hold.
pub open spec fn filter_accepts(a: Alarm, f: AlarmFilter) -> bool {
    &&& (f.severity matches Some(s) ==> a.severity == s)
    &&& (f.alarm_type matches Some(t) ==> a.alarm_type == t)
    &&& (f.state matches Some(st) ==> a.state == st)
    &&& (f.component matches Some(c) ==> a.source.component@ == c@)
    &&& (f.time_range matches Some((start, end)) ==> start <= a.raised_time_ms <= end)
}

/// The printed name of a severity, such as `CRITICAL`.
pub fn severity_to_string(severity: &AlarmSeverity) -> (r: &'static str)
    ensures
        r@ == match severity {
            AlarmSeverity::Critical => "CRITICAL"@,
            AlarmSeverity::Major => "MAJOR"@,
            AlarmSeverity::Minor => "MINOR"@,
            AlarmSeverity::Warning => "WARNING"@,
            AlarmSeverity::Indeterminate => "INDETERMINATE"@,
            AlarmSeverity::Cleared => "CLEARED"@,
        },
{
    match severity {
        AlarmSeverity::Critical => "CRITICAL",
        AlarmSeverity::Major => "MAJOR",
        AlarmSeverity::Minor => "MINOR",
        AlarmSeverity::Warning => "WARNING",
        AlarmSeverity::Indeterminate => "INDETERMINATE",
        AlarmSeverity::Cleared => "CLEARED",
    }
}

/// Whether an alarm passes a filter.
pub fn matches_filter(alarm: &Alarm, filter: &AlarmFilter) -> (r: bool)
    ensures
        r == filter_accepts(*alarm, *filter),
{
    match filter.severity {
        Some(s) => {
            if alarm.severity != s {
                return false;
            }
        },
        None => {},
    }
    match filter.alarm_type {
        Some(t) => {
            if alarm.alarm_type != t {
                return false;
            }
        },
        None => {},
    }
    match filter.state {
        Some(st) => {
            if alarm.state != st {
                return false;
            }
        },
        None => {},
    }
    match &filter.component {
        Some(c) => {
            if !(alarm.source.component == *c) {
                return false;
            }
        },
        None => {},
    }
    match filter.time_range {
        Some((start, end)) => {
            if alarm.raised_time_ms < start || alarm.raised_time_ms > end {
                return false;
            }
        },
        None => {},
    }
    true
}

/// The lower-case hexadecimal digit of a value below sixteen.
pub open spec fn hex_digit(d: nat) -> char {
    if d < 10 {
        crate::text::digit_char(d)
    } else if d == 10 { 'a' } else if d == 11 { 'b' } else if d == 12 { 'c' } else if d == 13 { 'd' }
    else if d == 14 { 'e' } else { 'f' }
}

/// The eight-digit lower-case hexadecimal text of a 32-bit value.
pub open spec fn hex8(v: u32) -> Seq<char> {
    Seq::new(8, |i: int| hex_digit(((v as nat) / pow16((7 - i) as nat)) % 16))
}

/// Sixteen to the power `n`.
pub open spec fn pow16(n: nat) -> nat
    decreases n,
{
    if n == 0 { 1 } else { 16 * pow16((n - 1) as nat) }
}

/// The value of a lower-case hexadecimal digit.
pub open spec fn hex_value(c: char) -> int {
    if '0' <= c && c <= '9' { (c as int) - ('0' as int) } else { (c as int) - ('a' as int) + 10 }
}

/// The number written by a string of hexadecimal digits.
pub open spec fn hex_number(s: Seq<char>) -> int
    decreases s.len(),
{
    if s.len() == 0 { 0 } else { hex_number(s.drop_last()) * 16 + hex_value(s.last()) }
}

proof fn lemma_hex_digit_value(d: nat)
    requires
        d < 16,
    ensures
        hex_value(hex_digit(d)) == d,
        ('0' <= hex_digit(d) && hex_digit(d) <= '9') || ('a' <= hex_digit(d) && hex_digit(d) <= 'f'),
{
    if d == 0 { } else if d == 1 { } else if d == 2 { } else if d == 3 { } else if d == 4 { } else if d == 5 { }
    else if d == 6 { } else if d == 7 { } else if d == 8 { } else if d == 9 { }
}

proof fn lemma_pow16_pos(n: nat)
    ensures
        pow16(n) > 0,
    decreases n,
{
    if n > 0 {
        lemma_pow16_pos((n - 1) as nat);
    }
}

/// The eight-digit hexadecimal text of a value is made of lower-case
/// hexadecimal digits and reads back as the value, so different values give
/// different texts.
pub proof fn law_hex8_reads_back(v: u32, w: u32)
    ensures
        hex8(v).len() == 8,
        forall|i: int| 0 <= i < 8 ==> ('0' <= #[trigger] hex8(v)[i] && hex8(v)[i] <= '9') || ('a' <= hex8(v)[i] && hex8(v)[i]
            <= 'f'),
        hex_number(hex8(v)) == v,
        hex8(v) == hex8(w) ==> v == w,
{
    lemma_hex8_prefix(v, 8);
    lemma_hex8_prefix(w, 8);
    assert(hex8(v).take(8) =~= hex8(v));
    assert(hex8(w).take(8) =~= hex8(w));
    assert(pow16(0) == 1);
    assert((v as nat) / 1 == v as nat);
    assert((w as nat) / 1 == w as nat);
    assert(hex_number(hex8(v)) == v);
    assert forall|i: int| 0 <= i < 8 implies ('0' <= #[trigger] hex8(v)[i] && hex8(v)[i] <= '9') || ('a' <= hex8(v)[i]
        && hex8(v)[i] <= 'f') by {
        lemma_pow16_pos((7 - i) as nat);
        let d = ((v as nat) / pow16((7 - i) as nat)) % 16;
        lemma_hex_digit_value(d);
    }
}

proof fn lemma_hex8_prefix(v: u32, k: int)
    requires
        0 <= k <= 8,
    ensures
        hex_number(hex8(v).take(k)) == (v as nat) / pow16((8 - k) as nat),
    decreases k,
{
    if k == 0 {
        assert(hex8(v).take(0) =~= Seq::<char>::empty());
        lemma_pow16_8();
        assert((v as nat) < pow16(8));
        assert((v as nat) / pow16(8) == 0) by {
            vstd::arithmetic::div_mod::lemma_basic_div(v as int, pow16(8) as int);
        }
    } else {
        lemma_hex8_prefix(v, k - 1);
        let s = hex8(v).take(k);
        assert(s.drop_last() =~= hex8(v).take(k - 1));
        let p = pow16((8 - k) as nat);
        lemma_pow16_pos((8 - k) as nat);
        assert(pow16((8 - (k - 1)) as nat) == 16 * p);
        let d = ((v as nat) / p) % 16;
        assert(s.last() == hex_digit(d));
        lemma_hex_digit_value(d);
        let x = (v as nat) / p;
        vstd::arithmetic::div_mod::lemma_div_denominator(v as int, p as int, 16);
        assert((v as nat) / (16 * p) == x / 16) by {
            assert(p * 16 == 16 * p);
        }
        vstd::arithmetic::div_mod::lemma_fundamental_div_mod(x as int, 16);
    }
}

proof fn lemma_pow16_8()
    ensures
        pow16(8) == 0x1_0000_0000,
{
    reveal_with_fuel(pow16, 9);
}

pub(crate) fn hex_char(d: u32) -> (r: char)
    requires
        d < 16,
    ensures
        r == hex_digit(d as nat),
{
    if d < 10 {
        let c = ((d as u8) + 48) as char;
        assert(c == crate::text::digit_char(d as nat)) by {
            assert(d == 0 || d == 1 || d == 2 || d == 3 || d == 4 || d == 5 || d == 6 || d == 7 || d == 8 || d == 9);
        }
        c
    } else if d == 10 { 'a' } else if d == 11 { 'b' } else if d == 12 { 'c' } else if d == 13 { 'd' } else if d == 14 { 'e' } else { 'f' }
}

/// Renders a 32-bit value as eight lower-case hexadecimal digits.
pub fn hex8_text(v: u32) -> (r: String)
    ensures
        r@ == hex8(v),
{
    let mut r = String::new();
    let mut i: u32 = 0;
    let mut div: u32 = 0x1000_0000;
    proof {
        reveal_with_fuel(pow16, 8);
    }
    while i < 8
        invariant
            i <= 8,
            div as nat == pow16((7 - i) as nat) || i == 8,
            r@.len() == i,
            forall|j: int| 0 <= j < i ==> r@[j] == hex8(v)[j],
        decreases 8 - i,
    {
        proof {
            assert(pow16(0) == 1);
            assert(pow16(1) == 16);
            assert(pow16(2) == 256);
            assert(pow16(3) == 4096);
            assert(pow16(4) == 65536);
            assert(pow16(5) == 1048576);
            assert(pow16(6) == 16777216);
            assert(pow16(7) == 268435456);
        }
        let d = (v / div) % 16;
        let c = hex_char(d);
        push_char(&mut r, c);
        i = i + 1;
        if i < 8 {
            div = div / 16;
        }
    }
    assert(r@ =~= hex8(v));
    r
}

/// What std's `DefaultHasher` (made by `new`, which the documentation says
/// gives equal hashers each time) yields for a text.
pub uninterp spec fn text_hash_of(s: Seq<char>) -> u64;

/// Hashes a text with a fresh `std::collections::hash_map::DefaultHasher`.
/// The value is named, not stated: std leaves the algorithm open, and only
/// promises that fresh hashers agree.
#[verifier::external_body]
fn text_hash(s: &str) -> (r: u64)
    ensures
        r == text_hash_of(s@),
{
    let mut hasher = std::collections::hash_map::DefaultHasher::new();
    std::hash::Hash::hash(s, &mut hasher);
    std::hash::Hasher::finish(&hasher)
}

/// The low 32 bits of a 64-bit value.
pub open spec fn low32(v: u64) -> u32 {
    (v % 0x1_0000_0000) as u32
}

fn low32_of(v: u64) -> (r: u32)
    ensures
        r == low32(v),
{
    (v % 0x1_0000_0000) as u32
}

/// What std's `Debug` writes for a text: the text in double quotes, with
/// quotes, backslashes and control characters escaped.
pub uninterp spec fn debug_text_of(s: Seq<char>) -> Seq<char>;

/// Writes a text as std's `Debug` for `str` does (`format!("{:?}", s)`). The
/// value is named, not stated: std's documentation leaves the exact escapes
/// open, and the text depends on the argument alone.
#[verifier::external_body]
fn debug_text(s: &str) -> (r: String)
    ensures
        r@ == debug_text_of(s@),
{
    format!("{:?}", s)
}

/// One entry of additional information as a map's `Debug` writes it:
/// `"key": "value"`.
pub open spec fn info_entry_text(e: InfoEntry) -> Seq<char> {
    debug_text_of(e.key@) + ": "@ + debug_text_of(e.value@)
}

/// The entries of additional information, separated by `, `.
pub open spec fn info_entries_text(s: Seq<InfoEntry>) -> Seq<char>
    decreases s.len(),
{
    if s.len() == 0 {
        Seq::empty()
    } else if s.len() == 1 {
        info_entry_text(s[0])
    } else {
        info_entries_text(s.drop_last()) + ", "@ + info_entry_text(s.last())
    }
}

/// The text of additional information that goes into an alarm's hash, in the
/// form of a map's `Debug`: `{"key": "value", ...}`, the entries in order.
pub open spec fn info_text(s: Seq<InfoEntry>) -> Seq<char> {
    "{"@ + info_entries_text(s) + "}"@
}

/// The text that is hashed for an alarm: its description, then its additional information.
pub open spec fn hash_input(description: Seq<char>, info: Option<KeyedList<InfoEntry>>) -> Seq<char> {
    match info {
        Some(l) => description + info_text(l.seq()),
        None => description,
    }
}

/// The id of an alarm: `<component>-<instance>-<8 hex digits of the hash>`.
pub open spec fn alarm_key(source: AlarmSource, description: Seq<char>, info: Option<KeyedList<InfoEntry>>) -> Seq<char> {
    source.component@ + "-"@ + source.instance@ + "-"@ + hex8(low32(text_hash_of(hash_input(description, info))))
}

/// The id of an alarm: `<component>-<instance>-<8 hex digits>`, the digits
/// being a hash of the description and the additional information.
pub fn alarm_id(source: &AlarmSource, description: &str, info: &Option<KeyedList<InfoEntry>>) -> (r: String)
    ensures
        r@ == alarm_key(*source, description@, *info),
{
    let mut hashed = text(description);
    match info {
        Some(list) => {
            let items = list.items();
            let ghost s = items@;
            let mut entries = String::new();
            let mut i: usize = 0;
            proof {
                assert(s.subrange(0, 0) =~= Seq::<InfoEntry>::empty());
            }
            while i < items.len()
                invariant
                    s == items@,
                    s == list.seq(),
                    i <= s.len(),
                    hashed@ == description@,
                    entries@ == info_entries_text(s.subrange(0, i as int)),
                decreases s.len() - i,
            {
                proof {
                    assert(s.subrange(0, i as int + 1).drop_last() =~= s.subrange(0, i as int));
                }
                if i > 0 {
                    entries.append(", ");
                }
                let k = debug_text(items[i].key.as_str());
                entries.append(k.as_str());
                entries.append(": ");
                let v = debug_text(items[i].value.as_str());
                entries.append(v.as_str());
                i = i + 1;
                proof {
                    let t = s.subrange(0, i as int);
                    if i == 1 {
                        assert(t.len() == 1 && t[0] == s[0]);
                    }
                    assert(entries@ =~= info_entries_text(t));
                }
            }
            proof {
                assert(s.subrange(0, s.len() as int) =~= s);
            }
            hashed.append("{");
            hashed.append(entries.as_str());
            hashed.append("}");
            proof {
                assert(hashed@ =~= description@ + info_text(s));
            }
        },
        None => {},
    }
    let h = low32_of(text_hash(hashed.as_str()));
    let mut r = join2(source.component.as_str(), "-");
    r.append(source.instance.as_str());
    r.append("-");
    let hx = hex8_text(h);
    r.append(hx.as_str());
    r
}

/// The alarm manager: active alarms by id, the history of cleared alarms
/// (oldest first), the next sequence number and the latest statistics.
pub struct AlarmManager {
    pub config: AlarmConfig,
    pub active_alarms: KeyedList<Alarm>,
    pub alarm_history: Vec<Alarm>,
    pub sequence_counter: u64,
    pub statistics: AlarmStatistics,
}

fn zero_statistics() -> (r: AlarmStatistics)
    ensures
        statistics_of(r, Seq::<Alarm>::empty(), 0),
{
    let r = AlarmStatistics {
        total_alarms: 0,
        active_alarms: 0,
        critical_alarms: 0,
        major_alarms: 0,
        minor_alarms: 0,
        warning_alarms: 0,
        cleared_alarms: 0,
        acknowledged_alarms: 0,
        suppressed_alarms: 0,
        alarms_by_type: TypeCounts { equipment: 0, environmental: 0, processing: 0, quality: 0, communication: 0, security: 0 },
        alarms_by_component: KeyedList::new(),
    };
    r
}

impl AlarmManager {
    /// The manager is well formed: ids are distinct, the history is within its
    /// bound and the statistics count the current alarms.
    pub open spec fn wf(&self) -> bool {
        &&& self.active_alarms.wf()
        &&& forall|k: Seq<char>| #[trigger] self.active().dom().contains(k) ==> self.active()[k].additional_info.wf()
        &&& self.alarm_history@.len() <= self.config.max_history_size
        &&& statistics_of(self.statistics, self.active_alarms.seq(), self.alarm_history@.len())
    }

    /// The active alarms by id.
    pub open spec fn active(&self) -> Map<Seq<char>, Alarm> {
        self.active_alarms.view()
    }

    /// A manager with no alarms; sequence numbers start at one.
    pub fn new(config: AlarmConfig) -> (r: Self)
        ensures
            r.wf(),
            r.config == config,
            r.active() == Map::<Seq<char>, Alarm>::empty(),
            r.alarm_history@.len() == 0,
            r.sequence_counter == 1,
            r.statistics.total_alarms == 0,
            r.statistics.active_alarms == 0,
    {
        AlarmManager {
            config,
            active_alarms: KeyedList::new(),
            alarm_history: Vec::new(),
            sequence_counter: 1,
            statistics: zero_statistics(),
        }
    }

    /// Counts the current alarms.
    fn compute_statistics(&self) -> (r: AlarmStatistics)
        requires
            self.active_alarms.wf(),
        ensures
            statistics_of(r, self.active_alarms.seq(), self.alarm_history@.len()),
    {
        let items = self.active_alarms.items();
        let ghost s = items@;
        let mut critical: u64 = 0;
        let mut major: u64 = 0;
        let mut minor: u64 = 0;
        let mut warning: u64 = 0;
        let mut acked: u64 = 0;
        let mut suppressed: u64 = 0;
        let mut t = TypeCounts { equipment: 0, environmental: 0, processing: 0, quality: 0, communication: 0, security: 0 };
        let mut comps: KeyedList<ComponentCount> = KeyedList::new();
        let mut i: usize = 0;
        proof {
            assert(s.subrange(0, 0) =~= Seq::<Alarm>::empty());
        }
        while i < items.len()
            invariant
                s == items@,
                i <= s.len(),
                critical == count_matching(s.subrange(0, i as int), has_severity(AlarmSeverity::Critical)),
                major == count_matching(s.subrange(0, i as int), has_severity(AlarmSeverity::Major)),
                minor == count_matching(s.subrange(0, i as int), has_severity(AlarmSeverity::Minor)),
                warning == count_matching(s.subrange(0, i as int), has_severity(AlarmSeverity::Warning)),
                acked == count_matching(s.subrange(0, i as int), in_state(AlarmState::Acknowledged)),
                suppressed == count_matching(s.subrange(0, i as int), in_state(AlarmState::Suppressed)),
                t.equipment == count_matching(s.subrange(0, i as int), of_type(AlarmType::Equipment)),
                t.environmental == count_matching(s.subrange(0, i as int), of_type(AlarmType::Environmental)),
                t.processing == count_matching(s.subrange(0, i as int), of_type(AlarmType::Processing)),
                t.quality == count_matching(s.subrange(0, i as int), of_type(AlarmType::Quality)),
                t.communication == count_matching(s.subrange(0, i as int), of_type(AlarmType::Communication)),
                t.security == count_matching(s.subrange(0, i as int), of_type(AlarmType::Security)),
                comps.wf(),
                forall|c: Seq<char>| #[trigger] comps.view().dom().contains(c) <==> count_matching(
                    s.subrange(0, i as int),
                    of_component(c),
                ) > 0,
                forall|c: Seq<char>| #[trigger] comps.view().dom().contains(c) ==> comps.view()[c].count == count_matching(
                    s.subrange(0, i as int),
                    of_component(c),
                ),
            decreases s.len() - i,
        {
            let a = &items[i];
            let ghost pre = s.subrange(0, i as int);
            let ghost post = s.subrange(0, i as int + 1);
            proof {
                assert(post.drop_last() =~= pre);
                assert(post.last() == s[i as int]);
                lemma_count_le(pre, has_severity(AlarmSeverity::Critical));
                lemma_count_le(pre, has_severity(AlarmSeverity::Major));
                lemma_count_le(pre, has_severity(AlarmSeverity::Minor));
                lemma_count_le(pre, has_severity(AlarmSeverity::Warning));
                lemma_count_le(pre, in_state(AlarmState::Acknowledged));
                lemma_count_le(pre, in_state(AlarmState::Suppressed));
                lemma_count_le(pre, of_type(AlarmType::Equipment));
                lemma_count_le(pre, of_type(AlarmType::Environmental));
                lemma_count_le(pre, of_type(AlarmType::Processing));
                lemma_count_le(pre, of_type(AlarmType::Quality));
                lemma_count_le(pre, of_type(AlarmType::Communication));
                lemma_count_le(pre, of_type(AlarmType::Security));
                lemma_count_le(pre, of_component(a.source.component@));
            }
            match a.severity {
                AlarmSeverity::Critical => { critical = critical + 1; },
                AlarmSeverity::Major => { major = major + 1; },
                AlarmSeverity::Minor => { minor = minor + 1; },
                AlarmSeverity::Warning => { warning = warning + 1; },
                _ => {},
            }
            match a.state {
                AlarmState::Acknowledged => { acked = acked + 1; },
                AlarmState::Suppressed => { suppressed = suppressed + 1; },
                _ => {},
            }
            match a.alarm_type {
                AlarmType::Equipment => { t.equipment = t.equipment + 1; },
                AlarmType::Environmental => { t.environmental = t.environmental + 1; },
                AlarmType::Processing => { t.processing = t.processing + 1; },
                AlarmType::Quality => { t.quality = t.quality + 1; },
                AlarmType::Communication => { t.communication = t.communication + 1; },
                AlarmType::Security => { t.security = t.security + 1; },
            }
            let ghost comp = a.source.component@;
            let cur: u64 = match comps.get(a.source.component.as_str()) {
                Some(e) => e.count,
                None => 0,
            };
            proof {
                if !comps.view().dom().contains(comp) {
                    assert(count_matching(pre, of_component(comp)) == 0);
                }
            }
            comps.insert(ComponentCount { component: a.source.component.clone(), count: cur + 1 });
            proof {
                assert forall|c: Seq<char>| #[trigger] comps.view().dom().contains(c) <==> count_matching(post, of_component(c)) > 0 by {
                    if c != comp {
                        assert(count_matching(post, of_component(c)) == count_matching(pre, of_component(c)));
                    }
                }
                assert forall|c: Seq<char>| #[trigger] comps.view().dom().contains(c) implies comps.view()[c].count == count_matching(
                    post,
                    of_component(c),
                ) by {
                    if c != comp {
                        assert(count_matching(post, of_component(c)) == count_matching(pre, of_component(c)));
                    }
                }
            }
            i = i + 1;
        }
        proof {
            assert(s.subrange(0, s.len() as int) =~= s);
        }
        let active = items.len() as u64;
        let cleared = self.alarm_history.len() as u64;
        AlarmStatistics {
            total_alarms: active.saturating_add(cleared),
            active_alarms: active,
            critical_alarms: critical,
            major_alarms: major,
            minor_alarms: minor,
            warning_alarms: warning,
            cleared_alarms: cleared,
            acknowledged_alarms: acked,
            suppressed_alarms: suppressed,
            alarms_by_type: t,
            alarms_by_component: comps,
        }
    }

    /// The alarm with id `alarm_id`, if it is active.
    pub fn get_alarm(&self, alarm_id: &str) -> (r: Option<&Alarm>)
        requires
            self.wf(),
        ensures
            r is Some <==> self.active().dom().contains(alarm_id@),
            r matches Some(a) ==> *a == self.active()[alarm_id@],
    {
        self.active_alarms.get(alarm_id)
    }

    /// The active alarms that pass a filter.
    pub fn get_filtered_alarms(&self, filter: &AlarmFilter) -> (r: Vec<&Alarm>)
        requires
            self.wf(),
        ensures
            r@.map_values(|x: &Alarm| *x) == self.active_alarms.seq().filter(|a: Alarm| filter_accepts(a, *filter)),
    {
        let items = self.active_alarms.items();
        let ghost s = items@;
        let mut r: Vec<&Alarm> = Vec::new();
        let mut i: usize = 0;
        while i < items.len()
            invariant
                s == items@,
                i <= s.len(),
                r@.map_values(|x: &Alarm| *x) == s.subrange(0, i as int).filter(|a: Alarm| filter_accepts(a, *filter)),
            decreases s.len() - i,
        {
            proof {
                let post = s.subrange(0, i as int + 1);
                assert(post.drop_last() =~= s.subrange(0, i as int));
                reveal_with_fuel(Seq::filter, 1);
            }
            if matches_filter(&items[i], filter) {
                r.push(&items[i]);
            }
            i = i + 1;
        }
        proof {
            assert(s.subrange(0, s.len() as int) =~= s);
        }
        r
    }

    /// The cleared alarms, newest first, at most `limit` of them.
    pub fn get_alarm_history(&self, limit: Option<usize>) -> (r: Vec<&Alarm>)
        ensures
            r@.len() == match limit {
                Some(n) => if n < self.alarm_history@.len() { n as int } else { self.alarm_history@.len() as int },
                None => self.alarm_history@.len() as int,
            },
            forall|i: int| 0 <= i < r@.len() ==> *r@[i] == self.alarm_history@[self.alarm_history@.len() - 1 - i],
    {
        let n = self.alarm_history.len();
        let take = match limit {
            Some(l) => if l < n { l } else { n },
            None => n,
        };
        let mut r: Vec<&Alarm> = Vec::new();
        let mut i: usize = 0;
        while i < take
            invariant
                take <= n,
                n == self.alarm_history@.len(),
                i <= take,
                r@.len() == i,
                forall|j: int| 0 <= j < i ==> *r@[j] == self.alarm_history@[n - 1 - j],
            decreases take - i,
        {
            r.push(&self.alarm_history[n - 1 - i]);
            i = i + 1;
        }
        r
    }

    /// Raises an alarm. Its id is `<component>-<instance>-<hash>`; when an
    /// alarm with that id is active it is raised again: its event count grows,
    /// its severity and last event time are replaced and the new additional
    /// information is merged in. Otherwise a new active alarm is made, unless
    /// the limit of active alarms is reached. Each call takes a sequence number.
    pub fn raise_alarm(
        &mut self,
        severity: AlarmSeverity,
        alarm_type: AlarmType,
        source: AlarmSource,
        description: String,
        additional_info: Option<KeyedList<InfoEntry>>,
        probable_cause: Option<String>,
        proposed_repair_action: Option<String>,
        now_ms: i64,
    ) -> (r: GatewayResult<String>)
        requires
            old(self).wf(),
            old(self).sequence_counter < u64::MAX,
            additional_info matches Some(l) ==> l.wf(),
        ensures
            final(self).wf(),
            final(self).sequence_counter == old(self).sequence_counter + 1,
            final(self).alarm_history@ == old(self).alarm_history@,
            final(self).config == old(self).config,
            r matches Ok(id) ==> id@ == alarm_key(source, description@, additional_info),
            ({
                let id = alarm_key(source, description@, additional_info);
                &&& old(self).active().dom().contains(id) ==> {
                    &&& r is Ok
                    &&& final(self).active().dom() == old(self).active().dom()
                    &&& final(self).active()[id].event_count == (if old(self).active()[id].event_count == u32::MAX { u32::MAX } else {
                        (old(self).active()[id].event_count + 1) as u32 })
                    &&& final(self).active()[id].severity == severity
                    &&& final(self).active()[id].last_event_time_ms == now_ms
                    &&& final(self).active()[id].sequence_number == old(self).active()[id].sequence_number
                    &&& final(self).active()[id].state == old(self).active()[id].state
                    &&& (additional_info matches Some(l) ==> final(self).active()[id].additional_info.view()
                        == old(self).active()[id].additional_info.view().union_prefer_right(l.view()))
                    &&& (additional_info is None ==> final(self).active()[id].additional_info.view()
                        == old(self).active()[id].additional_info.view())
                    &&& forall|k: Seq<char>| k != id && old(self).active().dom().contains(k) ==> final(self).active()[k] == old(self).active()[k]
                }
                &&& !old(self).active().dom().contains(id) && old(self).active().dom().len() < old(self).config.max_active_alarms ==> {
                    &&& r is Ok
                    &&& final(self).active().dom() == old(self).active().dom().insert(id)
                    &&& final(self).active()[id].sequence_number == old(self).sequence_counter
                    &&& final(self).active()[id].severity == severity
                    &&& final(self).active()[id].alarm_type == alarm_type
                    &&& final(self).active()[id].state == AlarmState::Active
                    &&& final(self).active()[id].description@ == description@
                    &&& final(self).active()[id].source.component@ == source.component@
                    &&& final(self).active()[id].event_count == 1
                    &&& final(self).active()[id].raised_time_ms == now_ms
                    &&& final(self).active()[id].cleared_time_ms is None
                    &&& forall|k: Seq<char>| k != id && old(self).active().dom().contains(k) ==> final(self).active()[k] == old(self).active()[k]
                }
                &&& !old(self).active().dom().contains(id) && old(self).active().dom().len() >= old(self).config.max_active_alarms ==> {
                    &&& r matches Err(e) && e.kind() == 1 && e.message() == "Maximum active alarms limit reached"@
                    &&& final(self).active() == old(self).active()
                    &&& final(self).statistics == old(self).statistics
                }
            }),
    {
        let sequence = self.sequence_counter;
        self.sequence_counter = self.sequence_counter + 1;
        let id = alarm_id(&source, description.as_str(), &additional_info);
        match self.active_alarms.remove(id.as_str()) {
            Some(mut existing) => {
                let ghost before = existing;
                existing.event_count = existing.event_count.saturating_add(1);
                existing.last_event_time_ms = now_ms;
                existing.severity = severity;
                match additional_info {
                    Some(info) => {
                        merge_info(&mut existing.additional_info, info);
                    },
                    None => {},
                }
                proof {
                    assert(existing.id@ == id@);
                }
                self.active_alarms.insert(existing);
                proof {
                    assert(self.active() =~= old(self).active().remove(id@).insert(id@, existing));
                    assert(self.active().dom() =~= old(self).active().dom());
                }
                self.statistics = self.compute_statistics();
                Ok(id)
            },
            None => {
                proof {
                    assert(self.active() =~= old(self).active());
                    self.active_alarms.lemma_len_pub();
                }
                if self.active_alarms.len() >= self.config.max_active_alarms {
                    return Err(GatewayError::Internal(String::from_str("Maximum active alarms limit reached")));
                }
                let info = match additional_info {
                    Some(l) => l,
                    None => KeyedList::new(),
                };
                let alarm = Alarm {
                    id: id.clone(),
                    sequence_number: sequence,
                    severity,
                    alarm_type,
                    state: AlarmState::Active,
                    source,
                    description,
                    additional_info: info,
                    raised_time_ms: now_ms,
                    cleared_time_ms: None,
                    acknowledged_time_ms: None,
                    acknowledged_by: None,
                    probable_cause,
                    proposed_repair_action,
                    event_count: 1,
                    last_event_time_ms: now_ms,
                };
                let ghost new_alarm = alarm;
                self.active_alarms.insert(alarm);
                proof {
                    assert(self.active() =~= old(self).active().insert(id@, new_alarm));
                }
                self.statistics = self.compute_statistics();
                Ok(id)
            },
        }
    }

    /// Clears an active alarm: it leaves the active alarms and joins the
    /// history as cleared, which keeps only its newest `max_history_size` entries.
    pub fn clear_alarm(&mut self, alarm_id: &str, cleared_by: String, now_ms: i64) -> (r: GatewayResult<()>)
        requires
            old(self).wf(),
        ensures
            final(self).wf(),
            final(self).config == old(self).config,
            final(self).sequence_counter == old(self).sequence_counter,
            r is Ok <==> old(self).active().dom().contains(alarm_id@),
            r is Ok ==> final(self).active() == old(self).active().remove(alarm_id@)
                && final(self).alarm_history@ == keep_last(
                    old(self).alarm_history@.push(cleared_alarm(old(self).active()[alarm_id@], now_ms)),
                    old(self).config.max_history_size as nat,
                ),
            r is Ok ==> !final(self).active().dom().contains(alarm_id@),
            r is Err ==> final(self).active() == old(self).active() && final(self).alarm_history@ == old(self).alarm_history@,
            r matches Err(e) ==> e.kind() == 1 && e.message() == not_found_message(alarm_id@),
    {
        match self.active_alarms.remove(alarm_id) {
            Some(mut alarm) => {
                alarm.state = AlarmState::Cleared;
                alarm.cleared_time_ms = Some(now_ms);
                alarm.severity = AlarmSeverity::Cleared;
                self.alarm_history.push(alarm);
                trim_history(&mut self.alarm_history, self.config.max_history_size);
                proof {
                    assert forall|k: Seq<char>| #[trigger] self.active().dom().contains(k) implies self.active()[k].additional_info.wf() by {
                        assert(old(self).active().dom().contains(k));
                    }
                }
                self.statistics = self.compute_statistics();
                Ok(())
            },
            None => {
                proof {
                    assert(self.active() =~= old(self).active());
                }
                Err(GatewayError::Internal(join2("Alarm not found: ", alarm_id)))
            },
        }
    }

    /// Acknowledges an active alarm, noting when and by whom.
    pub fn acknowledge_alarm(&mut self, alarm_id: &str, acknowledged_by: String, now_ms: i64) -> (r: GatewayResult<()>)
        requires
            old(self).wf(),
        ensures
            final(self).wf(),
            final(self).config == old(self).config,
            final(self).sequence_counter == old(self).sequence_counter,
            final(self).alarm_history@ == old(self).alarm_history@,
            r is Ok <==> old(self).active().dom().contains(alarm_id@),
            r is Ok ==> final(self).active() == old(self).active().insert(
                alarm_id@,
                acknowledged_alarm(old(self).active()[alarm_id@], now_ms, acknowledged_by),
            ),
            r is Err ==> final(self).active() == old(self).active(),
            r matches Err(e) ==> e.kind() == 1 && e.message() == not_found_message(alarm_id@),
    {
        match self.active_alarms.remove(alarm_id) {
            Some(mut alarm) => {
                alarm.state = AlarmState::Acknowledged;
                alarm.acknowledged_time_ms = Some(now_ms);
                alarm.acknowledged_by = Some(acknowledged_by);
                let ghost changed = alarm;
                self.active_alarms.insert(alarm);
                proof {
                    assert(self.active() =~= old(self).active().insert(alarm_id@, changed));
                }
                self.statistics = self.compute_statistics();
                Ok(())
            },
            None => {
                proof {
                    assert(self.active() =~= old(self).active());
                }
                Err(GatewayError::Internal(join2("Alarm not found: ", alarm_id)))
            },
        }
    }

    /// Suppresses an active alarm.
    pub fn suppress_alarm(&mut self, alarm_id: &str, suppressed_by: String) -> (r: GatewayResult<()>)
        requires
            old(self).wf(),
        ensures
            final(self).wf(),
            final(self).config == old(self).config,
            final(self).sequence_counter == old(self).sequence_counter,
            final(self).alarm_history@ == old(self).alarm_history@,
            r is Ok <==> old(self).active().dom().contains(alarm_id@),
            r is Ok ==> final(self).active() == old(self).active().insert(
                alarm_id@,
                suppressed_alarm(old(self).active()[alarm_id@]),
            ),
            r is Err ==> final(self).active() == old(self).active(),
            r matches Err(e) ==> e.kind() == 1 && e.message() == not_found_message(alarm_id@),
    {
        match self.active_alarms.remove(alarm_id) {
            Some(mut alarm) => {
                alarm.state = AlarmState::Suppressed;
                let ghost changed = alarm;
                self.active_alarms.insert(alarm);
                proof {
                    assert(self.active() =~= old(self).active().insert(alarm_id@, changed));
                }
                self.statistics = self.compute_statistics();
                Ok(())
            },
            None => {
                proof {
                    assert(self.active() =~= old(self).active());
                }
                Err(GatewayError::Internal(join2("Alarm not found: ", alarm_id)))
            },
        }
    }

    /// The current statistics.
    pub fn get_statistics(&self) -> (r: &AlarmStatistics)
        requires
            self.wf(),
        ensures
            statistics_of(*r, self.active_alarms.seq(), self.alarm_history@.len()),
    {
        &self.statistics
    }

    /// All active alarms.
    pub fn get_active_alarms(&self) -> (r: &Vec<Alarm>)
        ensures
            r@ == self.active_alarms.seq(),
    {
        self.active_alarms.items()
    }

    /// Clears every active alarm of a component, in the order they are held,
    /// and returns how many were cleared.
    pub fn clear_component_alarms(&mut self, component: &str, cleared_by: String, now_ms: i64) -> (r: GatewayResult<u32>)
        requires
            old(self).wf(),
            count_matching(old(self).active_alarms.seq(), of_component(component@)) <= u32::MAX,
        ensures
            final(self).wf(),
            final(self).config == old(self).config,
            r matches Ok(n) && n == count_matching(old(self).active_alarms.seq(), of_component(component@)),
            forall|k: Seq<char>| #[trigger] final(self).active().dom().contains(k) <==> old(self).active().dom().contains(k)
                && old(self).active()[k].source.component@ != component@,
            forall|k: Seq<char>| #[trigger] final(self).active().dom().contains(k) ==> final(self).active()[k] == old(self).active()[k],
            final(self).alarm_history@ == keep_last(
                old(self).alarm_history@ + alarms_of_component(old(self).active_alarms.seq(), component@).map_values(
                    |a: Alarm| cleared_alarm(a, now_ms),
                ),
                old(self).config.max_history_size as nat,
            ),
    {
        let ghost orig = self.active();
        let ghost s = self.active_alarms.seq();
        let ghost max = self.config.max_history_size as nat;
        let mut ids: Vec<String> = Vec::new();
        let ghost mut pos: Seq<int> = Seq::empty();
        {
            let items = self.active_alarms.items();
            let mut i: usize = 0;
            proof {
                assert(s.subrange(0, 0) =~= Seq::<Alarm>::empty());
            }
            while i < items.len()
                invariant
                    s == items@,
                    s == self.active_alarms.seq(),
                    self.active_alarms.wf(),
                    i <= s.len(),
                    ids@.len() == pos.len(),
                    alarms_of_component(s.subrange(0, i as int), component@).len() == ids@.len(),
                    forall|a: int| 0 <= a < ids@.len() ==> 0 <= #[trigger] pos[a] < i && ids@[a]@ == s[pos[a]].key()
                        && alarms_of_component(s.subrange(0, i as int), component@)[a] == s[pos[a]],
                    forall|a: int, b: int| 0 <= a < b < ids@.len() ==> #[trigger] pos[a] < #[trigger] pos[b],
                    forall|a: int| 0 <= a < ids@.len() ==> (#[trigger] s[pos[a]]).source.component@ == component@,
                    forall|i2: int| 0 <= i2 < i && (#[trigger] s[i2]).source.component@ == component@ ==> exists|a: int|
                        0 <= a < pos.len() && pos[a] == i2,
                decreases s.len() - i,
            {
                let ghost pre = s.subrange(0, i as int);
                let ghost post = s.subrange(0, i as int + 1);
                proof {
                    assert(post.drop_last() =~= pre);
                }
                if str_eq(items[i].source.component.as_str(), component) {
                    ids.push(items[i].id.clone());
                    proof {
                        let ghost old_pos = pos;
                        pos = pos.push(i as int);
                        assert forall|i2: int| 0 <= i2 < i + 1 && (#[trigger] s[i2]).source.component@ == component@ implies exists|a: int|
                            0 <= a < pos.len() && pos[a] == i2 by {
                            if i2 < i {
                                let a = choose|a: int| 0 <= a < old_pos.len() && old_pos[a] == i2;
                                assert(pos[a] == i2);
                            } else {
                                assert(pos[pos.len() - 1] == i2);
                            }
                        }
                    }
                }
                i = i + 1;
            }
            proof {
                assert(s.subrange(0, s.len() as int) =~= s);
            }
        }
        let ghost sel = alarms_of_component(s, component@);
        proof {
            lemma_alarms_of_component_len(s, component@);
            assert forall|a: int| 0 <= a < ids@.len() implies orig.dom().contains(#[trigger] ids@[a]@) && orig[ids@[a]@] == sel[a] by {
                self.active_alarms.lemma_get_at(pos[a]);
            }
            assert forall|a: int, b: int| 0 <= a < ids@.len() && 0 <= b < ids@.len() && a != b implies #[trigger] ids@[a]@ != #[trigger] ids@[b]@ by {
                if a < b {
                    assert(pos[a] < pos[b]);
                    assert(s[pos[a]].key() != s[pos[b]].key());
                } else {
                    assert(pos[b] < pos[a]);
                    assert(s[pos[b]].key() != s[pos[a]].key());
                }
            }
            assert forall|k: Seq<char>| #[trigger] orig.dom().contains(k) implies (orig[k].source.component@ == component@
                <==> exists|a: int| 0 <= a < ids@.len() && ids@[a]@ == k) by {
                assert(self.active_alarms.contains(k));
                let i = choose|i: int| 0 <= i < s.len() && (#[trigger] s[i]).key() == k;
                self.active_alarms.lemma_get_at(i);
                assert(orig[k] == s[i]);
                if orig[k].source.component@ == component@ {
                    assert(s[i].source.component@ == component@);
                    assert(exists|a: int| 0 <= a < pos.len() && pos[a] == i);
                    let a = choose|a: int| 0 <= a < pos.len() && pos[a] == i;
                    assert(ids@[a]@ == s[pos[a]].key());
                    assert(ids@[a]@ == k);
                }
                if exists|a: int| 0 <= a < ids@.len() && ids@[a]@ == k {
                    let a = choose|a: int| 0 <= a < ids@.len() && ids@[a]@ == k;
                    assert(orig[ids@[a]@] == sel[a]);
                    assert(sel[a] == s[pos[a]]);
                    assert(s[pos[a]].source.component@ == component@);
                }
            }
            assert(self.alarm_history@ + Seq::<Alarm>::empty() =~= self.alarm_history@);
            assert(keep_last(self.alarm_history@, max) == self.alarm_history@);
        }
        let ghost cleared = sel.map_values(|a: Alarm| cleared_alarm(a, now_ms));
        let ghost hist0 = self.alarm_history@;
        let mut count: u32 = 0;
        let mut j: usize = 0;
        while j < ids.len()
            invariant
                self.wf(),
                self.config.max_history_size as nat == max,
                self.config == old(self).config,
                j <= ids@.len(),
                ids@.len() == sel.len(),
                sel.len() <= u32::MAX,
                count == j,
                cleared.len() == sel.len(),
                forall|a: int| 0 <= a < sel.len() ==> #[trigger] cleared[a] == cleared_alarm(sel[a], now_ms),
                forall|a: int| 0 <= a < ids@.len() ==> orig.dom().contains(#[trigger] ids@[a]@) && orig[ids@[a]@] == sel[a],
                forall|a: int, b: int| 0 <= a < ids@.len() && 0 <= b < ids@.len() && a != b ==> #[trigger] ids@[a]@ != #[trigger] ids@[b]@,
                forall|k: Seq<char>| #[trigger] self.active().dom().contains(k) <==> orig.dom().contains(k)
                    && !(exists|a: int| 0 <= a < j && ids@[a]@ == k),
                forall|k: Seq<char>| #[trigger] self.active().dom().contains(k) ==> self.active()[k] == orig[k],
                forall|k: Seq<char>| #[trigger] orig.dom().contains(k) ==> (orig[k].source.component@ == component@
                    <==> exists|a: int| 0 <= a < ids@.len() && ids@[a]@ == k),
                self.alarm_history@ == keep_last(hist0 + cleared.subrange(0, j as int), max),
            decreases ids@.len() - j,
        {
            let ghost before = self.alarm_history@;
            proof {
                assert(self.active().dom().contains(ids@[j as int]@)) by {
                    if exists|a: int| 0 <= a < j && ids@[a]@ == ids@[j as int]@ {
                        let a = choose|a: int| 0 <= a < j && ids@[a]@ == ids@[j as int]@;
                        assert(ids@[a]@ != ids@[j as int]@);
                    }
                }
            }
            let res = self.clear_alarm(ids[j].as_str(), cleared_by.clone(), now_ms);
            if res.is_ok() {
                count = count + 1;
            }
            proof {
                lemma_keep_last_push(hist0 + cleared.subrange(0, j as int), cleared[j as int], max);
                assert((hist0 + cleared.subrange(0, j as int)).push(cleared[j as int]) =~= hist0 + cleared.subrange(0, j as int + 1));
                assert forall|k: Seq<char>| #[trigger] self.active().dom().contains(k) <==> orig.dom().contains(k)
                    && !(exists|a: int| 0 <= a < j + 1 && ids@[a]@ == k) by {
                    if k == ids@[j as int]@ {
                    } else {
                        if exists|a: int| 0 <= a < j + 1 && ids@[a]@ == k {
                            let a = choose|a: int| 0 <= a < j + 1 && ids@[a]@ == k;
                            assert(a < j);
                        }
                    }
                }
            }
            j = j + 1;
        }
        proof {
            assert(cleared.subrange(0, j as int) =~= cleared);
            assert forall|k: Seq<char>| #[trigger] self.active().dom().contains(k) <==> old(self).active().dom().contains(k)
                && old(self).active()[k].source.component@ != component@ by {
                if orig.dom().contains(k) {
                    assert(orig[k].source.component@ == component@ <==> exists|a: int| 0 <= a < ids@.len() && ids@[a]@ == k);
                }
            }
        }
        Ok(count)
    }

}

/// In every state of a manager, its statistics count its alarms: as many
/// active as it holds, as many cleared as its history keeps, the total being
/// their sum (held at the largest `u64`), each active alarm under exactly one
/// type, and no more alarms with one of the four reported severities than are
/// active.
pub proof fn law_manager_statistics(m: AlarmManager)
    requires
        m.wf(),
    ensures
        m.statistics.active_alarms == m.active().dom().len(),
        m.statistics.active_alarms == m.active_alarms.seq().len(),
        m.statistics.cleared_alarms == m.alarm_history@.len(),
        m.statistics.total_alarms == if m.statistics.active_alarms + m.statistics.cleared_alarms > u64::MAX {
            u64::MAX as int
        } else {
            m.statistics.active_alarms + m.statistics.cleared_alarms
        },
        m.statistics.alarms_by_type.equipment + m.statistics.alarms_by_type.environmental + m.statistics.alarms_by_type.processing
            + m.statistics.alarms_by_type.quality + m.statistics.alarms_by_type.communication + m.statistics.alarms_by_type.security
            == m.statistics.active_alarms,
        m.statistics.critical_alarms + m.statistics.major_alarms + m.statistics.minor_alarms + m.statistics.warning_alarms
            <= m.statistics.active_alarms,
{
    m.active_alarms.lemma_len_pub();
    law_statistics_counts(m.statistics, m.active_alarms.seq(), m.alarm_history@.len());
}

/// The statistics count each active alarm under exactly one type; no more
/// alarms than are active have one of the four reported severities, or are
/// acknowledged or suppressed.
pub proof fn law_statistics_counts(stats: AlarmStatistics, active: Seq<Alarm>, history_len: nat)
    requires
        statistics_of(stats, active, history_len),
    ensures
        stats.alarms_by_type.equipment + stats.alarms_by_type.environmental + stats.alarms_by_type.processing
            + stats.alarms_by_type.quality + stats.alarms_by_type.communication + stats.alarms_by_type.security
            == stats.active_alarms,
        stats.critical_alarms + stats.major_alarms + stats.minor_alarms + stats.warning_alarms <= stats.active_alarms,
        stats.acknowledged_alarms + stats.suppressed_alarms <= stats.active_alarms,
{
    lemma_kind_counts(active);
}

/// Clearing an alarm that was just raised leaves the active alarms as they
/// were before it was raised.
pub proof fn law_clear_undoes_raise(before: Map<Seq<char>, Alarm>, raised: Map<Seq<char>, Alarm>, id: Seq<char>)
    requires
        !before.dom().contains(id),
        raised.dom() == before.dom().insert(id),
        forall|k: Seq<char>| k != id && before.dom().contains(k) ==> raised[k] == before[k],
    ensures
        raised.remove(id) == before,
{
    assert(raised.remove(id) =~= before);
}

/// The last `n` elements of `s` (all of them when there are fewer).
pub open spec fn keep_last(s: Seq<Alarm>, n: nat) -> Seq<Alarm> {
    if s.len() > n {
        s.subrange(s.len() - n, s.len() as int)
    } else {
        s
    }
}

proof fn lemma_keep_last_push(h: Seq<Alarm>, x: Alarm, m: nat)
    ensures
        keep_last(keep_last(h, m).push(x), m) == keep_last(h.push(x), m),
{
    if h.len() > m {
        assert(keep_last(keep_last(h, m).push(x), m) =~= keep_last(h.push(x), m));
    }
}

/// An alarm as it goes into history when cleared at `now_ms`.
pub open spec fn cleared_alarm(a: Alarm, now_ms: i64) -> Alarm {
    Alarm { state: AlarmState::Cleared, cleared_time_ms: Some(now_ms), severity: AlarmSeverity::Cleared, ..a }
}

/// An alarm once acknowledged at `now_ms` by `by`.
pub open spec fn acknowledged_alarm(a: Alarm, now_ms: i64, by: String) -> Alarm {
    Alarm { state: AlarmState::Acknowledged, acknowledged_time_ms: Some(now_ms), acknowledged_by: Some(by), ..a }
}

/// An alarm once suppressed.
pub open spec fn suppressed_alarm(a: Alarm) -> Alarm {
    Alarm { state: AlarmState::Suppressed, ..a }
}

/// The alarms of `s` that come from component `c`, in order.
pub open spec fn alarms_of_component(s: Seq<Alarm>, c: Seq<char>) -> Seq<Alarm>
    decreases s.len(),
{
    if s.len() == 0 {
        Seq::empty()
    } else {
        alarms_of_component(s.drop_last(), c) + if s.last().source.component@ == c {
            seq![s.last()]
        } else {
            Seq::empty()
        }
    }
}

proof fn lemma_alarms_of_component_len(s: Seq<Alarm>, c: Seq<char>)
    ensures
        alarms_of_component(s, c).len() == count_matching(s, of_component(c)),
    decreases s.len(),
{
    if s.len() > 0 {
        lemma_alarms_of_component_len(s.drop_last(), c);
    }
}

/// The error for an id that names no active alarm.
pub open spec fn not_found_message(alarm_id: Seq<char>) -> Seq<char> {
    "Alarm not found: "@ + alarm_id
}

/// Drops the oldest entries of a history until at most `max` remain.
fn trim_history(h: &mut Vec<Alarm>, max: usize)
    ensures
        final(h)@ == keep_last(old(h)@, max as nat),
{
    let ghost full = h@;
    while h.len() > max
        invariant
            h@.len() <= full.len(),
            h@ == full.subrange(full.len() - h@.len(), full.len() as int),
            h@.len() == full.len() || h@.len() >= max,
        decreases h@.len(),
    {
        h.remove(0);
        proof {
            assert(h@ =~= full.subrange(full.len() - h@.len(), full.len() as int));
        }
    }
    proof {
        if full.len() <= max {
            assert(h@ =~= full);
        }
    }
}

/// Merges additional information into an alarm's; new values win.
fn merge_info(target: &mut KeyedList<InfoEntry>, extra: KeyedList<InfoEntry>)
    requires
        old(target).wf(),
        extra.wf(),
    ensures
        final(target).wf(),
        final(target).view() == old(target).view().union_prefer_right(extra.view()),
{
    let mut rest = extra;
    let ghost e = rest.view();
    let ghost done: Map<Seq<char>, InfoEntry> = Map::empty();
    while rest.len() > 0
        invariant
            target.wf(),
            rest.wf(),
            target.view() == old(target).view().union_prefer_right(done),
            done.union_prefer_right(rest.view()) == e,
            done.dom().disjoint(rest.view().dom()),
        decreases rest.seq().len(),
    {
        let k = rest.at(0).key.clone();
        proof {
            rest.lemma_get_at(0);
        }
        match rest.remove(k.as_str()) {
            Some(entry) => {
                let ghost ev = entry;
                target.insert(entry);
                proof {
                    done = done.insert(k@, ev);
                    assert(target.view() =~= old(target).view().union_prefer_right(done));
                    assert(done.union_prefer_right(rest.view()) =~= e);
                }
            },
            None => {},
        }
    }
    proof {
        rest.lemma_len_pub();
        assert(rest.view().dom().len() == 0);
        assert(rest.view() =~= Map::<Seq<char>, InfoEntry>::empty()) by {
            assert forall|k: Seq<char>| !rest.view().dom().contains(k) by {
                if rest.view().dom().contains(k) {
                    vstd::set_lib::lemma_set_empty_equivalency_len(rest.view().dom());
                }
            }
        }
        assert(done =~= e);
    }
}

} // verus!
