//! Clock sources, their quality, and the choice of the gateway's reference clock.

use vstd::prelude::*;
use crate::error::{GatewayError, GatewayResult};
use crate::keyed::{Keyed, KeyedList};
use crate::text::{text, join2, u64_text, decimal};

verus! {

/// Stratum levels for clock quality
#[derive(Clone, Copy, Debug, PartialEq, Eq, PartialOrd, Ord, Structural)]
pub enum StratumLevel {
    Stratum0,
    Stratum1,
    Stratum2,
    Stratum3,
    Stratum4,
    Invalid,
}

/// The position of a stratum level from the best (0) to `Invalid` (5).
pub open spec fn stratum_rank(s: StratumLevel) -> int {
    match s {
        StratumLevel::Stratum0 => 0,
        StratumLevel::Stratum1 => 1,
        StratumLevel::Stratum2 => 2,
        StratumLevel::Stratum3 => 3,
        StratumLevel::Stratum4 => 4,
        StratumLevel::Invalid => 5,
    }
}

/// The ranks follow the levels' order, best first: each stratum ranks
/// strictly before the next, and an invalid clock ranks last.
pub proof fn law_stratum_rank_follows_level_order()
    ensures
        stratum_rank(StratumLevel::Stratum0) < stratum_rank(StratumLevel::Stratum1),
        stratum_rank(StratumLevel::Stratum1) < stratum_rank(StratumLevel::Stratum2),
        stratum_rank(StratumLevel::Stratum2) < stratum_rank(StratumLevel::Stratum3),
        stratum_rank(StratumLevel::Stratum3) < stratum_rank(StratumLevel::Stratum4),
        stratum_rank(StratumLevel::Stratum4) < stratum_rank(StratumLevel::Invalid),
        forall|a: StratumLevel, b: StratumLevel| stratum_rank(a) == stratum_rank(b) ==> a == b,
{
}

impl StratumLevel {
    /// The position of the level from the best (0) to `Invalid` (5).
    pub fn rank(&self) -> (r: u8)
        ensures
            r == stratum_rank(*self),
    {
        match self {
            StratumLevel::Stratum0 => 0,
            StratumLevel::Stratum1 => 1,
            StratumLevel::Stratum2 => 2,
            StratumLevel::Stratum3 => 3,
            StratumLevel::Stratum4 => 4,
            StratumLevel::Invalid => 5,
        }
    }

    /// The largest drift the level allows, in nanoseconds per second: its
    /// accuracy in ppm times a thousand, rounded down (0, 1, 10, 100, 1000),
    /// and `u64::MAX` for an invalid clock, whose accuracy is unbounded.
    pub fn max_drift_ns_per_sec(&self) -> (r: u64)
        ensures
            r == match self {
                StratumLevel::Stratum0 => 0u64,
                StratumLevel::Stratum1 => 1,
                StratumLevel::Stratum2 => 10,
                StratumLevel::Stratum3 => 100,
                StratumLevel::Stratum4 => 1000,
                StratumLevel::Invalid => u64::MAX,
            },
    {
        match self {
            StratumLevel::Stratum0 => 0,
            StratumLevel::Stratum1 => 1,
            StratumLevel::Stratum2 => 10,
            StratumLevel::Stratum3 => 100,
            StratumLevel::Stratum4 => 1000,
            StratumLevel::Invalid => u64::MAX,
        }
    }
}

/// Quality of a clock recovered from a TDM span.
#[derive(Clone, Copy, Debug, PartialEq, Eq, Structural)]
pub enum TdmClockQuality {
    Primary,
    Secondary,
    Tertiary,
    Degraded,
    Invalid,
}

/// The stratum that a TDM clock quality stands for.
pub open spec fn quality_stratum(q: TdmClockQuality) -> StratumLevel {
    match q {
        TdmClockQuality::Primary => StratumLevel::Stratum1,
        TdmClockQuality::Secondary => StratumLevel::Stratum2,
        TdmClockQuality::Tertiary => StratumLevel::Stratum3,
        TdmClockQuality::Degraded => StratumLevel::Stratum4,
        TdmClockQuality::Invalid => StratumLevel::Invalid,
    }
}

/// A better TDM clock quality stands for a better stratum: each quality
/// ranks strictly before the next, and different qualities give different strata.
pub proof fn law_quality_keeps_stratum_order()
    ensures
        stratum_rank(quality_stratum(TdmClockQuality::Primary)) < stratum_rank(quality_stratum(TdmClockQuality::Secondary)),
        stratum_rank(quality_stratum(TdmClockQuality::Secondary)) < stratum_rank(quality_stratum(TdmClockQuality::Tertiary)),
        stratum_rank(quality_stratum(TdmClockQuality::Tertiary)) < stratum_rank(quality_stratum(TdmClockQuality::Degraded)),
        stratum_rank(quality_stratum(TdmClockQuality::Degraded)) < stratum_rank(quality_stratum(TdmClockQuality::Invalid)),
        forall|q: TdmClockQuality| #![auto] quality_stratum(q) != StratumLevel::Stratum0,
{
}

impl TdmClockQuality {
    /// The stratum that the quality stands for: primary is stratum 1, down to
    /// degraded at stratum 4.
    pub fn to_stratum_level(&self) -> (r: StratumLevel)
        ensures
            r == quality_stratum(*self),
    {
        match self {
            TdmClockQuality::Primary => StratumLevel::Stratum1,
            TdmClockQuality::Secondary => StratumLevel::Stratum2,
            TdmClockQuality::Tertiary => StratumLevel::Stratum3,
            TdmClockQuality::Degraded => StratumLevel::Stratum4,
            TdmClockQuality::Invalid => StratumLevel::Invalid,
        }
    }
}

#[derive(Clone, Copy, Debug, PartialEq, Eq, Structural)]
pub enum GpsAntennaStatus {
    AntennaOk,
    ShortCircuit,
    OpenCircuit,
    NotConnected,
    Unknown,
}

#[derive(Clone, Copy, Debug, PartialEq, Eq, Structural)]
pub enum GpsFixType {
    NoFix,
    Fix2D,
    Fix3D,
    DifferentialFix,
    PrecisionTimeProtocol,
}

#[derive(Clone, Copy, Debug, PartialEq, Eq, Structural)]
pub enum PtpRole {
    Master,
    Slave,
    Boundary,
    Transparent,
}

/// Clock source types; the aging rate is in parts per billion per year and
/// the NTP poll interval in seconds, times in milliseconds since the epoch.
pub enum ClockSourceType {
    Internal { frequency: u64, temperature_compensated: bool, aging_rate_ppb_per_year: u64 },
    Gps { device_path: String, antenna_status: GpsAntennaStatus, satellite_count: u8, fix_type: GpsFixType },
    Ntp { servers: Vec<String>, poll_interval_secs: u64, last_sync_ms: Option<i64> },
    Ptp { domain: u8, role: PtpRole, master_clock_id: Option<String> },
    TdmoeRecovered { source_span: u32, quality: TdmClockQuality, slip_count: u64 },
    External { interface: String, frequency: u64, signal_type: String },
}

/// Clock status and health information. The Allan variance is in units of
/// 1e-15, the temperature in thousandths of a degree Celsius and the signal
/// strength in thousandths of a dB; times are in milliseconds since the epoch.
pub struct ClockStatus {
    pub source_id: String,
    pub source_type: ClockSourceType,
    pub stratum_level: StratumLevel,
    pub is_active: bool,
    pub is_holdover: bool,
    pub last_sync_ms: Option<i64>,
    pub frequency_offset_ppb: i64,
    pub phase_offset_ns: i64,
    pub time_error_ns: u64,
    pub allan_variance_fe: u64,
    pub temperature_mc: Option<i32>,
    pub signal_strength_mdb: Option<i32>,
    pub error_count: u64,
    pub sync_count: u64,
    pub uptime_secs: u64,
}

impl Keyed for ClockStatus {
    open spec fn key(&self) -> Seq<char> {
        self.source_id@
    }

    fn key_text(&self) -> (r: &String) {
        &self.source_id
    }
}

/// How the reference clock is chosen.
#[derive(Clone, Copy, Debug, PartialEq, Eq, Structural)]
pub enum ClockSelectionAlgorithm {
    /// Select highest stratum (best quality)
    HighestStratum,
    /// Select lowest accumulated error
    LowestError,
    /// Select most stable (lowest Allan variance)
    MostStable,
    /// Manual selection
    Manual,
}

/// Timing service configuration; durations are in seconds.
pub struct TimingConfig {
    pub enable_internal_clock: bool,
    pub enable_gps: bool,
    pub enable_ntp: bool,
    pub enable_ptp: bool,
    pub gps_device: String,
    pub ntp_servers: Vec<String>,
    pub ptp_domain: u8,
    pub clock_selection_algorithm: ClockSelectionAlgorithm,
    pub holdover_duration_secs: u64,
    pub frequency_correction_enabled: bool,
    pub phase_correction_enabled: bool,
    pub max_frequency_offset_ppb: i64,
    pub max_phase_offset_ns: i64,
    pub monitoring_interval_secs: u64,
}

impl Default for TimingConfig {
    /// The internal clock and two public NTP servers, chosen by stratum.
    fn default() -> (r: Self)
        ensures
            r.enable_internal_clock && !r.enable_gps && r.enable_ntp && !r.enable_ptp,
            r.gps_device@ == "/dev/ttyUSB0"@,
            r.ntp_servers@.len() == 2,
            r.ntp_servers@[0]@ == "pool.ntp.org"@,
            r.ntp_servers@[1]@ == "time.google.com"@,
            r.ptp_domain == 0,
            r.clock_selection_algorithm == ClockSelectionAlgorithm::HighestStratum,
            r.holdover_duration_secs == 24 * 3600,
            r.frequency_correction_enabled && r.phase_correction_enabled,
            r.max_frequency_offset_ppb == 100_000,
            r.max_phase_offset_ns == 1_000_000,
            r.monitoring_interval_secs == 10,
    {
        let mut servers: Vec<String> = Vec::new();
        servers.push(text("pool.ntp.org"));
        servers.push(text("time.google.com"));
        TimingConfig {
            enable_internal_clock: true,
            enable_gps: false,
            enable_ntp: true,
            enable_ptp: false,
            gps_device: text("/dev/ttyUSB0"),
            ntp_servers: servers,
            ptp_domain: 0,
            clock_selection_algorithm: ClockSelectionAlgorithm::HighestStratum,
            holdover_duration_secs: 24 * 3600,
            frequency_correction_enabled: true,
            phase_correction_enabled: true,
            max_frequency_offset_ppb: 100_000,
            max_phase_offset_ns: 1_000_000,
            monitoring_interval_secs: 10,
        }
    }
}

/// Timing events for monitoring and alarms; times are in milliseconds since
/// the epoch, durations in seconds.
pub enum TimingEvent {
    ClockSourceAdded { source_id: String, source_type: ClockSourceType },
    ClockSourceRemoved { source_id: String },
    ClockSourceSelected { source_id: String, stratum_level: StratumLevel },
    ClockSynchronized { source_id: String, offset_ns: i64, accuracy_ns: u64 },
    ClockLossOfSync { source_id: String, duration_secs: u64 },
    ClockHoldover { source_id: String, reason: String },
    FrequencyDrift { source_id: String, drift_ppb: i64, threshold_ppb: i64 },
    GpsSignalLost { satellite_count: u8, last_fix_ms: i64 },
    GpsSignalRestored { satellite_count: u8, fix_type: GpsFixType },
    TdmClockSlip { span_id: u32, slip_type: String, accumulated_slips: u64 },
    StratumLevelChanged { old_stratum: StratumLevel, new_stratum: StratumLevel },
}

/// The figure by which `alg` ranks a clock: lower is better.
pub open spec fn selection_metric(alg: ClockSelectionAlgorithm, s: ClockStatus) -> int {
    match alg {
        ClockSelectionAlgorithm::HighestStratum => stratum_rank(s.stratum_level),
        ClockSelectionAlgorithm::LowestError => s.time_error_ns as int,
        _ => s.allan_variance_fe as int,
    }
}

/// Whether the source with id `id` is an active source that `alg` ranks no
/// worse than any other active source of `m`.
pub open spec fn is_best_source(m: Map<Seq<char>, ClockStatus>, alg: ClockSelectionAlgorithm, id: Seq<char>) -> bool {
    &&& m.dom().contains(id)
    &&& m[id].is_active
    &&& forall|k: Seq<char>| #[trigger] m.dom().contains(k) && m[k].is_active ==> selection_metric(alg, m[id])
        <= selection_metric(alg, m[k])
}

/// Choosing by highest stratum, the chosen source is of the lowest-numbered
/// stratum among the active sources: no active source has a level before it.
pub proof fn law_highest_stratum_picks_lowest_level(m: Map<Seq<char>, ClockStatus>, id: Seq<char>, k: Seq<char>)
    requires
        is_best_source(m, ClockSelectionAlgorithm::HighestStratum, id),
        m.dom().contains(k),
        m[k].is_active,
    ensures
        m[k].stratum_level == StratumLevel::Stratum0 ==> m[id].stratum_level == StratumLevel::Stratum0,
        m[k].stratum_level == StratumLevel::Stratum1 ==> m[id].stratum_level == StratumLevel::Stratum0
            || m[id].stratum_level == StratumLevel::Stratum1,
        m[k].stratum_level == StratumLevel::Stratum2 ==> m[id].stratum_level != StratumLevel::Stratum3
            && m[id].stratum_level != StratumLevel::Stratum4 && m[id].stratum_level != StratumLevel::Invalid,
        m[k].stratum_level == StratumLevel::Stratum3 ==> m[id].stratum_level != StratumLevel::Stratum4
            && m[id].stratum_level != StratumLevel::Invalid,
        m[k].stratum_level == StratumLevel::Stratum4 ==> m[id].stratum_level != StratumLevel::Invalid,
{
    assert(selection_metric(ClockSelectionAlgorithm::HighestStratum, m[id]) <= selection_metric(
        ClockSelectionAlgorithm::HighestStratum,
        m[k],
    ));
}

/// Whether some source of `m` is active.
pub open spec fn any_active(m: Map<Seq<char>, ClockStatus>) -> bool {
    exists|k: Seq<char>| #[trigger] m.dom().contains(k) && m[k].is_active
}

/// Each source of `m` that is active is the internal clock, or a source of
/// `before` that is unchanged.
pub open spec fn active_kept_or_internal(before: Map<Seq<char>, ClockStatus>, m: Map<Seq<char>, ClockStatus>) -> bool {
    forall|k: Seq<char>| #[trigger] m.dom().contains(k) && m[k].is_active ==> k == "internal"@ || (before.dom().contains(k)
        && m[k] == before[k])
}

/// The text of an optional id.
pub open spec fn opt_text(o: Option<String>) -> Option<Seq<char>> {
    match o {
        Some(s) => Some(s@),
        None => None,
    }
}

/// The id of the clock recovered from a span.
pub open spec fn tdmoe_source_id(span: u32) -> Seq<char> {
    "tdmoe-span-"@ + decimal(span as nat)
}

/// The timing service: its clock sources and the selected reference.
pub struct TimingService {
    pub config: TimingConfig,
    pub clock_sources: KeyedList<ClockStatus>,
    pub selected_clock: Option<String>,
    pub system_stratum: StratumLevel,
    pub reference_time_ns: u64,
    pub frequency_offset: i64,
    pub phase_offset: i64,
    pub is_running: bool,
}

impl TimingService {
    /// The service is well formed.
    pub open spec fn wf(&self) -> bool {
        self.clock_sources.wf()
    }

    /// The sources by id.
    pub open spec fn sources(&self) -> Map<Seq<char>, ClockStatus> {
        self.clock_sources.view()
    }

    /// A stopped service with no sources and no selected clock; the reference
    /// time is given in nanoseconds since the epoch.
    pub fn new(config: TimingConfig, reference_time_ns: u64) -> (r: Self)
        ensures
            r.wf(),
            r.config == config,
            r.sources() == Map::<Seq<char>, ClockStatus>::empty(),
            r.selected_clock is None,
            r.system_stratum == StratumLevel::Invalid,
            !r.is_running,
            r.phase_offset == 0,
            r.reference_time_ns == reference_time_ns,
    {
        TimingService {
            config,
            clock_sources: KeyedList::new(),
            selected_clock: None,
            system_stratum: StratumLevel::Invalid,
            reference_time_ns,
            frequency_offset: 0,
            phase_offset: 0,
            is_running: false,
        }
    }

    fn add_source(&mut self, status: ClockStatus, event_type: ClockSourceType, events: &mut Vec<TimingEvent>)
        requires
            old(self).wf(),
        ensures
            final(self).wf(),
            final(self).sources() == old(self).sources().insert(status.source_id@, status),
            final(self).selected_clock == old(self).selected_clock,
            final(self).system_stratum == old(self).system_stratum,
            final(self).is_running == old(self).is_running,
            final(self).config == old(self).config,
            final(events)@.len() == old(events)@.len() + 1,
            final(events)@.last() matches TimingEvent::ClockSourceAdded { source_id, .. } && source_id@ == status.source_id@,
    {
        let id = status.source_id.clone();
        self.clock_sources.insert(status);
        events.push(TimingEvent::ClockSourceAdded { source_id: id, source_type: event_type });
    }

    fn internal_type() -> (r: ClockSourceType)
        ensures
            r == (ClockSourceType::Internal { frequency: 25_000_000, temperature_compensated: true, aging_rate_ppb_per_year: 1000 }),
    {
        ClockSourceType::Internal { frequency: 25_000_000, temperature_compensated: true, aging_rate_ppb_per_year: 1000 }
    }

    /// Adds the internal 25 MHz oscillator: active, stratum 4, 1 ms of error.
    pub fn add_internal_clock(&mut self, now_ms: i64, events: &mut Vec<TimingEvent>)
        requires
            old(self).wf(),
        ensures
            final(self).wf(),
            final(self).sources().dom() == old(self).sources().dom().insert("internal"@),
            final(self).sources()["internal"@].is_active,
            final(self).sources()["internal"@].stratum_level == StratumLevel::Stratum4,
            final(self).sources()["internal"@].time_error_ns == 1_000_000,
            final(self).sources()["internal"@].last_sync_ms == Some(now_ms),
            forall|k: Seq<char>| k != "internal"@ && old(self).sources().dom().contains(k) ==> final(self).sources()[k]
                == old(self).sources()[k],
            final(self).selected_clock == old(self).selected_clock,
            final(self).system_stratum == old(self).system_stratum,
            final(self).is_running == old(self).is_running,
            final(self).config == old(self).config,
            final(events)@.len() == old(events)@.len() + 1,
    {
        let status = ClockStatus {
            source_id: text("internal"),
            source_type: Self::internal_type(),
            stratum_level: StratumLevel::Stratum4,
            is_active: true,
            is_holdover: false,
            last_sync_ms: Some(now_ms),
            frequency_offset_ppb: 0,
            phase_offset_ns: 0,
            time_error_ns: 1_000_000,
            allan_variance_fe: 1_000_000,
            temperature_mc: Some(45_000),
            signal_strength_mdb: None,
            error_count: 0,
            sync_count: 1,
            uptime_secs: 0,
        };
        self.add_source(status, Self::internal_type(), events);
    }

    /// Adds the GPS receiver at `device_path`: stratum 1 and inactive until it
    /// has a fix, with 100 µs of error.
    pub fn add_gps_source(&mut self, device_path: &str, events: &mut Vec<TimingEvent>)
        requires
            old(self).wf(),
        ensures
            final(self).wf(),
            final(self).sources().dom() == old(self).sources().dom().insert("gps"@),
            !final(self).sources()["gps"@].is_active,
            final(self).sources()["gps"@].stratum_level == StratumLevel::Stratum1,
            final(self).sources()["gps"@].time_error_ns == 100_000,
            forall|k: Seq<char>| k != "gps"@ && old(self).sources().dom().contains(k) ==> final(self).sources()[k]
                == old(self).sources()[k],
            final(self).selected_clock == old(self).selected_clock,
            final(self).system_stratum == old(self).system_stratum,
            final(self).is_running == old(self).is_running,
            final(self).config == old(self).config,
            final(events)@.len() == old(events)@.len() + 1,
    {
        let status = ClockStatus {
            source_id: text("gps"),
            source_type: ClockSourceType::Gps {
                device_path: text(device_path),
                antenna_status: GpsAntennaStatus::Unknown,
                satellite_count: 0,
                fix_type: GpsFixType::NoFix,
            },
            stratum_level: StratumLevel::Stratum1,
            is_active: false,
            is_holdover: false,
            last_sync_ms: None,
            frequency_offset_ppb: 0,
            phase_offset_ns: 0,
            time_error_ns: 100_000,
            allan_variance_fe: 1_000,
            temperature_mc: None,
            signal_strength_mdb: Some(-30_000),
            error_count: 0,
            sync_count: 0,
            uptime_secs: 0,
        };
        let event_type = ClockSourceType::Gps {
            device_path: text(device_path),
            antenna_status: GpsAntennaStatus::Unknown,
            satellite_count: 0,
            fix_type: GpsFixType::NoFix,
        };
        self.add_source(status, event_type, events);
    }

    /// Adds an NTP server as source `ntp-<server>`: stratum 3, inactive until
    /// it syncs, with 10 ms of error.
    pub fn add_ntp_source(&mut self, server: &str, events: &mut Vec<TimingEvent>)
        requires
            old(self).wf(),
        ensures
            final(self).wf(),
            final(self).sources().dom() == old(self).sources().dom().insert("ntp-"@ + server@),
            !final(self).sources()["ntp-"@ + server@].is_active,
            final(self).sources()["ntp-"@ + server@].stratum_level == StratumLevel::Stratum3,
            final(self).sources()["ntp-"@ + server@].time_error_ns == 10_000_000,
            forall|k: Seq<char>| k != "ntp-"@ + server@ && old(self).sources().dom().contains(k) ==> final(self).sources()[k]
                == old(self).sources()[k],
            final(self).selected_clock == old(self).selected_clock,
            final(self).system_stratum == old(self).system_stratum,
            final(self).is_running == old(self).is_running,
            final(self).config == old(self).config,
            final(events)@.len() == old(events)@.len() + 1,
    {
        let mut servers: Vec<String> = Vec::new();
        servers.push(text(server));
        let mut servers2: Vec<String> = Vec::new();
        servers2.push(text(server));
        let status = ClockStatus {
            source_id: join2("ntp-", server),
            source_type: ClockSourceType::Ntp { servers, poll_interval_secs: 64, last_sync_ms: None },
            stratum_level: StratumLevel::Stratum3,
            is_active: false,
            is_holdover: false,
            last_sync_ms: None,
            frequency_offset_ppb: 0,
            phase_offset_ns: 0,
            time_error_ns: 10_000_000,
            allan_variance_fe: 1_000_000_000,
            temperature_mc: None,
            signal_strength_mdb: None,
            error_count: 0,
            sync_count: 0,
            uptime_secs: 0,
        };
        self.add_source(status, ClockSourceType::Ntp { servers: servers2, poll_interval_secs: 64, last_sync_ms: None }, events);
    }

    /// Adds the PTP slave of a domain as source `ptp-domain-<domain>`:
    /// stratum 2, inactive until it syncs, with 1 µs of error.
    pub fn add_ptp_source(&mut self, domain: u8, events: &mut Vec<TimingEvent>)
        requires
            old(self).wf(),
        ensures
            final(self).wf(),
            final(self).sources().dom() == old(self).sources().dom().insert("ptp-domain-"@ + decimal(domain as nat)),
            final(self).sources()["ptp-domain-"@ + decimal(domain as nat)].stratum_level == StratumLevel::Stratum2,
            !final(self).sources()["ptp-domain-"@ + decimal(domain as nat)].is_active,
            final(self).sources()["ptp-domain-"@ + decimal(domain as nat)].time_error_ns == 1_000,
            forall|k: Seq<char>| k != "ptp-domain-"@ + decimal(domain as nat) && old(self).sources().dom().contains(k)
                ==> final(self).sources()[k] == old(self).sources()[k],
            final(self).selected_clock == old(self).selected_clock,
            final(self).system_stratum == old(self).system_stratum,
            final(self).is_running == old(self).is_running,
            final(self).config == old(self).config,
            final(events)@.len() == old(events)@.len() + 1,
    {
        let num = u64_text(domain as u64);
        let status = ClockStatus {
            source_id: join2("ptp-domain-", num.as_str()),
            source_type: ClockSourceType::Ptp { domain, role: PtpRole::Slave, master_clock_id: None },
            stratum_level: StratumLevel::Stratum2,
            is_active: false,
            is_holdover: false,
            last_sync_ms: None,
            frequency_offset_ppb: 0,
            phase_offset_ns: 0,
            time_error_ns: 1_000,
            allan_variance_fe: 1_000_000,
            temperature_mc: None,
            signal_strength_mdb: None,
            error_count: 0,
            sync_count: 0,
            uptime_secs: 0,
        };
        self.add_source(status, ClockSourceType::Ptp { domain, role: PtpRole::Slave, master_clock_id: None }, events);
    }

    /// Starts the service: adds the sources the configuration enables (the
    /// internal clock, active at stratum 4; the GPS receiver at stratum 1, each
    /// NTP server at stratum 3 and the PTP domain at stratum 2, all three
    /// inactive until they sync).
    pub fn start(&mut self, now_ms: i64, events: &mut Vec<TimingEvent>)
        requires
            old(self).wf(),
        ensures
            final(self).wf(),
            final(self).is_running,
            final(self).config == old(self).config,
            final(self).selected_clock == old(self).selected_clock,
            final(self).system_stratum == old(self).system_stratum,
            old(self).config.enable_internal_clock ==> final(self).sources().dom().contains("internal"@)
                && final(self).sources()["internal"@].is_active
                && final(self).sources()["internal"@].stratum_level == StratumLevel::Stratum4,
            old(self).config.enable_gps ==> final(self).sources().dom().contains("gps"@)
                && !final(self).sources()["gps"@].is_active
                && final(self).sources()["gps"@].stratum_level == StratumLevel::Stratum1,
            old(self).config.enable_ntp ==> forall|i: int| 0 <= i < old(self).config.ntp_servers@.len()
                ==> final(self).sources().dom().contains("ntp-"@ + (#[trigger] old(self).config.ntp_servers@[i])@)
                && !final(self).sources()["ntp-"@ + old(self).config.ntp_servers@[i]@].is_active
                && final(self).sources()["ntp-"@ + old(self).config.ntp_servers@[i]@].stratum_level == StratumLevel::Stratum3,
            old(self).config.enable_ptp ==> final(self).sources().dom().contains("ptp-domain-"@ + decimal(old(self).config.ptp_domain as nat))
                && !final(self).sources()["ptp-domain-"@ + decimal(old(self).config.ptp_domain as nat)].is_active
                && final(self).sources()["ptp-domain-"@ + decimal(old(self).config.ptp_domain as nat)].stratum_level
                == StratumLevel::Stratum2,
            forall|k: Seq<char>| old(self).sources().dom().contains(k) ==> final(self).sources().dom().contains(k),
            active_kept_or_internal(old(self).sources(), final(self).sources()),
    {
        let ghost start = self.sources();
        self.is_running = true;
        if self.config.enable_internal_clock {
            self.add_internal_clock(now_ms, events);
        }
        let ghost after_internal = self.sources();
        assert(forall|k: Seq<char>| old(self).sources().dom().contains(k) ==> after_internal.dom().contains(k));
        assert(active_kept_or_internal(start, after_internal));
        proof {
            reveal_strlit("internal");
            reveal_strlit("gps");
            reveal_strlit("ntp-");
            reveal_strlit("ptp-domain-");
        }
        if self.config.enable_gps {
            let dev = self.config.gps_device.clone();
            assert("gps"@ != "internal"@) by {
                assert("gps"@[0] != "internal"@[0]);
            }
            self.add_gps_source(dev.as_str(), events);
        }
        let ghost after_gps = self.sources();
        assert(forall|k: Seq<char>| old(self).sources().dom().contains(k) ==> after_gps.dom().contains(k));
        assert(active_kept_or_internal(start, after_gps));
        if self.config.enable_ntp {
            let n = self.config.ntp_servers.len();
            let mut i: usize = 0;
            while i < n
                invariant
                    self.wf(),
                    n == self.config.ntp_servers@.len(),
                    self.config == old(self).config,
                    self.is_running,
                    self.selected_clock == old(self).selected_clock,
                    self.system_stratum == old(self).system_stratum,
                    i <= n,
                    "ntp-"@ == seq!['n', 't', 'p', '-'],
                    "gps"@ == seq!['g', 'p', 's'],
                    "internal"@[0] == 'i',
                    forall|j: int| 0 <= j < i ==> self.sources().dom().contains("ntp-"@ + (#[trigger] self.config.ntp_servers@[j])@)
                        && !self.sources()["ntp-"@ + self.config.ntp_servers@[j]@].is_active
                        && self.sources()["ntp-"@ + self.config.ntp_servers@[j]@].stratum_level == StratumLevel::Stratum3,
                    forall|k: Seq<char>| after_gps.dom().contains(k) ==> self.sources().dom().contains(k),
                    old(self).config.enable_internal_clock ==> self.sources().dom().contains("internal"@)
                        && self.sources()["internal"@].is_active
                        && self.sources()["internal"@].stratum_level == StratumLevel::Stratum4,
                    old(self).config.enable_gps ==> self.sources().dom().contains("gps"@)
                        && !self.sources()["gps"@].is_active
                        && self.sources()["gps"@].stratum_level == StratumLevel::Stratum1,
                    active_kept_or_internal(start, self.sources()),
                decreases n - i,
            {
                let server = self.config.ntp_servers[i].clone();
                assert(("ntp-"@ + server@)[0] == 'n');
                assert("ntp-"@ + server@ != "internal"@) by {
                    assert(("ntp-"@ + server@)[0] != "internal"@[0]);
                }
                assert("ntp-"@ + server@ != "gps"@) by {
                    assert(("ntp-"@ + server@)[0] != "gps"@[0]);
                }
                self.add_ntp_source(server.as_str(), events);
                i = i + 1;
            }
        }
        let ghost before_ptp = self.sources();
        assert(forall|k: Seq<char>| after_gps.dom().contains(k) ==> before_ptp.dom().contains(k));
        if self.config.enable_ptp {
            let d = self.config.ptp_domain;
            let ghost key = "ptp-domain-"@ + decimal(d as nat);
            assert(key[0] == 'p');
            assert(key != "internal"@) by {
                assert(key[0] != "internal"@[0]);
            }
            assert(key != "gps"@) by {
                assert(key[0] != "gps"@[0]);
            }
            assert forall|j: int| 0 <= j < self.config.ntp_servers@.len() implies key != "ntp-"@ + (#[trigger] self.config.ntp_servers@[j])@ by {
                assert(("ntp-"@ + self.config.ntp_servers@[j]@)[0] == 'n');
            }
            self.add_ptp_source(d, events);
        }
    }

    /// The source that the configured algorithm prefers among the active ones,
    /// as a position in the list.
    fn best_position(&self) -> (r: Option<usize>)
        requires
            self.wf(),
        ensures
            r matches Some(i) ==> i < self.clock_sources.seq().len() && is_best_source(
                self.sources(),
                self.config.clock_selection_algorithm,
                self.clock_sources.seq()[i as int].source_id@,
            ),
            r is None ==> !any_active(self.sources()),
    {
        let alg = self.config.clock_selection_algorithm;
        let items = self.clock_sources.items();
        let mut best: Option<usize> = None;
        let mut i: usize = 0;
        while i < items.len()
            invariant
                self.wf(),
                items@ == self.clock_sources.seq(),
                alg == self.config.clock_selection_algorithm,
                i <= items@.len(),
                best matches Some(b) ==> b < i && items@[b as int].is_active && forall|j: int|
                    0 <= j < i && (#[trigger] items@[j]).is_active ==> selection_metric(alg, items@[b as int])
                        <= selection_metric(alg, items@[j]),
                best is None ==> forall|j: int| 0 <= j < i ==> !(#[trigger] items@[j]).is_active,
            decreases items@.len() - i,
        {
            if items[i].is_active {
                match best {
                    None => {
                        best = Some(i);
                    },
                    Some(b) => {
                        let better = match alg {
                            ClockSelectionAlgorithm::HighestStratum => items[i].stratum_level.rank() < items[b].stratum_level.rank(),
                            ClockSelectionAlgorithm::LowestError => items[i].time_error_ns < items[b].time_error_ns,
                            _ => items[i].allan_variance_fe < items[b].allan_variance_fe,
                        };
                        if better {
                            best = Some(i);
                        }
                    },
                }
            }
            i = i + 1;
        }
        proof {
            let m = self.sources();
            match best {
                Some(b) => {
                    self.clock_sources.lemma_get_at(b as int);
                    assert forall|k: Seq<char>| #[trigger] m.dom().contains(k) && m[k].is_active implies selection_metric(
                        alg,
                        m[items@[b as int].source_id@],
                    ) <= selection_metric(alg, m[k]) by {
                        let j = choose|j: int| 0 <= j < self.clock_sources.seq().len() && (#[trigger] self.clock_sources.seq()[j]).key() == k;
                        assert(m[k] == items@[j]);
                    }
                },
                None => {
                    assert forall|k: Seq<char>| #[trigger] m.dom().contains(k) implies !m[k].is_active by {
                        let j = choose|j: int| 0 <= j < self.clock_sources.seq().len() && (#[trigger] self.clock_sources.seq()[j]).key() == k;
                        assert(m[k] == items@[j]);
                    }
                },
            }
        }
        best
    }

    /// Chooses the reference clock by the configured algorithm: the best active
    /// source, or none (with an invalid stratum) when no source is active. Under
    /// manual selection nothing changes. A change of selection is announced.
    pub fn select_best_clock(&mut self, events: &mut Vec<TimingEvent>)
        requires
            old(self).wf(),
        ensures
            final(self).wf(),
            final(self).sources() == old(self).sources(),
            final(self).config == old(self).config,
            final(self).is_running == old(self).is_running,
            old(self).config.clock_selection_algorithm == ClockSelectionAlgorithm::Manual ==> final(self).selected_clock
                == old(self).selected_clock && final(self).system_stratum == old(self).system_stratum && final(events)@
                == old(events)@,
            old(self).config.clock_selection_algorithm != ClockSelectionAlgorithm::Manual ==> {
                &&& any_active(old(self).sources()) ==> (final(self).selected_clock matches Some(id) && is_best_source(
                    old(self).sources(),
                    old(self).config.clock_selection_algorithm,
                    id@,
                ) && final(self).system_stratum == old(self).sources()[id@].stratum_level)
                &&& !any_active(old(self).sources()) ==> final(self).selected_clock is None && final(self).system_stratum
                    == StratumLevel::Invalid && final(events)@ == old(events)@
                &&& opt_text(final(self).selected_clock) == opt_text(old(self).selected_clock) ==> final(events)@ == old(events)@
                &&& opt_text(final(self).selected_clock) != opt_text(old(self).selected_clock) && final(self).selected_clock is Some
                    ==> final(events)@ == old(events)@.push(
                    (TimingEvent::ClockSourceSelected {
                        source_id: final(self).selected_clock->0,
                        stratum_level: final(self).system_stratum,
                    }),
                )
            },
    {
        if self.config.clock_selection_algorithm == ClockSelectionAlgorithm::Manual {
            return;
        }
        match self.best_position() {
            Some(i) => {
                let s = self.clock_sources.at(i);
                let id = s.source_id.clone();
                let level = s.stratum_level;
                proof {
                    self.clock_sources.lemma_get_at(i as int);
                }
                let changed = match &self.selected_clock {
                    Some(old_id) => !(*old_id == id),
                    None => true,
                };
                if changed {
                    events.push(TimingEvent::ClockSourceSelected { source_id: id.clone(), stratum_level: level });
                }
                self.selected_clock = Some(id);
                self.system_stratum = level;
            },
            None => {
                self.selected_clock = None;
                self.system_stratum = StratumLevel::Invalid;
            },
        }
    }

    /// Adds the clock recovered from a TDM span as source `tdmoe-span-<span>`:
    /// active, at the stratum its quality stands for, with an error that
    /// grows tenfold per quality step (1 µs for primary). Then the reference
    /// clock is chosen anew.
    pub fn add_tdmoe_clock_source(&mut self, span_id: u32, quality: TdmClockQuality, now_ms: i64, events: &mut Vec<TimingEvent>)
        requires
            old(self).wf(),
        ensures
            final(self).wf(),
            final(self).sources().dom() == old(self).sources().dom().insert(tdmoe_source_id(span_id)),
            final(self).sources()[tdmoe_source_id(span_id)].is_active,
            final(self).sources()[tdmoe_source_id(span_id)].stratum_level == quality_stratum(quality),
            final(self).sources()[tdmoe_source_id(span_id)].time_error_ns == match quality {
                TdmClockQuality::Primary => 1_000u64,
                TdmClockQuality::Secondary => 10_000,
                TdmClockQuality::Tertiary => 100_000,
                TdmClockQuality::Degraded => 1_000_000,
                TdmClockQuality::Invalid => u64::MAX,
            },
            forall|k: Seq<char>| k != tdmoe_source_id(span_id) && old(self).sources().dom().contains(k) ==> final(self).sources()[k]
                == old(self).sources()[k],
            final(self).config == old(self).config,
            final(self).is_running == old(self).is_running,
            old(self).config.clock_selection_algorithm != ClockSelectionAlgorithm::Manual ==> (final(self).selected_clock matches Some(id)
                && is_best_source(final(self).sources(), old(self).config.clock_selection_algorithm, id@)
                && final(self).system_stratum == final(self).sources()[id@].stratum_level),
    {
        let num = u64_text(span_id as u64);
        let id = join2("tdmoe-span-", num.as_str());
        let time_error: u64 = match quality {
            TdmClockQuality::Primary => 1_000,
            TdmClockQuality::Secondary => 10_000,
            TdmClockQuality::Tertiary => 100_000,
            TdmClockQuality::Degraded => 1_000_000,
            TdmClockQuality::Invalid => u64::MAX,
        };
        let allan: u64 = match quality {
            TdmClockQuality::Primary => 10_000,
            TdmClockQuality::Secondary => 1_000_000,
            TdmClockQuality::Tertiary => 100_000_000,
            TdmClockQuality::Degraded => 10_000_000_000,
            TdmClockQuality::Invalid => 1_000_000_000_000_000,
        };
        let status = ClockStatus {
            source_id: id,
            source_type: ClockSourceType::TdmoeRecovered { source_span: span_id, quality, slip_count: 0 },
            stratum_level: quality.to_stratum_level(),
            is_active: true,
            is_holdover: false,
            last_sync_ms: Some(now_ms),
            frequency_offset_ppb: 0,
            phase_offset_ns: 0,
            time_error_ns: time_error,
            allan_variance_fe: allan,
            temperature_mc: None,
            signal_strength_mdb: None,
            error_count: 0,
            sync_count: 1,
            uptime_secs: 0,
        };
        self.add_source(status, ClockSourceType::TdmoeRecovered { source_span: span_id, quality, slip_count: 0 }, events);
        proof {
            let m = self.sources();
            assert(m.dom().contains(tdmoe_source_id(span_id)));
            assert(any_active(m));
        }
        self.select_best_clock(events);
    }

    /// Removes a source; if it was the selected one, the reference clock is
    /// chosen anew.
    pub fn remove_clock_source(&mut self, source_id: &str, events: &mut Vec<TimingEvent>)
        requires
            old(self).wf(),
        ensures
            final(self).wf(),
            final(self).sources() == old(self).sources().remove(source_id@),
            final(self).config == old(self).config,
            opt_text(old(self).selected_clock) != Some(source_id@) ==> final(self).selected_clock == old(self).selected_clock
                && final(self).system_stratum == old(self).system_stratum,
            opt_text(old(self).selected_clock) == Some(source_id@) && old(self).config.clock_selection_algorithm
                != ClockSelectionAlgorithm::Manual ==> {
                &&& any_active(final(self).sources()) ==> (final(self).selected_clock matches Some(id) && is_best_source(
                    final(self).sources(),
                    old(self).config.clock_selection_algorithm,
                    id@,
                ))
                &&& !any_active(final(self).sources()) ==> final(self).selected_clock is None && final(self).system_stratum
                    == StratumLevel::Invalid
            },
    {
        let removed = self.clock_sources.remove(source_id);
        match removed {
            Some(_) => {
                events.push(TimingEvent::ClockSourceRemoved { source_id: text(source_id) });
            },
            None => {},
        }
        let was_selected = match &self.selected_clock {
            Some(s) => crate::text::str_eq(s.as_str(), source_id),
            None => false,
        };
        if was_selected {
            self.select_best_clock(events);
        }
    }

    /// Selects a source by hand; the system stratum is left as it is. A source
    /// that is not known is an error.
    pub fn select_clock_source(&mut self, source_id: &str, events: &mut Vec<TimingEvent>) -> (r: GatewayResult<()>)
        requires
            old(self).wf(),
        ensures
            final(self).wf(),
            final(self).sources() == old(self).sources(),
            final(self).system_stratum == old(self).system_stratum,
            r is Ok <==> old(self).sources().dom().contains(source_id@),
            r is Ok ==> opt_text(final(self).selected_clock) == Some(source_id@) && final(events)@.len() == old(events)@.len() + 1,
            r matches Err(e) ==> e.kind() == 2 && e.message() == "Clock source not found: "@ + source_id@
                && final(self).selected_clock == old(self).selected_clock,
    {
        match self.clock_sources.get(source_id) {
            Some(s) => {
                let level = s.stratum_level;
                self.selected_clock = Some(text(source_id));
                events.push(TimingEvent::ClockSourceSelected { source_id: text(source_id), stratum_level: level });
                Ok(())
            },
            None => Err(GatewayError::InvalidState(join2("Clock source not found: ", source_id))),
        }
    }

    /// Records a new quality for the clock of a span: its stratum follows the
    /// quality, and a change of stratum is announced. Spans without a
    /// recovered clock are left alone.
    pub fn update_tdmoe_clock_quality(&mut self, span_id: u32, quality: TdmClockQuality, events: &mut Vec<TimingEvent>)
        requires
            old(self).wf(),
        ensures
            final(self).wf(),
            final(self).sources().dom() == old(self).sources().dom(),
            forall|k: Seq<char>| k != tdmoe_source_id(span_id) && old(self).sources().dom().contains(k) ==> final(self).sources()[k]
                == old(self).sources()[k],
            old(self).sources().dom().contains(tdmoe_source_id(span_id)) && old(self).sources()[tdmoe_source_id(span_id)].source_type is TdmoeRecovered
                ==> final(self).sources()[tdmoe_source_id(span_id)].stratum_level == quality_stratum(quality),
            final(self).selected_clock == old(self).selected_clock,
            final(self).system_stratum == old(self).system_stratum,
    {
        let num = u64_text(span_id as u64);
        let id = join2("tdmoe-span-", num.as_str());
        match self.clock_sources.position(id.as_str()) {
            None => {},
            Some(i) => {
                let s = self.clock_sources.at(i);
                match &s.source_type {
                    ClockSourceType::TdmoeRecovered { source_span, quality: _, slip_count } => {
                        let old_level = s.stratum_level;
                        let new_level = quality.to_stratum_level();
                        let updated = ClockStatus {
                            source_id: s.source_id.clone(),
                            source_type: ClockSourceType::TdmoeRecovered { source_span: *source_span, quality, slip_count: *slip_count },
                            stratum_level: new_level,
                            is_active: s.is_active,
                            is_holdover: s.is_holdover,
                            last_sync_ms: s.last_sync_ms,
                            frequency_offset_ppb: s.frequency_offset_ppb,
                            phase_offset_ns: s.phase_offset_ns,
                            time_error_ns: s.time_error_ns,
                            allan_variance_fe: s.allan_variance_fe,
                            temperature_mc: s.temperature_mc,
                            signal_strength_mdb: s.signal_strength_mdb,
                            error_count: s.error_count,
                            sync_count: s.sync_count,
                            uptime_secs: s.uptime_secs,
                        };
                        if old_level != new_level {
                            events.push(TimingEvent::StratumLevelChanged { old_stratum: old_level, new_stratum: new_level });
                        }
                        self.clock_sources.replace_at(i, updated);
                    },
                    _ => {},
                }
            },
        }
    }

    /// The clock sources by id.
    pub fn get_clock_sources(&self) -> (r: &KeyedList<ClockStatus>)
        ensures
            r.view() == self.sources(),
            r.wf() == self.wf(),
    {
        &self.clock_sources
    }

    /// The stratum of the selected reference.
    pub fn get_stratum_level(&self) -> (r: StratumLevel)
        ensures
            r == self.system_stratum,
    {
        self.system_stratum
    }

    /// The id of the selected reference, if any.
    pub fn get_selected_clock(&self) -> (r: Option<String>)
        ensures
            opt_text(r) == opt_text(self.selected_clock),
    {
        match &self.selected_clock {
            Some(s) => Some(s.clone()),
            None => None,
        }
    }

    /// The reference time corrected by the phase offset, in nanoseconds since
    /// the epoch.
    pub fn get_corrected_time(&self) -> (r: u64)
        requires
            0 <= self.reference_time_ns + self.phase_offset <= u64::MAX,
        ensures
            r == self.reference_time_ns + self.phase_offset,
    {
        if self.phase_offset > 0 {
            self.reference_time_ns + (self.phase_offset as u64)
        } else {
            let back: u64 = if self.phase_offset == i64::MIN { 0x8000_0000_0000_0000u64 } else { (-self.phase_offset) as u64 };
            self.reference_time_ns - back
        }
    }

    /// Stops the service.
    pub fn stop(&mut self)
        ensures
            !final(self).is_running,
            final(self).clock_sources == old(self).clock_sources,
    {
        self.is_running = false;
    }
}

/// The fix a receiver gets: 3D with eight or more satellites, 2D with four
/// or more, none with fewer or with a faulty antenna.
pub open spec fn gps_fix(satellites: u8, antenna: GpsAntennaStatus) -> GpsFixType {
    if satellites >= 4 && antenna == GpsAntennaStatus::AntennaOk {
        if satellites >= 8 { GpsFixType::Fix3D } else { GpsFixType::Fix2D }
    } else {
        GpsFixType::NoFix
    }
}

/// The time error of a fix, in nanoseconds.
pub open spec fn fix_error_ns(f: GpsFixType) -> u64 {
    match f {
        GpsFixType::Fix3D => 50_000,
        GpsFixType::Fix2D => 100_000,
        GpsFixType::DifferentialFix => 10_000,
        _ => 1_000_000,
    }
}

/// More satellites never give a worse fix: with the antenna working, the
/// fix's time error does not grow as satellites are added, a fix needs at
/// least four, and a three-dimensional fix is more precise than a flat one,
/// which is more precise than none. A faulty antenna gives no fix.
pub proof fn law_gps_fix_improves_with_satellites(fewer: u8, more: u8, antenna: GpsAntennaStatus)
    requires
        fewer <= more,
    ensures
        antenna == GpsAntennaStatus::AntennaOk ==> fix_error_ns(gps_fix(more, antenna)) <= fix_error_ns(gps_fix(fewer, antenna)),
        (gps_fix(fewer, antenna) != GpsFixType::NoFix) ==> fewer >= 4 && antenna == GpsAntennaStatus::AntennaOk,
        fix_error_ns(GpsFixType::Fix3D) < fix_error_ns(GpsFixType::Fix2D),
        fix_error_ns(GpsFixType::Fix2D) < fix_error_ns(GpsFixType::NoFix),
        antenna != GpsAntennaStatus::AntennaOk ==> gps_fix(more, antenna) == GpsFixType::NoFix,
{
}

/// A GPS source after its receiver reported `satellites` and `antenna` at
/// `now_ms`: active while it has a fix, then synchronised with the fix's
/// error. Other sources are unchanged.
pub open spec fn gps_reported(s: ClockStatus, satellites: u8, antenna: GpsAntennaStatus, now_ms: i64) -> ClockStatus {
    match s.source_type {
        ClockSourceType::Gps { device_path, .. } => {
            let fix = gps_fix(satellites, antenna);
            let active = fix != GpsFixType::NoFix;
            ClockStatus {
                source_type: ClockSourceType::Gps { device_path, antenna_status: antenna, satellite_count: satellites, fix_type: fix },
                is_active: active,
                last_sync_ms: if active { Some(now_ms) } else { s.last_sync_ms },
                sync_count: if active { (s.sync_count + 1) as u64 } else { s.sync_count },
                time_error_ns: if active { fix_error_ns(fix) } else { s.time_error_ns },
                ..s
            }
        },
        _ => s,
    }
}

/// The events a receiver report raises: the signal restored when a source
/// that was inactive gets a fix, lost when an active one loses it.
pub open spec fn gps_events(s: ClockStatus, satellites: u8, antenna: GpsAntennaStatus, now_ms: i64) -> Seq<TimingEvent> {
    match s.source_type {
        ClockSourceType::Gps { .. } => {
            let fix = gps_fix(satellites, antenna);
            let active = fix != GpsFixType::NoFix;
            if active && !s.is_active {
                seq![TimingEvent::GpsSignalRestored { satellite_count: satellites, fix_type: fix }]
            } else if !active && s.is_active {
                seq![TimingEvent::GpsSignalLost {
                    satellite_count: satellites,
                    last_fix_ms: match s.last_sync_ms { Some(t) => t, None => now_ms },
                }]
            } else {
                Seq::empty()
            }
        },
        _ => Seq::empty(),
    }
}

impl TimingService {
    /// Takes in a report of the GPS receiver (source `gps`): the satellites
    /// in view and the antenna's state, at `now_ms`.
    pub fn update_gps_receiver(
        &mut self,
        satellite_count: u8,
        antenna_status: GpsAntennaStatus,
        now_ms: i64,
        events: &mut Vec<TimingEvent>,
    )
        requires
            old(self).wf(),
            old(self).sources().dom().contains("gps"@) ==> old(self).sources()["gps"@].sync_count < u64::MAX,
        ensures
            final(self).wf(),
            final(self).selected_clock == old(self).selected_clock,
            final(self).is_running == old(self).is_running,
            if old(self).sources().dom().contains("gps"@) {
                &&& final(self).sources() == old(self).sources().insert(
                    "gps"@,
                    gps_reported(old(self).sources()["gps"@], satellite_count, antenna_status, now_ms),
                )
                &&& final(events)@ == old(events)@ + gps_events(old(self).sources()["gps"@], satellite_count, antenna_status, now_ms)
            } else {
                &&& final(self).sources() == old(self).sources()
                &&& final(events)@ == old(events)@
            },
    {
        let mut st = match self.clock_sources.remove("gps") {
            Some(st) => st,
            None => {
                proof {
                    assert(self.sources() =~= old(self).sources());
                }
                return;
            },
        };
        proof {
            reveal_strlit("gps");
            let sq = old(self).clock_sources.seq();
            let j = choose|j: int| 0 <= j < sq.len() && (#[trigger] sq[j]).key() == "gps"@;
            old(self).clock_sources.lemma_get_at(j);
        }
        let ghost s0 = st;
        let was_active = st.is_active;
        let source_type = st.source_type;
        match source_type {
            ClockSourceType::Gps { device_path, antenna_status: _, satellite_count: _, fix_type: _ } => {
                let fix = if satellite_count >= 4 && antenna_status == GpsAntennaStatus::AntennaOk {
                    if satellite_count >= 8 { GpsFixType::Fix3D } else { GpsFixType::Fix2D }
                } else {
                    GpsFixType::NoFix
                };
                let active = fix != GpsFixType::NoFix;
                st.source_type = ClockSourceType::Gps { device_path, antenna_status, satellite_count, fix_type: fix };
                st.is_active = active;
                if active {
                    st.last_sync_ms = Some(now_ms);
                    st.sync_count = st.sync_count + 1;
                    st.time_error_ns = match fix {
                        GpsFixType::Fix3D => 50_000,
                        GpsFixType::Fix2D => 100_000,
                        GpsFixType::DifferentialFix => 10_000,
                        _ => 1_000_000,
                    };
                    if !was_active {
                        events.push(TimingEvent::GpsSignalRestored { satellite_count, fix_type: fix });
                    }
                } else if was_active {
                    let last_fix_ms = match st.last_sync_ms {
                        Some(t) => t,
                        None => now_ms,
                    };
                    events.push(TimingEvent::GpsSignalLost { satellite_count, last_fix_ms });
                }
            },
            other => {
                st.source_type = other;
            },
        }
        assert(st == gps_reported(s0, satellite_count, antenna_status, now_ms));
        self.clock_sources.insert(st);
        proof {
            assert(events@ =~= old(events)@ + gps_events(s0, satellite_count, antenna_status, now_ms));
        }
    }

    /// A round of GPS monitoring: the receiver is read (here drawn at random:
    /// 4 to 11 satellites, the antenna open one time in twenty) and its
    /// report taken in.
    pub fn monitor_gps_receiver(&mut self, now_ms: i64, events: &mut Vec<TimingEvent>)
        requires
            old(self).wf(),
            old(self).sources().dom().contains("gps"@) ==> old(self).sources()["gps"@].sync_count < u64::MAX,
        ensures
            final(self).wf(),
            final(self).selected_clock == old(self).selected_clock,
            exists|satellites: u8, antenna: GpsAntennaStatus|
                4 <= satellites < 12 && (antenna == GpsAntennaStatus::AntennaOk || antenna == GpsAntennaStatus::OpenCircuit) && if old(
                    self,
                ).sources().dom().contains("gps"@) {
                    &&& final(self).sources() == old(self).sources().insert(
                        "gps"@,
                        gps_reported(old(self).sources()["gps"@], satellites, antenna, now_ms),
                    )
                    &&& final(events)@ == old(events)@ + gps_events(old(self).sources()["gps"@], satellites, antenna, now_ms)
                } else {
                    &&& final(self).sources() == old(self).sources()
                    &&& final(events)@ == old(events)@
                },
    {
        let satellites = 4 + crate::testing::random_below(8) as u8;
        let antenna = if crate::testing::random_below(1000) >= 950 {
            GpsAntennaStatus::OpenCircuit
        } else {
            GpsAntennaStatus::AntennaOk
        };
        self.update_gps_receiver(satellites, antenna, now_ms, events);
    }
}

/// How long a source may go without synchronising before it holds over:
/// five minutes.
pub const HOLDOVER_AFTER_MS: i64 = 300_000;

/// Whether a source's frequency offset is beyond the limit.
pub open spec fn drifting(s: ClockStatus, max_ppb: i64) -> bool {
    (if s.frequency_offset_ppb < 0 { -s.frequency_offset_ppb } else { s.frequency_offset_ppb as int }) > max_ppb
}

/// Whether a source goes into holdover at `now_ms`: not yet holding over,
/// and last synchronised more than five minutes ago.
pub open spec fn goes_holdover(s: ClockStatus, now_ms: i64) -> bool {
    !s.is_holdover && (s.last_sync_ms matches Some(t) && now_ms - t > HOLDOVER_AFTER_MS)
}

/// A source after a monitoring round at `now_ms`: ten seconds more uptime,
/// and holding over once it has gone five minutes without synchronising.
pub open spec fn monitored(s: ClockStatus, now_ms: i64) -> ClockStatus {
    ClockStatus {
        uptime_secs: if s.uptime_secs + 10 > u64::MAX { u64::MAX } else { (s.uptime_secs + 10) as u64 },
        is_holdover: s.is_holdover || goes_holdover(s, now_ms),
        ..s
    }
}

/// Whether `e` warns of the drift of source `s`.
pub open spec fn drift_event(e: TimingEvent, s: ClockStatus, max_ppb: i64) -> bool {
    e matches TimingEvent::FrequencyDrift { source_id, drift_ppb, threshold_ppb } && source_id@ == s.source_id@ && drift_ppb
        == s.frequency_offset_ppb && threshold_ppb == max_ppb
}

/// Whether `e` reports that source `s` went into holdover.
pub open spec fn holdover_event(e: TimingEvent, s: ClockStatus) -> bool {
    e matches TimingEvent::ClockHoldover { source_id, reason } && source_id@ == s.source_id@ && reason@
        == "No sync for 5 minutes"@
}

impl TimingService {
    /// A monitoring round over every source at `now_ms`: uptime grows by ten
    /// seconds, a drift beyond the configured limit is reported, and a source
    /// without sync for five minutes goes into holdover, which is reported.
    pub fn monitor_clock_sources(&mut self, now_ms: i64) -> (r: Vec<TimingEvent>)
        requires
            old(self).wf(),
        ensures
            final(self).wf(),
            final(self).selected_clock == old(self).selected_clock,
            final(self).config == old(self).config,
            final(self).sources().dom() == old(self).sources().dom(),
            forall|k: Seq<char>|
                #[trigger] old(self).sources().dom().contains(k) ==> final(self).sources()[k] == monitored(old(self).sources()[k], now_ms),
            forall|k: Seq<char>|
                #[trigger] old(self).sources().dom().contains(k) && drifting(old(self).sources()[k], old(self).config.max_frequency_offset_ppb)
                    ==> exists|a: int|
                    0 <= a < r@.len() && drift_event(
                        #[trigger] r@[a],
                        old(self).sources()[k],
                        old(self).config.max_frequency_offset_ppb,
                    ),
            forall|k: Seq<char>|
                #[trigger] old(self).sources().dom().contains(k) && goes_holdover(old(self).sources()[k], now_ms) ==> exists|a: int|
                    0 <= a < r@.len() && holdover_event(#[trigger] r@[a], old(self).sources()[k]),
    {
        let max = self.config.max_frequency_offset_ppb;
        let mut list: KeyedList<ClockStatus> = KeyedList::new();
        std::mem::swap(&mut list, &mut self.clock_sources);
        let ghost s = list.seq();
        let mut events: Vec<TimingEvent> = Vec::new();
        let ghost e0 = events@;
        let mut v = list.into_items();
        proof {
            reveal_strlit("No sync for 5 minutes");
        }
        while v.len() > 0
            invariant
                old(self).clock_sources.wf(),
                s == old(self).clock_sources.seq(),
                e0.len() == 0,
                max == old(self).config.max_frequency_offset_ppb,
                self.clock_sources.wf(),
                self.selected_clock == old(self).selected_clock,
                self.config == old(self).config,
                v@.len() <= s.len(),
                v@ == s.take(v@.len() as int),
                forall|k: Seq<char>|
                    #[trigger] self.sources().dom().contains(k) ==> exists|j: int| v@.len() <= j < s.len() && s[j].key() == k,
                forall|j: int|
                    v@.len() <= j < s.len() ==> self.sources().dom().contains(#[trigger] s[j].key()) && self.sources()[s[j].key()]
                        == monitored(s[j], now_ms),
                events@.len() >= e0.len(),
                forall|a: int| 0 <= a < e0.len() ==> events@[a] == e0[a],
                forall|j: int|
                    v@.len() <= j < s.len() && drifting(#[trigger] s[j], max) ==> exists|a: int|
                        e0.len() <= a < events@.len() && drift_event(events@[a], s[j], max),
                forall|j: int|
                    v@.len() <= j < s.len() && goes_holdover(#[trigger] s[j], now_ms) ==> exists|a: int|
                        e0.len() <= a < events@.len() && holdover_event(events@[a], s[j]),
            decreases v@.len(),
        {
            let ghost j = v@.len() - 1;
            let mut c = v.pop().unwrap();
            assert(c == s[j]);
            let ghost before = events@;
            proof {
                if self.sources().dom().contains(c.key()) {
                    let j2 = choose|j2: int| v@.len() + 1 <= j2 < s.len() && s[j2].key() == c.key();
                    assert(s[j].key() != s[j2].key());
                }
            }
            c.uptime_secs = if c.uptime_secs > u64::MAX - 10 { u64::MAX } else { c.uptime_secs + 10 };
            let offset = c.frequency_offset_ppb as i128;
            let magnitude: i128 = if offset < 0 { -offset } else { offset };
            if magnitude > max as i128 {
                events.push(TimingEvent::FrequencyDrift { source_id: text(c.source_id.as_str()), drift_ppb: c.frequency_offset_ppb, threshold_ppb: max });
            }
            let ghost mid = events@;
            let stale = match c.last_sync_ms {
                Some(t) => (now_ms as i128) - (t as i128) > HOLDOVER_AFTER_MS as i128,
                None => false,
            };
            if stale && !c.is_holdover {
                c.is_holdover = true;
                events.push(TimingEvent::ClockHoldover { source_id: text(c.source_id.as_str()), reason: text("No sync for 5 minutes") });
            }
            assert(c == monitored(s[j], now_ms));
            self.clock_sources.insert(c);
            proof {
                assert(v@ == s.take(v@.len() as int));
                assert forall|jj: int| v@.len() <= jj < s.len() implies self.sources().dom().contains(#[trigger] s[jj].key())
                    && self.sources()[s[jj].key()] == monitored(s[jj], now_ms) by {
                    if jj != j {
                        assert(s[jj].key() != s[j].key());
                    }
                }
                assert forall|a: int| 0 <= a < e0.len() implies events@[a] == e0[a] by {
                    assert(events@[a] == before[a]);
                }
                assert forall|jj: int| v@.len() <= jj < s.len() && drifting(#[trigger] s[jj], max) implies exists|a: int|
                    e0.len() <= a < events@.len() && drift_event(events@[a], s[jj], max) by {
                    if jj == j {
                        assert(drift_event(mid[before.len() as int], s[j], max));
                        assert(events@[before.len() as int] == mid[before.len() as int]);
                    } else {
                        let a = choose|a: int| e0.len() <= a < before.len() && drift_event(before[a], s[jj], max);
                        assert(events@[a] == before[a]);
                    }
                }
                assert forall|jj: int| v@.len() <= jj < s.len() && goes_holdover(#[trigger] s[jj], now_ms) implies exists|a: int|
                    e0.len() <= a < events@.len() && holdover_event(events@[a], s[jj]) by {
                    if jj == j {
                        assert(holdover_event(events@[events@.len() - 1], s[j]));
                    } else {
                        let a = choose|a: int| e0.len() <= a < before.len() && holdover_event(before[a], s[jj]);
                        assert(events@[a] == before[a]);
                    }
                }
            }
        }
        proof {
            let ov = old(self).sources();
            assert forall|k: Seq<char>| #[trigger] ov.dom().contains(k) implies self.sources().dom().contains(k)
                && self.sources()[k] == monitored(ov[k], now_ms) by {
                let j = choose|j: int| 0 <= j < s.len() && (#[trigger] s[j]).key() == k;
                old(self).clock_sources.lemma_get_at(j);
            }
            assert forall|k: Seq<char>| #[trigger] self.sources().dom().contains(k) implies ov.dom().contains(k) by {
                let j = choose|j: int| 0 <= j < s.len() && s[j].key() == k;
                old(self).clock_sources.lemma_get_at(j);
            }
            assert(self.sources().dom() =~= ov.dom());
            assert forall|k: Seq<char>| #[trigger] ov.dom().contains(k) && drifting(ov[k], max) implies exists|a: int|
                e0.len() <= a < events@.len() && drift_event(#[trigger] events@[a], ov[k], max) by {
                let j = choose|j: int| 0 <= j < s.len() && (#[trigger] s[j]).key() == k;
                old(self).clock_sources.lemma_get_at(j);
                assert(drifting(s[j], max));
            }
            assert forall|k: Seq<char>| #[trigger] ov.dom().contains(k) && goes_holdover(ov[k], now_ms) implies exists|a: int|
                e0.len() <= a < events@.len() && holdover_event(#[trigger] events@[a], ov[k]) by {
                let j = choose|j: int| 0 <= j < s.len() && (#[trigger] s[j]).key() == k;
                old(self).clock_sources.lemma_get_at(j);
                assert(goes_holdover(s[j], now_ms));
            }
        }
        events
    }
}

} // verus!
