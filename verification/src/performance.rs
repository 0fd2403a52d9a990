//! Performance monitoring: snapshots of the system's figures, alerts when a
//! figure reaches its warning or critical threshold, and a bounded history.
//! Percentages and load averages are held in hundredths.

use vstd::prelude::*;
use crate::error::GatewayResult;
use crate::text::text;

verus! {

/// How serious an alert is.
#[derive(Clone, Copy, Debug, PartialEq, Eq, Structural)]
pub enum AlertLevel {
    Info,
    Warning,
    Critical,
}

/// A snapshot of the system's figures, taken at `timestamp_ms`.
#[derive(Clone, Copy, Debug, PartialEq, Eq, Structural)]
pub struct PerformanceMetrics {
    pub timestamp_ms: u64,
    pub cpu_usage_centi: u32,
    pub memory_usage_centi: u32,
    pub memory_total: u64,
    pub memory_used: u64,
    pub load_average_centi: u32,
    pub disk_usage_centi: u32,
    pub disk_total: u64,
    pub disk_used: u64,
    pub network_bytes_sent: u64,
    pub network_bytes_received: u64,
    pub network_packets_sent: u64,
    pub network_packets_received: u64,
    pub network_errors_in: u64,
    pub network_errors_out: u64,
}

/// The alert thresholds, in hundredths of a percent (the load in hundredths).
#[derive(Clone, Copy, Debug, PartialEq, Eq, Structural)]
pub struct PerformanceThresholds {
    pub cpu_warning_centi: u32,
    pub cpu_critical_centi: u32,
    pub memory_warning_centi: u32,
    pub memory_critical_centi: u32,
    pub disk_warning_centi: u32,
    pub disk_critical_centi: u32,
    pub load_warning_centi: u32,
    pub load_critical_centi: u32,
    pub network_error_rate_centi: u32,
    pub network_utilization_warning_centi: u32,
}

/// Monitoring settings: the collection interval in milliseconds and how many
/// snapshots are kept.
#[derive(Clone, Copy, Debug, PartialEq, Eq, Structural)]
pub struct PerformanceConfig {
    pub enabled: bool,
    pub interval_ms: u32,
    pub history_size: u32,
    pub thresholds: PerformanceThresholds,
}

/// A figure that reached a threshold.
pub struct ThresholdAlert {
    pub metric: String,
    pub value_centi: u32,
    pub threshold_centi: u32,
    pub level: AlertLevel,
}

/// The share `used` is of `total`, in hundredths of a percent, rounded down;
/// none of nothing.
pub open spec fn usage_share(used: u64, total: u64) -> Option<int> {
    if total == 0 {
        None
    } else {
        Some((used as int * 10_000) / total as int)
    }
}

/// A share is rounded down: it is at most the exact share and less than a
/// hundredth of a percent below it; it grows with what is used, and all of
/// the total is 100% (10000).
pub proof fn law_usage_share_rounds_down(used: u64, more: u64, total: u64)
    requires
        total > 0,
        used <= more,
    ensures
        usage_share(used, total).unwrap() * total <= used * 10_000 < (usage_share(used, total).unwrap() + 1) * total,
        usage_share(used, total).unwrap() <= usage_share(more, total).unwrap(),
        usage_share(total, total) == Some(10_000int),
        used <= total ==> usage_share(used, total).unwrap() <= 10_000,
{
    let n: int = used as int * 10_000;
    let d: int = total as int;
    vstd::arithmetic::div_mod::lemma_fundamental_div_mod(n, d);
    vstd::arithmetic::div_mod::lemma_mod_pos_bound(n, d);
    assert((n / d) * d <= n < (n / d + 1) * d) by (nonlinear_arith)
        requires
            n == d * (n / d) + n % d,
            0 <= n % d < d,
    ;
    vstd::arithmetic::div_mod::lemma_div_is_ordered(n, more as int * 10_000, d);
    if used <= total {
        assert(n <= d * 10_000) by (nonlinear_arith)
            requires
                n == used as int * 10_000,
                d == total as int,
                used <= total,
        ;
        vstd::arithmetic::div_mod::lemma_div_is_ordered(n, d * 10_000, d);
    }
    assert((d * 10_000) / d == 10_000) by {
        vstd::arithmetic::div_mod::lemma_div_multiples_vanish(10_000, d);
    }
    assert(total as int * 10_000 == d * 10_000);
}

/// Levels grow with the figure: a larger figure never reaches a lower level,
/// and a figure at or above the critical threshold is critical.
pub proof fn law_level_grows_with_the_figure(low: u32, high: u32, warning: u32, critical: u32)
    requires
        low <= high,
    ensures
        level_of(low, warning, critical) is Some ==> level_of(high, warning, critical) is Some,
        level_of(low, warning, critical) == Some(AlertLevel::Critical) ==> level_of(high, warning, critical) == Some(
            AlertLevel::Critical,
        ),
        high >= critical ==> level_of(high, warning, critical) == Some(AlertLevel::Critical),
        high < warning && high < critical ==> level_of(high, warning, critical) is None,
{
}

/// The share `used` is of `total`, in hundredths of a percent (rounded down,
/// held to `u32`); `None` when `total` is zero.
pub fn usage_centi(used: u64, total: u64) -> (r: Option<u32>)
    ensures
        match usage_share(used, total) {
            None => r is None,
            Some(s) => r == Some(if s > u32::MAX { u32::MAX } else { s as u32 }),
        },
{
    if total == 0 {
        return None;
    }
    let share: u128 = (used as u128 * 10_000) / total as u128;
    Some(if share > u32::MAX as u128 { u32::MAX } else { share as u32 })
}

/// The level a figure reaches: critical at or above the critical threshold,
/// else warning at or above the warning threshold.
pub open spec fn level_of(value: u32, warning: u32, critical: u32) -> Option<AlertLevel> {
    if value >= critical {
        Some(AlertLevel::Critical)
    } else if value >= warning {
        Some(AlertLevel::Warning)
    } else {
        None
    }
}

/// An alert as plain values: metric, value, threshold, level.
pub open spec fn alert_view(a: ThresholdAlert) -> (Seq<char>, u32, u32, AlertLevel) {
    (a.metric@, a.value_centi, a.threshold_centi, a.level)
}

/// The alert for one figure, if it reached a threshold: with the threshold
/// it reached.
pub open spec fn figure_alert(name: Seq<char>, value: u32, warning: u32, critical: u32) -> Seq<(Seq<char>, u32, u32, AlertLevel)> {
    match level_of(value, warning, critical) {
        Some(AlertLevel::Critical) => seq![(name, value, critical, AlertLevel::Critical)],
        Some(l) => seq![(name, value, warning, l)],
        None => Seq::empty(),
    }
}

/// The alerts a snapshot raises, CPU, memory, disk, then load.
pub open spec fn alerts_for(m: PerformanceMetrics, t: PerformanceThresholds) -> Seq<(Seq<char>, u32, u32, AlertLevel)> {
    figure_alert("CPU Usage"@, m.cpu_usage_centi, t.cpu_warning_centi, t.cpu_critical_centi) + figure_alert(
        "Memory Usage"@,
        m.memory_usage_centi,
        t.memory_warning_centi,
        t.memory_critical_centi,
    ) + figure_alert("Disk Usage"@, m.disk_usage_centi, t.disk_warning_centi, t.disk_critical_centi) + figure_alert(
        "Load Average"@,
        m.load_average_centi,
        t.load_warning_centi,
        t.load_critical_centi,
    )
}

fn push_figure_alert(alerts: &mut Vec<ThresholdAlert>, name: &str, value: u32, warning: u32, critical: u32)
    ensures
        final(alerts)@.map_values(|a: ThresholdAlert| alert_view(a)) == old(alerts)@.map_values(
            |a: ThresholdAlert| alert_view(a),
        ) + figure_alert(name@, value, warning, critical),
{
    let ghost before = alerts@;
    if value >= critical {
        alerts.push(ThresholdAlert { metric: text(name), value_centi: value, threshold_centi: critical, level: AlertLevel::Critical });
    } else if value >= warning {
        alerts.push(ThresholdAlert { metric: text(name), value_centi: value, threshold_centi: warning, level: AlertLevel::Warning });
    }
    proof {
        assert(alerts@.map_values(|a: ThresholdAlert| alert_view(a)) =~= before.map_values(|a: ThresholdAlert| alert_view(a))
            + figure_alert(name@, value, warning, critical));
    }
}

/// The alerts a snapshot raises against the thresholds.
pub fn check_thresholds(metrics: &PerformanceMetrics, thresholds: &PerformanceThresholds) -> (r: Vec<ThresholdAlert>)
    ensures
        r@.map_values(|a: ThresholdAlert| alert_view(a)) == alerts_for(*metrics, *thresholds),
{
    let mut alerts: Vec<ThresholdAlert> = Vec::new();
    proof {
        assert(alerts@.map_values(|a: ThresholdAlert| alert_view(a)) =~= Seq::<(Seq<char>, u32, u32, AlertLevel)>::empty());
    }
    push_figure_alert(&mut alerts, "CPU Usage", metrics.cpu_usage_centi, thresholds.cpu_warning_centi, thresholds.cpu_critical_centi);
    push_figure_alert(
        &mut alerts,
        "Memory Usage",
        metrics.memory_usage_centi,
        thresholds.memory_warning_centi,
        thresholds.memory_critical_centi,
    );
    push_figure_alert(&mut alerts, "Disk Usage", metrics.disk_usage_centi, thresholds.disk_warning_centi, thresholds.disk_critical_centi);
    push_figure_alert(&mut alerts, "Load Average", metrics.load_average_centi, thresholds.load_warning_centi, thresholds.load_critical_centi);
    proof {
        assert(alerts@.map_values(|a: ThresholdAlert| alert_view(a)) =~= alerts_for(*metrics, *thresholds));
    }
    alerts
}

/// The last `n` entries of a history (all of it when shorter).
pub open spec fn last_n(s: Seq<PerformanceMetrics>, n: nat) -> Seq<PerformanceMetrics> {
    if s.len() > n { s.skip(s.len() - n) } else { s }
}

/// The history keeps at most its size: the newest snapshots, in order,
/// the one recorded last among them whenever any is kept.
pub proof fn law_history_bounded(history: Seq<PerformanceMetrics>, m: PerformanceMetrics, size: nat)
    ensures
        last_n(history.push(m), size).len() == if history.len() + 1 > size { size } else { history.len() + 1 },
        size > 0 ==> last_n(history.push(m), size).last() == m,
        forall|i: int|
            0 <= i < last_n(history.push(m), size).len() ==> #[trigger] last_n(history.push(m), size)[i] == history.push(m)[
                history.len() + 1 - last_n(history.push(m), size).len() + i],
{
}

/// The monitor: its settings, the snapshots kept, oldest first.
pub struct PerformanceMonitor {
    pub config: PerformanceConfig,
    pub thresholds: PerformanceThresholds,
    pub metrics_history: Vec<PerformanceMetrics>,
    pub is_running: bool,
}

impl PerformanceMonitor {
    /// A stopped monitor with no snapshots, using the configured thresholds.
    pub fn new(config: PerformanceConfig) -> (r: GatewayResult<Self>)
        ensures
            r matches Ok(m) && m.config == config && m.thresholds == config.thresholds && m.metrics_history@.len() == 0
                && !m.is_running,
    {
        Ok(PerformanceMonitor { config, thresholds: config.thresholds, metrics_history: Vec::new(), is_running: false })
    }

    /// Starts the monitor, unless monitoring is disabled.
    pub fn start(&mut self) -> (r: GatewayResult<()>)
        ensures
            r is Ok,
            final(self).is_running == (old(self).is_running || old(self).config.enabled),
            final(self).metrics_history@ == old(self).metrics_history@,
            final(self).config == old(self).config,
            final(self).thresholds == old(self).thresholds,
    {
        if self.config.enabled {
            self.is_running = true;
        }
        Ok(())
    }

    /// Stops the monitor.
    pub fn stop(&mut self) -> (r: GatewayResult<()>)
        ensures
            r is Ok,
            !final(self).is_running,
            final(self).metrics_history@ == old(self).metrics_history@,
            final(self).config == old(self).config,
            final(self).thresholds == old(self).thresholds,
    {
        self.is_running = false;
        Ok(())
    }

    /// Whether the monitor runs.
    pub fn is_running(&self) -> (r: bool)
        ensures
            r == self.is_running,
    {
        self.is_running
    }

    /// Records a snapshot: returns the alerts it raises, and keeps it,
    /// dropping the oldest snapshots beyond the history size.
    pub fn record_metrics(&mut self, metrics: PerformanceMetrics) -> (r: Vec<ThresholdAlert>)
        ensures
            r@.map_values(|a: ThresholdAlert| alert_view(a)) == alerts_for(metrics, old(self).thresholds),
            final(self).metrics_history@ == last_n(
                old(self).metrics_history@.push(metrics),
                old(self).config.history_size as nat,
            ),
            final(self).config == old(self).config,
            final(self).thresholds == old(self).thresholds,
            final(self).is_running == old(self).is_running,
    {
        let alerts = check_thresholds(&metrics, &self.thresholds);
        self.metrics_history.push(metrics);
        let ghost s = self.metrics_history@;
        let max = self.config.history_size as usize;
        let ghost mut dropped: int = 0;
        while self.metrics_history.len() > max
            invariant
                max == old(self).config.history_size,
                s == old(self).metrics_history@.push(metrics),
                0 <= dropped <= s.len(),
                self.metrics_history@ == s.skip(dropped),
                dropped > 0 ==> s.len() - dropped >= max,
                self.config == old(self).config,
                self.thresholds == old(self).thresholds,
                self.is_running == old(self).is_running,
            decreases self.metrics_history@.len(),
        {
            self.metrics_history.remove(0);
            proof {
                assert(self.metrics_history@ =~= s.skip(dropped + 1));
                dropped = dropped + 1;
            }
        }
        proof {
            if s.len() > max {
                assert(dropped == s.len() - max);
            } else {
                assert(dropped == 0);
                assert(s.skip(0) =~= s);
            }
        }
        alerts
    }

    /// The latest snapshot, if any.
    pub fn get_current_metrics(&self) -> (r: Option<PerformanceMetrics>)
        ensures
            r == (if self.metrics_history@.len() == 0 {
                None
            } else {
                Some(self.metrics_history@.last())
            }),
    {
        let n = self.metrics_history.len();
        if n == 0 {
            None
        } else {
            Some(self.metrics_history[n - 1])
        }
    }

    /// The snapshots kept, oldest first.
    pub fn get_metrics_history(&self) -> (r: &Vec<PerformanceMetrics>)
        ensures
            r@ == self.metrics_history@,
    {
        &self.metrics_history
    }

    /// The snapshots taken at or after `since_ms`, oldest first.
    pub fn get_metrics_since(&self, since_ms: u64) -> (r: Vec<PerformanceMetrics>)
        ensures
            r@ == self.metrics_history@.filter(|m: PerformanceMetrics| m.timestamp_ms >= since_ms),
    {
        let mut r: Vec<PerformanceMetrics> = Vec::new();
        let mut i: usize = 0;
        while i < self.metrics_history.len()
            invariant
                i <= self.metrics_history@.len(),
                r@ == self.metrics_history@.take(i as int).filter(|m: PerformanceMetrics| m.timestamp_ms >= since_ms),
            decreases self.metrics_history@.len() - i,
        {
            let m = self.metrics_history[i];
            proof {
                let h = self.metrics_history@;
                assert(h.take(i + 1).drop_last() =~= h.take(i as int));
                reveal(Seq::filter);
            }
            if m.timestamp_ms >= since_ms {
                r.push(m);
            }
            i = i + 1;
        }
        proof {
            assert(self.metrics_history@.take(self.metrics_history@.len() as int) =~= self.metrics_history@);
        }
        r
    }

    /// The thresholds in use.
    pub fn get_thresholds(&self) -> (r: &PerformanceThresholds)
        ensures
            *r == self.thresholds,
    {
        &self.thresholds
    }
}

} // verus!
