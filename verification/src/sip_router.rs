//! The SIP router: routing decisions for calls, and the targets calls can be
//! balanced over.

use vstd::prelude::*;
use crate::b2bua::{RouteType, RoutingRule};
use crate::error::{GatewayError, GatewayResult};
use crate::text::{join2, text};

verus! {

/// The health of a target.
#[derive(Clone, Copy, Debug, PartialEq, Eq, Structural)]
pub enum HealthStatus {
    Healthy,
    Degraded,
    Unhealthy,
    Unknown,
}

/// How calls are spread over targets.
#[derive(Clone, Copy, Debug, PartialEq, Eq, Structural)]
pub enum LoadBalanceAlgorithm {
    RoundRobin,
    WeightedRoundRobin,
    LeastConnections,
    LeastResponseTime,
    HashBased,
}

/// Where a call is routed; the target address as `host:port`.
pub struct RoutingDecision {
    pub rule_id: String,
    pub target_uri: String,
    pub target_address: String,
    pub translated_number: String,
    pub priority: u8,
    pub route_type: RouteType,
    pub load_balance_weight: u32,
}

/// A call to route; the source address as `host:port`, the time in
/// milliseconds.
pub struct RoutingContext {
    pub call_id: String,
    pub caller: String,
    pub callee: String,
    pub original_uri: String,
    pub source_address: String,
    pub headers: Vec<(String, String)>,
    pub timestamp_ms: u64,
}

/// A target calls can be sent to; the address as `host:port`, the success
/// rate in permille, the last health check in milliseconds.
pub struct RouteTarget {
    pub id: String,
    pub address: String,
    pub weight: u32,
    pub priority: u8,
    pub max_calls: u32,
    pub current_calls: u32,
    pub health_status: HealthStatus,
    pub last_health_check_ms: u64,
    pub response_time_ms: u64,
    pub success_rate_permille: u32,
}

/// A concurrent map of route targets by id.
pub type TargetMap = dashmap::DashMap<String, RouteTarget>;

/// The targets that a `DashMap` holds, by id.
pub uninterp spec fn dash_targets(m: TargetMap) -> Map<Seq<char>, RouteTarget>;

/// `DashMap::new`: a map that holds nothing.
#[verifier::external_body]
fn targets_new() -> (r: TargetMap)
    ensures
        dash_targets(r).dom().len() == 0,
        dash_targets(r).dom().finite(),
{
    dashmap::DashMap::new()
}

/// `DashMap::insert`: the map holds `t` under `id` afterwards, in place of
/// any target it held there.
#[verifier::external_body]
fn targets_insert(m: &mut TargetMap, id: String, t: RouteTarget)
    ensures
        dash_targets(*final(m)) == dash_targets(*old(m)).insert(id@, t),
{
    m.insert(id, t);
}

/// `DashMap::remove`: the map no longer holds `id`, and the target it held
/// there, if any, is handed back (without its key).
#[verifier::external_body]
fn targets_remove(m: &mut TargetMap, id: &str) -> (r: Option<RouteTarget>)
    ensures
        dash_targets(*final(m)) == dash_targets(*old(m)).remove(id@),
        r is Some <==> dash_targets(*old(m)).dom().contains(id@),
        r matches Some(t) ==> t == dash_targets(*old(m))[id@],
{
    match m.remove(id) {
        Some((_, t)) => Some(t),
        None => None,
    }
}

/// `DashMap::len`: the number of entries of the map.
#[verifier::external_body]
fn targets_len(m: &TargetMap) -> (r: usize)
    ensures
        r == dash_targets(*m).dom().len(),
{
    m.len()
}

/// `DashMap::clear`: the map holds nothing afterwards.
#[verifier::external_body]
fn targets_clear(m: &mut TargetMap)
    ensures
        dash_targets(*final(m)).dom().len() == 0,
        dash_targets(*final(m)).dom().finite(),
{
    m.clear();
}

/// The routing cache's figures; the hit rate in permille, the average time
/// to live in seconds.
#[derive(Clone, Copy, Debug, PartialEq, Eq, Structural)]
pub struct CacheStatistics {
    pub total_entries: usize,
    pub hit_rate_permille: u32,
    pub average_ttl_secs: u64,
}

/// The router's figures.
#[derive(Clone, Copy, Debug, PartialEq, Eq, Structural)]
pub struct RoutingStatistics {
    pub total_targets: usize,
    pub healthy_targets: usize,
    pub degraded_targets: usize,
    pub unhealthy_targets: usize,
    pub total_calls_routed: u64,
    pub cache_stats: CacheStatistics,
    pub average_routing_time_ms: u64,
}

/// The router: its rules, its targets by id, and how it balances.
pub struct SipRouter {
    pub routing_rules: Vec<RoutingRule>,
    pub route_targets: TargetMap,
    pub load_balance_algorithm: LoadBalanceAlgorithm,
    pub is_running: bool,
}

/// The rule every decision is made under.
pub const STUB_RULE_ID: &'static str = "stub-rule";

impl SipRouter {
    /// The route targets by id.
    pub open spec fn targets(&self) -> Map<Seq<char>, RouteTarget> {
        dash_targets(self.route_targets)
    }

    /// A stopped router with the given rules and no targets.
    pub fn new(routing_rules: Vec<RoutingRule>, load_balance_algorithm: LoadBalanceAlgorithm) -> (r: Self)
        ensures
            r.routing_rules@ == routing_rules@,
            r.targets() == Map::<Seq<char>, RouteTarget>::empty(),
            r.load_balance_algorithm == load_balance_algorithm,
            !r.is_running,
    {
        SipRouter { routing_rules, route_targets: targets_new(), load_balance_algorithm, is_running: false }
    }

    /// Starts the router.
    pub fn start(&mut self) -> (r: GatewayResult<()>)
        ensures
            r is Ok,
            final(self).is_running,
            final(self).route_targets == old(self).route_targets,
            final(self).routing_rules@ == old(self).routing_rules@,
    {
        self.is_running = true;
        Ok(())
    }

    /// Routes a call directly to the local proxy: to
    /// `sip:<callee>@localhost:5060` at `127.0.0.1:5060`, the number
    /// untranslated, with priority and weight 1.
    pub fn route_call(&self, context: &RoutingContext) -> (r: GatewayResult<RoutingDecision>)
        ensures
            r matches Ok(d) && {
                &&& d.rule_id@ == STUB_RULE_ID@
                &&& d.target_uri@ == "sip:"@ + context.callee@ + "@localhost:5060"@
                &&& d.target_address@ == "127.0.0.1:5060"@
                &&& d.translated_number@ == context.callee@
                &&& d.priority == 1
                &&& d.route_type == RouteType::Direct
                &&& d.load_balance_weight == 1
            },
    {
        let head = join2("sip:", context.callee.as_str());
        let uri = join2(head.as_str(), "@localhost:5060");
        Ok(RoutingDecision {
            rule_id: text(STUB_RULE_ID),
            target_uri: uri,
            target_address: text("127.0.0.1:5060"),
            translated_number: text(context.callee.as_str()),
            priority: 1,
            route_type: RouteType::Direct,
            load_balance_weight: 1,
        })
    }

    /// Adds a target, replacing the one with the same id.
    pub fn add_target(&mut self, target: RouteTarget) -> (r: GatewayResult<()>)
        ensures
            r is Ok,
            final(self).targets() == old(self).targets().insert(target.id@, target),
            final(self).is_running == old(self).is_running,
    {
        let id = text(target.id.as_str());
        targets_insert(&mut self.route_targets, id, target);
        Ok(())
    }

    /// Takes out a target; an unknown id is an error.
    pub fn remove_target(&mut self, target_id: &str) -> (r: GatewayResult<()>)
        ensures
            final(self).targets() == old(self).targets().remove(target_id@),
            final(self).is_running == old(self).is_running,
            r is Ok <==> old(self).targets().dom().contains(target_id@),
            r matches Err(e) ==> e.kind() == 5 && e.message() == "Target not found"@,
    {
        match targets_remove(&mut self.route_targets, target_id) {
            Some(_) => Ok(()),
            None => Err(GatewayError::B2bua(text("Target not found"))),
        }
    }
    /// Sets the number of calls a target carries; an unknown id is an error.
    pub fn update_target_calls(&mut self, target_id: &str, call_count: u32) -> (r: GatewayResult<()>)
        ensures
            final(self).is_running == old(self).is_running,
            r is Ok <==> old(self).targets().dom().contains(target_id@),
            r matches Err(e) ==> e.kind() == 5 && e.message() == "Target not found"@,
            if old(self).targets().dom().contains(target_id@) {
                final(self).targets() == old(self).targets().insert(
                    target_id@,
                    RouteTarget { current_calls: call_count, ..old(self).targets()[target_id@] },
                )
            } else {
                final(self).targets() == old(self).targets()
            },
    {
        match targets_remove(&mut self.route_targets, target_id) {
            Some(mut t) => {
                let ghost t0 = t;
                t.current_calls = call_count;
                targets_insert(&mut self.route_targets, text(target_id), t);
                proof {
                    assert(self.targets() =~= old(self).targets().insert(
                        target_id@,
                        RouteTarget { current_calls: call_count, ..t0 },
                    ));
                }
                Ok(())
            },
            None => Err(GatewayError::B2bua(text("Target not found"))),
        }
    }

    /// The router's figures: the number of targets; health is not tracked
    /// and no call is counted, so the other counts are zero, with an empty
    /// cache whose entries live 300 seconds.
    pub fn get_routing_statistics(&self) -> (r: RoutingStatistics)
        ensures
            r == (RoutingStatistics {
                total_targets: self.targets().dom().len() as usize,
                healthy_targets: 0,
                degraded_targets: 0,
                unhealthy_targets: 0,
                total_calls_routed: 0,
                cache_stats: CacheStatistics { total_entries: 0, hit_rate_permille: 0, average_ttl_secs: 300 },
                average_routing_time_ms: 0,
            }),
    {
        RoutingStatistics {
            total_targets: targets_len(&self.route_targets),
            healthy_targets: 0,
            degraded_targets: 0,
            unhealthy_targets: 0,
            total_calls_routed: 0,
            cache_stats: CacheStatistics { total_entries: 0, hit_rate_permille: 0, average_ttl_secs: 300 },
            average_routing_time_ms: 0,
        }
    }

    /// Stops the router and forgets its targets.
    pub fn stop(&mut self) -> (r: GatewayResult<()>)
        ensures
            r is Ok,
            !final(self).is_running,
            final(self).targets() == Map::<Seq<char>, RouteTarget>::empty(),
            final(self).routing_rules@ == old(self).routing_rules@,
    {
        self.is_running = false;
        targets_clear(&mut self.route_targets);
        Ok(())
    }
}

} // verus!
