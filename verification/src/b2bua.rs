//! Back-to-back user agent: routing of incoming calls, the destination of
//! their outgoing leg, and the life of each call from establishing to
//! terminated. Signalling and media run outside; they report here and act on
//! what comes back. Times are milliseconds.

use vstd::prelude::*;
use crate::error::{GatewayError, GatewayResult};
use crate::keyed::{active_part, idle, Active, Keyed};
use crate::text::{copy_key, copy_opt, copy_strings, join2, text, str_eq, chars_of};
use crate::debug::{contains_text, text_contains};
use crate::interface_testing::{new_test_id, uuid_text};

verus! {

/// How a call is routed.
#[derive(Clone, Copy, Debug, PartialEq, Eq, Structural)]
pub enum RouteType {
    Direct,
    Gateway,
    Emergency,
}

/// A change to the called number: a prefix taken off, then one put on.
pub struct NumberTranslation {
    pub prefix_strip: Option<String>,
    pub prefix_add: Option<String>,
}

/// A routing rule: calls whose callee contains the pattern go to the target.
pub struct RoutingRule {
    pub id: String,
    pub pattern: String,
    pub route_type: RouteType,
    pub target: String,
    pub priority: u8,
    pub translation: Option<NumberTranslation>,
    pub codec_preference: Vec<String>,
}

/// B2BUA configuration; timeouts in seconds.
pub struct B2buaConfig {
    pub max_concurrent_calls: u32,
    pub call_timeout: u64,
    pub media_timeout: u64,
    pub default_route_gateway: Option<String>,
    pub enable_media_relay: bool,
    pub enable_codec_transcoding: bool,
    pub routing_table: Vec<RoutingRule>,
}

/// Where a call goes.
pub struct RoutingInfo {
    pub route_type: RouteType,
    pub target_gateway: Option<String>,
    pub number_translation: Option<NumberTranslation>,
    pub codec_preference: Vec<String>,
    pub priority: u8,
}

/// A call's leg.
#[derive(Clone, Copy, Debug, PartialEq, Eq, Structural)]
pub enum CallLeg {
    A,
    B,
}

/// A call's state.
#[derive(Clone, Copy, Debug, PartialEq, Eq, Structural)]
pub enum B2buaCallState {
    Idle,
    Establishing,
    Ringing,
    Connected,
    Disconnecting,
    Terminated,
}

/// A call between an incoming leg A and an outgoing leg B.
pub struct B2buaCall {
    pub id: String,
    pub state: B2buaCallState,
    pub leg_a_session_id: String,
    pub leg_b_session_id: Option<String>,
    pub leg_a_rtp_session_id: Option<String>,
    pub leg_b_rtp_session_id: Option<String>,
    pub caller: String,
    pub callee: String,
    pub destination_uri: String,
    pub created_ms: u64,
    pub connected_ms: Option<u64>,
    pub terminated_ms: Option<u64>,
    pub last_activity_ms: u64,
    pub call_duration_ms: Option<u64>,
    pub routing_info: RoutingInfo,
}

impl Active for B2buaCall {
    open spec fn activity(&self) -> u64 {
        self.last_activity_ms
    }

    fn activity_ms(&self) -> (r: u64) {
        self.last_activity_ms
    }
}

impl Keyed for B2buaCall {
    open spec fn key(&self) -> Seq<char> {
        self.id@
    }

    fn key_text(&self) -> (r: &String) {
        &self.id
    }
}

/// The media relayed for a call.
pub struct MediaRelay {
    pub call_id: String,
    pub leg_a_rtp_port: u16,
    pub leg_b_rtp_port: u16,
    pub leg_a_remote_addr: Option<String>,
    pub leg_b_remote_addr: Option<String>,
    pub bytes_relayed_a_to_b: u64,
    pub bytes_relayed_b_to_a: u64,
    pub packets_relayed_a_to_b: u64,
    pub packets_relayed_b_to_a: u64,
    pub started_ms: u64,
    pub last_activity_ms: u64,
}

impl Active for MediaRelay {
    open spec fn activity(&self) -> u64 {
        self.last_activity_ms
    }

    fn activity_ms(&self) -> (r: u64) {
        self.last_activity_ms
    }
}

impl Keyed for MediaRelay {
    open spec fn key(&self) -> Seq<char> {
        self.call_id@
    }

    fn key_text(&self) -> (r: &String) {
        &self.call_id
    }
}

/// The first position from `i` on where `p` occurs in `s`, if any.
pub open spec fn first_occurrence(s: Seq<char>, p: Seq<char>, i: int) -> Option<int>
    decreases s.len() + 1 - i,
{
    if i < 0 || i + p.len() > s.len() {
        None
    } else if s.subrange(i, i + p.len()) == p {
        Some(i)
    } else {
        first_occurrence(s, p, i + 1)
    }
}

/// The user part of a SIP URI: what lies between the first `sip:` and the
/// first `@` after it.
pub open spec fn uri_user(uri: Seq<char>) -> Option<Seq<char>> {
    match first_occurrence(uri, "sip:"@, 0) {
        Some(start) => {
            let after = uri.subrange(start + 4, uri.len() as int);
            match first_occurrence(after, "@"@, 0) {
                Some(end) => Some(after.subrange(0, end)),
                None => None,
            }
        },
        None => None,
    }
}

proof fn lemma_first_occurrence(s: Seq<char>, p: Seq<char>, i: int)
    ensures
        first_occurrence(s, p, i) matches Some(j) ==> i <= j && j + p.len() <= s.len() && s.subrange(j, j + p.len()) == p,
    decreases s.len() + 1 - i,
{
    if i < 0 || i + p.len() > s.len() {
    } else if s.subrange(i, i + p.len()) == p {
    } else {
        lemma_first_occurrence(s, p, i + 1);
    }
}

fn find_text(s: &Vec<char>, p: &Vec<char>, from: usize) -> (r: Option<usize>)
    requires
        from <= s@.len(),
    ensures
        r is None <==> first_occurrence(s@, p@, from as int) is None,
        r matches Some(i) ==> first_occurrence(s@, p@, from as int) == Some(i as int) && i + p@.len() <= s@.len(),
{
    let mut i = from;
    while i <= s.len() && p.len() <= s.len() - i
        invariant
            from <= i,
            i <= s@.len() + 1,
            first_occurrence(s@, p@, from as int) == first_occurrence(s@, p@, i as int),
        decreases s@.len() + 1 - i,
    {
        let mut j: usize = 0;
        let mut same = true;
        while j < p.len()
            invariant
                i + p@.len() <= s@.len(),
                s.len() == s@.len(),
                j <= p@.len(),
                same ==> forall|m: int| 0 <= m < j ==> s@[i + m] == p@[m],
                !same ==> s@.subrange(i as int, i + p@.len()) != p@,
            decreases p@.len() - j,
        {
            if same && s[i + j] != p[j] {
                same = false;
                proof {
                    assert(s@.subrange(i as int, i + p@.len())[j as int] != p@[j as int]);
                }
            }
            j = j + 1;
        }
        if same {
            proof {
                assert(s@.subrange(i as int, i + p@.len()) =~= p@);
            }
            return Some(i);
        }
        if i == s.len() {
            proof {
                assert(first_occurrence(s@, p@, i as int + 1) is None);
            }
            return None;
        }
        i = i + 1;
    }
    None
}

fn slice_text(s: &Vec<char>, a: usize, b: usize) -> (r: String)
    requires
        a <= b <= s@.len(),
    ensures
        r@ == s@.subrange(a as int, b as int),
{
    let mut r = String::new();
    let mut i = a;
    while i < b
        invariant
            a <= i <= b,
            b <= s@.len(),
            r@ == s@.subrange(a as int, i as int),
        decreases b - i,
    {
        crate::text::push_char(&mut r, s[i]);
        i = i + 1;
        proof {
            assert(r@ =~= s@.subrange(a as int, i as int));
        }
    }
    r
}

/// The first rule, in order, whose pattern occurs in the callee.
pub open spec fn first_rule(rules: Seq<RoutingRule>, callee: Seq<char>, i: int) -> Option<int>
    decreases rules.len() - i,
{
    if i < 0 || i >= rules.len() {
        None
    } else if contains_text(callee, rules[i].pattern@) {
        Some(i)
    } else {
        first_rule(rules, callee, i + 1)
    }
}

/// The rule that routes a callee is the first match: its pattern occurs in
/// the callee and no earlier rule's does; when none is found, no rule's
/// pattern occurs in the callee.
pub proof fn law_first_rule_is_first_match(rules: Seq<RoutingRule>, callee: Seq<char>, from: int)
    requires
        0 <= from,
    ensures
        first_rule(rules, callee, from) matches Some(i) ==> from <= i < rules.len() && contains_text(callee, rules[i].pattern@)
            && forall|j: int| from <= j < i ==> !contains_text(callee, #[trigger] rules[j].pattern@),
        first_rule(rules, callee, from) is None ==> forall|j: int| from <= j < rules.len() ==> !contains_text(
            callee,
            #[trigger] rules[j].pattern@,
        ),
    decreases rules.len() - from,
{
    if from < rules.len() {
        law_first_rule_is_first_match(rules, callee, from + 1);
        assert forall|j: int| from <= j < rules.len() && first_rule(rules, callee, from) is None implies !contains_text(
            callee,
            #[trigger] rules[j].pattern@,
        ) by {
            if j == from {
            }
        }
    }
}

/// A number translation as texts.
pub open spec fn translation_view(t: Option<NumberTranslation>) -> Option<(Option<Seq<char>>, Option<Seq<char>>)> {
    match t {
        Some(x) => Some((crate::debug::opt_view(x.prefix_strip), crate::debug::opt_view(x.prefix_add))),
        None => None,
    }
}

/// Whether `r` routes `callee` under `config`: by the first rule whose
/// pattern the callee contains, else directly to the default gateway (with
/// priority 100); either way preferring PCMU, then PCMA.
pub open spec fn routes(r: RoutingInfo, callee: Seq<char>, config: B2buaConfig) -> bool {
    &&& r.codec_preference@.map_values(|c: String| c@) == seq!["PCMU"@, "PCMA"@]
    &&& match first_rule(config.routing_table@, callee, 0) {
        Some(i) => {
            let rule = config.routing_table@[i];
            &&& r.route_type == rule.route_type
            &&& r.target_gateway matches Some(g) && g@ == rule.target@
            &&& translation_view(r.number_translation) == translation_view(rule.translation)
            &&& r.priority == rule.priority
        },
        None => {
            &&& r.route_type == RouteType::Direct
            &&& crate::debug::opt_view(r.target_gateway) == crate::debug::opt_view(config.default_route_gateway)
            &&& r.number_translation is None
            &&& r.priority == 100
        },
    }
}

fn copy_translation(t: &Option<NumberTranslation>) -> (r: Option<NumberTranslation>)
    ensures
        translation_view(r) == translation_view(*t),
{
    match t {
        Some(x) => Some(NumberTranslation { prefix_strip: copy_opt(&x.prefix_strip), prefix_add: copy_opt(&x.prefix_add) }),
        None => None,
    }
}

/// The number a call is sent to: the callee, with the translation's prefix
/// taken off when it starts with it, then its prefix put on.
pub open spec fn translated_number(callee: Seq<char>, t: Option<(Option<Seq<char>>, Option<Seq<char>>)>) -> Seq<char> {
    match t {
        Some((strip, add)) => {
            let n1 = match strip {
                Some(p) => if p.len() <= callee.len() && callee.subrange(0, p.len() as int) == p {
                    callee.subrange(p.len() as int, callee.len() as int)
                } else {
                    callee
                },
                None => callee,
            };
            match add {
                Some(a) => a + n1,
                None => n1,
            }
        },
        None => callee,
    }
}

/// Number translation strips, then prefixes: a callee that starts with the
/// prefix to strip loses exactly that prefix, one that does not keeps its
/// digits, and a prefix to add stands in front of what is left, which follows
/// it unchanged. Without a translation the callee is sent as it is.
pub proof fn law_translation_strips_then_prefixes(
    callee: Seq<char>,
    strip: Option<Seq<char>>,
    add: Seq<char>,
    p: Seq<char>,
    rest: Seq<char>,
)
    ensures
        ({
            let kept = translated_number(callee, Some((strip, None)));
            let t = translated_number(callee, Some((strip, Some(add))));
            &&& t.len() == add.len() + kept.len()
            &&& t.subrange(0, add.len() as int) == add
            &&& t.subrange(add.len() as int, t.len() as int) == kept
        }),
        translated_number(p + rest, Some((Some(p), None))) == rest,
        !(p.len() <= callee.len() && callee.subrange(0, p.len() as int) == p) ==> translated_number(
            callee,
            Some((Some(p), None)),
        ) == callee,
        translated_number(callee, Some((None, None))) == callee,
        translated_number(callee, None) == callee,
{
    let kept = translated_number(callee, Some((strip, None)));
    let t = translated_number(callee, Some((strip, Some(add))));
    assert(t == add + kept);
    assert(t.subrange(0, add.len() as int) =~= add);
    assert(t.subrange(add.len() as int, t.len() as int) =~= kept);
    assert((p + rest).subrange(0, p.len() as int) =~= p);
    assert((p + rest).subrange(p.len() as int, (p + rest).len() as int) =~= rest);
}

/// The URI of a call's outgoing leg: `sip:<number>@<gateway>`, or `@localhost`
/// without a gateway.
pub open spec fn destination_uri(callee: Seq<char>, r: RoutingInfo) -> Seq<char> {
    "sip:"@ + translated_number(callee, translation_view(r.number_translation)) + "@"@ + gateway_host(r)
}

/// The host a call's outgoing leg is addressed to: the gateway, or `localhost`.
pub open spec fn gateway_host(r: RoutingInfo) -> Seq<char> {
    match r.target_gateway {
        Some(g) => g@,
        None => "localhost"@,
    }
}

/// An outgoing URI is `sip:`, the translated callee, `@` and the gateway (or
/// `localhost`); the callee part begins with the translation's added prefix.
pub proof fn law_destination_uri_parts(callee: Seq<char>, r: RoutingInfo)
    ensures
        ({
            let u = destination_uri(callee, r);
            let n = translated_number(callee, translation_view(r.number_translation));
            let host = gateway_host(r);
            &&& u.len() == 5 + n.len() + host.len()
            &&& u.subrange(0, 4) == "sip:"@
            &&& u.subrange(4, 4 + n.len() as int) == n
            &&& u[4 + n.len() as int] == '@'
            &&& u.subrange(5 + n.len() as int, u.len() as int) == host
            &&& r.number_translation is Some && r.number_translation.unwrap().prefix_add is Some ==> n.subrange(
                0,
                r.number_translation.unwrap().prefix_add.unwrap()@.len() as int,
            ) == r.number_translation.unwrap().prefix_add.unwrap()@
        }),
{
    reveal_strlit("sip:");
    reveal_strlit("@");
    let u = destination_uri(callee, r);
    let n = translated_number(callee, translation_view(r.number_translation));
    let host = gateway_host(r);
    assert(u == "sip:"@ + n + "@"@ + host);
    assert(u.subrange(0, 4) =~= "sip:"@);
    assert(u.subrange(4, 4 + n.len() as int) =~= n);
    assert(u.subrange(5 + n.len() as int, u.len() as int) =~= host);
    match r.number_translation {
        Some(t) => {
            match t.prefix_add {
                Some(a) => {
                    law_translation_strips_then_prefixes(callee, crate::debug::opt_view(t.prefix_strip), a@, a@, a@);
                },
                None => {},
            }
        },
        None => {},
    }
}

fn starts_with_text(s: &Vec<char>, p: &Vec<char>) -> (r: bool)
    ensures
        r == (p@.len() <= s@.len() && s@.subrange(0, p@.len() as int) == p@),
{
    if p.len() > s.len() {
        return false;
    }
    let mut i: usize = 0;
    while i < p.len()
        invariant
            p@.len() <= s@.len(),
            i <= p@.len(),
            forall|j: int| 0 <= j < i ==> s@[j] == p@[j],
        decreases p@.len() - i,
    {
        if s[i] != p[i] {
            proof {
                assert(s@.subrange(0, p@.len() as int)[i as int] != p@[i as int]);
            }
            return false;
        }
        i = i + 1;
    }
    proof {
        assert(s@.subrange(0, p@.len() as int) =~= p@);
    }
    true
}

/// Whether a call has a session as leg B, or (unless `leg_b_only`) as leg A.
pub open spec fn has_session(c: B2buaCall, session: Seq<char>, leg_b_only: bool) -> bool {
    (!leg_b_only && c.leg_a_session_id@ == session) || (c.leg_b_session_id matches Some(b) && b@ == session)
}

/// Whether some call of `m` has the session (as `has_session` reads it).
pub open spec fn any_call_with_session(m: Map<Seq<char>, B2buaCall>, session: Seq<char>, leg_b_only: bool) -> bool {
    exists|k: Seq<char>| #[trigger] m.dom().contains(k) && has_session(m[k], session, leg_b_only)
}

/// Whether `b` is a copy of the call `a`: equal in every field, the codec
/// preference by its contents.
pub open spec fn call_copy(a: B2buaCall, b: B2buaCall) -> bool {
    &&& b.id == a.id
    &&& b.state == a.state
    &&& b.leg_a_session_id == a.leg_a_session_id
    &&& b.leg_b_session_id == a.leg_b_session_id
    &&& b.leg_a_rtp_session_id == a.leg_a_rtp_session_id
    &&& b.leg_b_rtp_session_id == a.leg_b_rtp_session_id
    &&& b.caller == a.caller
    &&& b.callee == a.callee
    &&& b.destination_uri == a.destination_uri
    &&& b.created_ms == a.created_ms
    &&& b.connected_ms == a.connected_ms
    &&& b.terminated_ms == a.terminated_ms
    &&& b.last_activity_ms == a.last_activity_ms
    &&& b.call_duration_ms == a.call_duration_ms
    &&& b.routing_info.route_type == a.routing_info.route_type
    &&& b.routing_info.target_gateway == a.routing_info.target_gateway
    &&& b.routing_info.number_translation == a.routing_info.number_translation
    &&& b.routing_info.codec_preference@ == a.routing_info.codec_preference@
    &&& b.routing_info.priority == a.routing_info.priority
}

impl B2buaCall {
    /// A copy of the call.
    pub fn duplicate(&self) -> (r: Self)
        ensures
            call_copy(*self, r),
    {
        let ri = &self.routing_info;
        B2buaCall {
            id: self.id.clone(),
            state: self.state,
            leg_a_session_id: self.leg_a_session_id.clone(),
            leg_b_session_id: copy_opt(&self.leg_b_session_id),
            leg_a_rtp_session_id: copy_opt(&self.leg_a_rtp_session_id),
            leg_b_rtp_session_id: copy_opt(&self.leg_b_rtp_session_id),
            caller: self.caller.clone(),
            callee: self.callee.clone(),
            destination_uri: self.destination_uri.clone(),
            created_ms: self.created_ms,
            connected_ms: self.connected_ms,
            terminated_ms: self.terminated_ms,
            last_activity_ms: self.last_activity_ms,
            call_duration_ms: self.call_duration_ms,
            routing_info: RoutingInfo {
                route_type: ri.route_type,
                target_gateway: copy_opt(&ri.target_gateway),
                number_translation: match &ri.number_translation {
                    Some(t) => Some(NumberTranslation { prefix_strip: copy_opt(&t.prefix_strip), prefix_add: copy_opt(&t.prefix_add) }),
                    None => None,
                },
                codec_preference: copy_strings(&ri.codec_preference),
                priority: ri.priority,
            },
        }
    }
}

impl MediaRelay {
    /// A copy of the relay.
    pub fn duplicate(&self) -> (r: Self)
        ensures
            r == *self,
    {
        MediaRelay {
            call_id: self.call_id.clone(),
            leg_a_rtp_port: self.leg_a_rtp_port,
            leg_b_rtp_port: self.leg_b_rtp_port,
            leg_a_remote_addr: copy_opt(&self.leg_a_remote_addr),
            leg_b_remote_addr: copy_opt(&self.leg_b_remote_addr),
            bytes_relayed_a_to_b: self.bytes_relayed_a_to_b,
            bytes_relayed_b_to_a: self.bytes_relayed_b_to_a,
            packets_relayed_a_to_b: self.packets_relayed_a_to_b,
            packets_relayed_b_to_a: self.packets_relayed_b_to_a,
            started_ms: self.started_ms,
            last_activity_ms: self.last_activity_ms,
        }
    }
}

/// A concurrent map of calls by id.
pub type CallMap = dashmap::DashMap<String, B2buaCall>;

/// The calls that a `DashMap` holds, by id.
pub uninterp spec fn dash_calls(m: CallMap) -> Map<Seq<char>, B2buaCall>;

/// `DashMap::new`: a map that holds nothing.
#[verifier::external_body]
fn calls_new() -> (r: CallMap)
    ensures
        dash_calls(r).dom().len() == 0,
        dash_calls(r).dom().finite(),
{
    dashmap::DashMap::new()
}

/// `DashMap::insert`: the map holds `c` under `id` afterwards, in place of
/// any call it held there.
#[verifier::external_body]
fn calls_insert(m: &mut CallMap, id: String, c: B2buaCall)
    ensures
        dash_calls(*final(m)) == dash_calls(*old(m)).insert(id@, c),
{
    m.insert(id, c);
}

/// `DashMap::remove`: the map no longer holds `id`, and the call it held
/// there, if any, is handed back (without its key).
#[verifier::external_body]
fn calls_remove(m: &mut CallMap, id: &str) -> (r: Option<B2buaCall>)
    ensures
        dash_calls(*final(m)) == dash_calls(*old(m)).remove(id@),
        r is Some <==> dash_calls(*old(m)).dom().contains(id@),
        r matches Some(c) ==> c == dash_calls(*old(m))[id@],
{
    match m.remove(id) {
        Some((_, c)) => Some(c),
        None => None,
    }
}

/// `DashMap::get`: a copy of the call the map holds under `id`, if any.
#[verifier::external_body]
fn calls_get(m: &CallMap, id: &str) -> (r: Option<B2buaCall>)
    ensures
        r is Some <==> dash_calls(*m).dom().contains(id@),
        r matches Some(c) ==> call_copy(dash_calls(*m)[id@], c),
{
    m.get(id).map(|e| e.value().duplicate())
}

/// `DashMap::len`: the number of entries of the map.
#[verifier::external_body]
fn calls_len(m: &CallMap) -> (r: usize)
    ensures
        r == dash_calls(*m).dom().len(),
{
    m.len()
}

/// `DashMap::iter`: the key of each entry once, in the order the map walks
/// them.
#[verifier::external_body]
fn calls_keys(m: &CallMap) -> (r: Vec<String>)
    ensures
        forall|i: int| 0 <= i < r@.len() ==> dash_calls(*m).dom().contains(#[trigger] r@[i]@),
        forall|k: Seq<char>| #[trigger] dash_calls(*m).dom().contains(k) ==> exists|i: int| 0 <= i < r@.len() && r@[i]@ == k,
        forall|i: int, j: int| 0 <= i < j < r@.len() ==> (#[trigger] r@[i])@ != (#[trigger] r@[j])@,
{
    m.iter().map(|e| copy_key(e.key())).collect()
}

/// `DashMap::iter`: a copy of the value of each entry once, in the order the
/// map walks them.
#[verifier::external_body]
fn calls_values(m: &CallMap) -> (r: Vec<B2buaCall>)
    ensures
        r@.len() == dash_calls(*m).dom().len(),
        forall|i: int| 0 <= i < r@.len() ==> exists|k: Seq<char>| #[trigger] dash_calls(*m).dom().contains(k)
            && call_copy(dash_calls(*m)[k], #[trigger] r@[i]),
        forall|k: Seq<char>| #[trigger] dash_calls(*m).dom().contains(k) ==> exists|i: int| 0 <= i < r@.len()
            && call_copy(dash_calls(*m)[k], r@[i]),
{
    m.iter().map(|e| e.value().duplicate()).collect()
}

/// A concurrent map of media relays by call id.
pub type RelayMap = dashmap::DashMap<String, MediaRelay>;

/// The relays that a `DashMap` holds, by call id.
pub uninterp spec fn dash_relays(m: RelayMap) -> Map<Seq<char>, MediaRelay>;

/// `DashMap::new`: a map that holds nothing.
#[verifier::external_body]
fn relays_new() -> (r: RelayMap)
    ensures
        dash_relays(r).dom().len() == 0,
        dash_relays(r).dom().finite(),
{
    dashmap::DashMap::new()
}

/// `DashMap::insert`: the map holds `v` under `id` afterwards, in place of
/// any relay it held there.
#[verifier::external_body]
fn relays_insert(m: &mut RelayMap, id: String, v: MediaRelay)
    ensures
        dash_relays(*final(m)) == dash_relays(*old(m)).insert(id@, v),
{
    m.insert(id, v);
}

/// `DashMap::remove`: the map no longer holds `id`, and the relay it held
/// there, if any, is handed back (without its key).
#[verifier::external_body]
fn relays_remove(m: &mut RelayMap, id: &str) -> (r: Option<MediaRelay>)
    ensures
        dash_relays(*final(m)) == dash_relays(*old(m)).remove(id@),
        r is Some <==> dash_relays(*old(m)).dom().contains(id@),
        r matches Some(v) ==> v == dash_relays(*old(m))[id@],
{
    match m.remove(id) {
        Some((_, v)) => Some(v),
        None => None,
    }
}

/// `DashMap::get`: a copy of the relay the map holds under `id`, if any.
#[verifier::external_body]
fn relays_get(m: &RelayMap, id: &str) -> (r: Option<MediaRelay>)
    ensures
        r is Some <==> dash_relays(*m).dom().contains(id@),
        r matches Some(v) ==> v == dash_relays(*m)[id@],
{
    m.get(id).map(|e| e.value().duplicate())
}

/// `DashMap::iter`: the key of each entry once, in the order the map walks
/// them.
#[verifier::external_body]
fn relays_keys(m: &RelayMap) -> (r: Vec<String>)
    ensures
        forall|i: int| 0 <= i < r@.len() ==> dash_relays(*m).dom().contains(#[trigger] r@[i]@),
        forall|k: Seq<char>| #[trigger] dash_relays(*m).dom().contains(k) ==> exists|i: int| 0 <= i < r@.len() && r@[i]@ == k,
        forall|i: int, j: int| 0 <= i < j < r@.len() ==> (#[trigger] r@[i])@ != (#[trigger] r@[j])@,
{
    m.iter().map(|e| copy_key(e.key())).collect()
}

/// The B2BUA: its configuration, the calls and the media relays by call id.
pub struct B2buaService {
    pub config: B2buaConfig,
    pub calls: CallMap,
    pub media_relays: RelayMap,
    pub is_running: bool,
}

impl B2buaService {
    /// The user part of a SIP URI (`sip:user@host`).
    pub fn extract_user_from_uri(uri: &str) -> (r: GatewayResult<String>)
        ensures
            match uri_user(uri@) {
                Some(u) => r matches Ok(s) && s@ == u,
                None => r matches Err(e) && e.kind() == 0 && e.message() == "Invalid SIP URI format"@,
            },
    {
        let cs = chars_of(uri);
        let sip = chars_of("sip:");
        let at = chars_of("@");
        proof {
            reveal_strlit("sip:");
        }
        match find_text(&cs, &sip, 0) {
            Some(start) => {
                proof {
                    assert(sip@.len() == 4);
                    assert(start + 4 <= cs.len());
                }
                let after = crate::debug::slice_chars_pub(cs.as_slice(), start + 4, cs.len());
                match find_text(&after, &at, 0) {
                    Some(end) => {
                        proof {
                            reveal_strlit("@");
                        }
                        Ok(slice_text(&after, 0, end))
                    },
                    None => Err(GatewayError::Parse(String::from_str("Invalid SIP URI format"))),
                }
            },
            None => Err(GatewayError::Parse(String::from_str("Invalid SIP URI format"))),
        }
    }

    /// Chooses the route of a call by its callee.
    pub fn determine_routing(callee: &str, config: &B2buaConfig) -> (r: GatewayResult<RoutingInfo>)
        ensures
            r matches Ok(info) && routes(info, callee@, *config),
    {
        let mut codecs: Vec<String> = Vec::new();
        codecs.push(String::from_str("PCMU"));
        codecs.push(String::from_str("PCMA"));
        proof {
            assert(codecs@.map_values(|c: String| c@) =~= seq!["PCMU"@, "PCMA"@]);
        }
        let rules = &config.routing_table;
        let mut i: usize = 0;
        while i < rules.len()
            invariant
                rules@ == config.routing_table@,
                codecs@.map_values(|c: String| c@) == seq!["PCMU"@, "PCMA"@],
                i <= rules@.len(),
                first_rule(rules@, callee@, 0) == first_rule(rules@, callee@, i as int),
            decreases rules@.len() - i,
        {
            if text_contains(callee, rules[i].pattern.as_str()) {
                return Ok(RoutingInfo {
                    route_type: rules[i].route_type,
                    target_gateway: Some(rules[i].target.clone()),
                    number_translation: copy_translation(&rules[i].translation),
                    codec_preference: codecs,
                    priority: rules[i].priority,
                });
            }
            i = i + 1;
        }
        Ok(RoutingInfo {
            route_type: RouteType::Direct,
            target_gateway: copy_opt(&config.default_route_gateway),
            number_translation: None,
            codec_preference: codecs,
            priority: 100,
        })
    }

    /// Builds the URI of a call's outgoing leg.
    pub fn build_destination_uri(callee: &str, routing_info: &RoutingInfo) -> (r: GatewayResult<String>)
        ensures
            r matches Ok(u) && u@ == destination_uri(callee@, *routing_info),
    {
        let mut number = text(callee);
        match &routing_info.number_translation {
            Some(t) => {
                match &t.prefix_strip {
                    Some(p) => {
                        let cs = chars_of(callee);
                        let ps = chars_of(p.as_str());
                        if starts_with_text(&cs, &ps) {
                            number = slice_text(&cs, ps.len(), cs.len());
                        }
                    },
                    None => {},
                }
                match &t.prefix_add {
                    Some(a) => {
                        number = join2(a.as_str(), number.as_str());
                    },
                    None => {},
                }
            },
            None => {},
        }
        let mut uri = join2("sip:", number.as_str());
        uri.append("@");
        match &routing_info.target_gateway {
            Some(g) => uri.append(g.as_str()),
            None => uri.append("localhost"),
        }
        Ok(uri)
    }

    /// The address a URI is sent to: the URI must name a host after `@`, and
    /// every call goes to the local proxy at `127.0.0.1`, port 5060.
    pub fn resolve_target_address(uri: &str) -> (r: GatewayResult<(String, u16)>)
        ensures
            contains_text(uri@, "@"@) ==> (r matches Ok((host, port)) && host@ == "127.0.0.1"@ && port == 5060),
            !contains_text(uri@, "@"@) ==> (r matches Err(e) && e.kind() == 0 && e.message() == "Invalid URI format"@),
    {
        if text_contains(uri, "@") {
            Ok((String::from_str("127.0.0.1"), 5060))
        } else {
            Err(GatewayError::Parse(String::from_str("Invalid URI format")))
        }
    }

    /// The calls by id.
    pub open spec fn calls(&self) -> Map<Seq<char>, B2buaCall> {
        dash_calls(self.calls)
    }

    /// The media relays by call id.
    pub open spec fn relays(&self) -> Map<Seq<char>, MediaRelay> {
        dash_relays(self.media_relays)
    }

    /// Each call and relay is kept under its own call id.
    pub open spec fn wf(&self) -> bool {
        &&& forall|k: Seq<char>| #[trigger] self.calls().dom().contains(k) ==> self.calls()[k].id@ == k
        &&& forall|k: Seq<char>| #[trigger] self.relays().dom().contains(k) ==> self.relays()[k].call_id@ == k
    }

    /// A stopped B2BUA with no calls.
    pub fn new(config: B2buaConfig) -> (r: GatewayResult<Self>)
        ensures
            r matches Ok(b) && b.wf() && b.config == config && b.calls() == Map::<Seq<char>, B2buaCall>::empty()
                && b.relays() == Map::<Seq<char>, MediaRelay>::empty() && !b.is_running,
    {
        Ok(B2buaService { config, calls: calls_new(), media_relays: relays_new(), is_running: false })
    }

    /// A call with the session (see `has_session`), if any, found by walking
    /// the calls.
    fn find_call(&self, session: &str, leg_b_only: bool) -> (r: Option<String>)
        requires
            self.wf(),
        ensures
            r is None <==> !any_call_with_session(self.calls(), session@, leg_b_only),
            r matches Some(id) ==> self.calls().dom().contains(id@) && has_session(self.calls()[id@], session@, leg_b_only),
    {
        let ids = calls_keys(&self.calls);
        let mut i: usize = 0;
        while i < ids.len()
            invariant
                i <= ids@.len(),
                forall|x: int| 0 <= x < ids@.len() ==> self.calls().dom().contains(#[trigger] ids@[x]@),
                forall|k: Seq<char>| #[trigger] self.calls().dom().contains(k) ==> exists|x: int| 0 <= x < ids@.len() && ids@[x]@ == k,
                forall|x: int| 0 <= x < i ==> !has_session(self.calls()[(#[trigger] ids@[x])@], session@, leg_b_only),
            decreases ids@.len() - i,
        {
            let c = match calls_get(&self.calls, ids[i].as_str()) {
                Some(c) => c,
                None => {
                    assert(false);
                    return None;
                },
            };
            let on_b = match &c.leg_b_session_id {
                Some(b) => str_eq(b.as_str(), session),
                None => false,
            };
            if (!leg_b_only && str_eq(c.leg_a_session_id.as_str(), session)) || on_b {
                return Some(copy_key(&ids[i]));
            }
            i = i + 1;
        }
        proof {
            assert forall|k: Seq<char>| #[trigger] self.calls().dom().contains(k) implies !has_session(self.calls()[k], session@,
                leg_b_only) by {
                let x = choose|x: int| 0 <= x < ids@.len() && ids@[x]@ == k;
            }
        }
        None
    }

    /// Takes in a call offered on leg A: refused when the most concurrent
    /// calls are up, or when either URI has no user part; otherwise routed by
    /// its callee and recorded as establishing under a fresh id, with the URI
    /// of its outgoing leg.
    pub fn handle_incoming_call(&mut self, session_id: String, from: &str, to: &str, now_ms: u64) -> (r: GatewayResult<String>)
        requires
            old(self).wf(),
        ensures
            final(self).wf(),
            final(self).config == old(self).config,
            final(self).media_relays == old(self).media_relays,
            r is Err ==> final(self).calls() == old(self).calls(),
            old(self).calls().dom().len() >= old(self).config.max_concurrent_calls ==> (r matches Err(e) && e.kind() == 5
                && e.message() == "Maximum concurrent calls reached"@),
            old(self).calls().dom().len() < old(self).config.max_concurrent_calls ==> match (uri_user(from@), uri_user(to@)) {
                (Some(caller), Some(callee)) => r matches Ok(id) && {
                    let c = final(self).calls()[id@];
                    &&& final(self).calls() == old(self).calls().insert(id@, c)
                    &&& c.state == B2buaCallState::Establishing
                    &&& c.leg_a_session_id@ == session_id@
                    &&& c.leg_b_session_id is None
                    &&& c.caller@ == caller
                    &&& c.callee@ == callee
                    &&& routes(c.routing_info, callee, old(self).config)
                    &&& c.destination_uri@ == destination_uri(callee, c.routing_info)
                    &&& c.created_ms == now_ms
                    &&& c.connected_ms is None
                },
                _ => r matches Err(e) && e.kind() == 0 && e.message() == "Invalid SIP URI format"@,
            },
    {
        if calls_len(&self.calls) >= self.config.max_concurrent_calls as usize {
            return Err(GatewayError::B2bua(String::from_str("Maximum concurrent calls reached")));
        }
        let caller = match B2buaService::extract_user_from_uri(from) {
            Ok(u) => u,
            Err(e) => { return Err(e); },
        };
        let callee = match B2buaService::extract_user_from_uri(to) {
            Ok(u) => u,
            Err(e) => { return Err(e); },
        };
        let routing = match B2buaService::determine_routing(callee.as_str(), &self.config) {
            Ok(x) => x,
            Err(e) => { return Err(e); },
        };
        let destination = match B2buaService::build_destination_uri(callee.as_str(), &routing) {
            Ok(u) => u,
            Err(e) => { return Err(e); },
        };
        let id = uuid_text(new_test_id());
        let call = B2buaCall {
            id: id.clone(),
            state: B2buaCallState::Establishing,
            leg_a_session_id: session_id,
            leg_b_session_id: None,
            leg_a_rtp_session_id: None,
            leg_b_rtp_session_id: None,
            caller,
            callee,
            destination_uri: destination,
            created_ms: now_ms,
            connected_ms: None,
            terminated_ms: None,
            last_activity_ms: now_ms,
            call_duration_ms: None,
            routing_info: routing,
        };
        calls_insert(&mut self.calls, copy_key(&id), call);
        Ok(id)
    }

    /// Notes the session of a call's outgoing leg, once it is placed.
    pub fn set_leg_b_session(&mut self, call_id: &str, leg_b_session_id: String)
        requires
            old(self).wf(),
        ensures
            final(self).wf(),
            final(self).calls().dom() == old(self).calls().dom(),
            old(self).calls().dom().contains(call_id@) ==> (final(self).calls()[call_id@].leg_b_session_id
                matches Some(b) && b@ == leg_b_session_id@),
            old(self).calls().dom().contains(call_id@) ==> final(self).calls()[call_id@].state
                == old(self).calls()[call_id@].state,
            forall|k: Seq<char>| k != call_id@ && #[trigger] old(self).calls().dom().contains(k)
                ==> final(self).calls()[k] == old(self).calls()[k],
    {
        match calls_remove(&mut self.calls, call_id) {
            Some(mut c) => {
                c.leg_b_session_id = Some(leg_b_session_id);
                let ghost cv = c;
                calls_insert(&mut self.calls, text(call_id), c);
                proof {
                    assert(self.calls() =~= old(self).calls().insert(call_id@, cv));
                }
            },
            None => {
                proof {
                    assert(self.calls() =~= old(self).calls());
                }
            },
        }
    }

    /// The outgoing leg answered: the call it belongs to connects. Returns the
    /// call's id, the session of its leg A (to answer there) and how long it
    /// took to connect.
    pub fn handle_call_answered(&mut self, session_id: &str, now_ms: u64) -> (r: Option<(String, String, u64)>)
        requires
            old(self).wf(),
        ensures
            final(self).wf(),
            final(self).calls().dom() == old(self).calls().dom(),
            r is None <==> !any_call_with_session(old(self).calls(), session_id@, true),
            r is None ==> final(self).calls() == old(self).calls(),
            r matches Some((id, leg_a, wait)) ==> {
                let c = old(self).calls()[id@];
                &&& old(self).calls().dom().contains(id@)
                &&& has_session(c, session_id@, true)
                &&& leg_a@ == c.leg_a_session_id@
                &&& wait == if now_ms >= c.created_ms { (now_ms - c.created_ms) as u64 } else { 0 }
                &&& final(self).calls()[id@] == B2buaCall {
                    state: B2buaCallState::Connected,
                    connected_ms: Some(now_ms),
                    last_activity_ms: now_ms,
                    ..c
                }
                &&& forall|k: Seq<char>| k != id@ && #[trigger] old(self).calls().dom().contains(k)
                    ==> final(self).calls()[k] == old(self).calls()[k]
            },
    {
        match self.find_call(session_id, true) {
            None => None,
            Some(id) => {
                let mut c = match calls_remove(&mut self.calls, id.as_str()) {
                    Some(c) => c,
                    None => {
                        assert(false);
                        return None;
                    },
                };
                let ghost c0 = c;
                c.state = B2buaCallState::Connected;
                c.connected_ms = Some(now_ms);
                c.last_activity_ms = now_ms;
                let wait = if now_ms >= c.created_ms { now_ms - c.created_ms } else { 0 };
                let leg_a = c.leg_a_session_id.clone();
                let ghost cv = c;
                calls_insert(&mut self.calls, copy_key(&id), c);
                proof {
                    assert(self.calls() =~= old(self).calls().insert(id@, cv));
                    assert(cv == B2buaCall { state: B2buaCallState::Connected, connected_ms: Some(now_ms), last_activity_ms: now_ms, ..c0 });
                }
                Some((id, leg_a, wait))
            },
        }
    }

    /// A leg hung up: the call it belongs to ends. Returns the call's id and
    /// how long it was connected, if it was.
    pub fn handle_call_terminated(&mut self, session_id: &str, now_ms: u64) -> (r: Option<(String, Option<u64>)>)
        requires
            old(self).wf(),
        ensures
            final(self).wf(),
            r is None <==> !any_call_with_session(old(self).calls(), session_id@, false),
            r is None ==> final(self).calls() == old(self).calls(),
            r matches Some((id, duration)) ==> {
                let c = old(self).calls()[id@];
                &&& old(self).calls().dom().contains(id@)
                &&& has_session(c, session_id@, false)
                &&& final(self).calls() == old(self).calls().remove(id@)
                &&& duration == match c.connected_ms {
                    Some(t) => Some(if now_ms >= t { (now_ms - t) as u64 } else { 0u64 }),
                    None => None,
                }
            },
    {
        match self.find_call(session_id, false) {
            None => None,
            Some(id) => {
                let c = match calls_remove(&mut self.calls, id.as_str()) {
                    Some(c) => c,
                    None => {
                        assert(false);
                        return None;
                    },
                };
                let duration = match c.connected_ms {
                    Some(t) => Some(if now_ms >= t { now_ms - t } else { 0 }),
                    None => None,
                };
                Some((id, duration))
            },
        }
    }

    /// Ends a call by id; refused when there is no such call. Returns how
    /// long it was connected, if it was.
    pub fn terminate_call(&mut self, call_id: &str, reason: &str, now_ms: u64) -> (r: GatewayResult<Option<u64>>)
        requires
            old(self).wf(),
        ensures
            final(self).wf(),
            final(self).calls() == old(self).calls().remove(call_id@),
            r is Ok <==> old(self).calls().dom().contains(call_id@),
            r matches Ok(d) ==> d == match old(self).calls()[call_id@].connected_ms {
                Some(t) => Some(if now_ms >= t { (now_ms - t) as u64 } else { 0u64 }),
                None => None,
            },
            r matches Err(e) ==> e.kind() == 5 && e.message() == "Call not found"@,
    {
        match calls_remove(&mut self.calls, call_id) {
            Some(c) => Ok(match c.connected_ms {
                Some(t) => Some(if now_ms >= t { now_ms - t } else { 0 }),
                None => None,
            }),
            None => {
                proof {
                    assert(self.calls() =~= old(self).calls().remove(call_id@));
                }
                Err(GatewayError::B2bua(String::from_str("Call not found")))
            },
        }
    }

    /// Copies of all calls, each once, in the order the map walks them.
    pub fn get_active_calls(&self) -> (r: Vec<B2buaCall>)
        requires
            self.wf(),
        ensures
            r@.len() == self.calls().dom().len(),
            forall|i: int| 0 <= i < r@.len() ==> self.calls().dom().contains((#[trigger] r@[i]).id@)
                && call_copy(self.calls()[r@[i].id@], r@[i]),
            forall|k: Seq<char>| #[trigger] self.calls().dom().contains(k) ==> exists|i: int| 0 <= i < r@.len() && r@[i].id@ == k,
    {
        let r = calls_values(&self.calls);
        proof {
            assert forall|i: int| 0 <= i < r@.len() implies self.calls().dom().contains((#[trigger] r@[i]).id@)
                && call_copy(self.calls()[r@[i].id@], r@[i]) by {
                let k = choose|k: Seq<char>| #[trigger] self.calls().dom().contains(k) && call_copy(self.calls()[k], r@[i]);
            }
            assert forall|k: Seq<char>| #[trigger] self.calls().dom().contains(k) implies exists|i: int| 0 <= i < r@.len()
                && r@[i].id@ == k by {
                let i = choose|i: int| 0 <= i < r@.len() && call_copy(self.calls()[k], r@[i]);
            }
        }
        r
    }

    /// A copy of the call with an id.
    pub fn get_call(&self, call_id: &str) -> (r: Option<B2buaCall>)
        ensures
            r is Some <==> self.calls().dom().contains(call_id@),
            r matches Some(c) ==> call_copy(self.calls()[call_id@], c),
    {
        calls_get(&self.calls, call_id)
    }

    /// The number of calls.
    pub fn get_active_call_count(&self) -> (r: usize)
        ensures
            r == self.calls().dom().len(),
    {
        calls_len(&self.calls)
    }

    /// A copy of the media relay of a call.
    pub fn get_media_relay_stats(&self, call_id: &str) -> (r: Option<MediaRelay>)
        ensures
            r is Some <==> self.relays().dom().contains(call_id@),
            r matches Some(m) ==> m == self.relays()[call_id@],
    {
        relays_get(&self.media_relays, call_id)
    }

    /// Stops the B2BUA: every call ends and the relays go.
    pub fn stop(&mut self) -> (r: GatewayResult<()>)
        requires
            old(self).wf(),
        ensures
            r is Ok,
            final(self).wf(),
            final(self).calls() == Map::<Seq<char>, B2buaCall>::empty(),
            final(self).relays() == Map::<Seq<char>, MediaRelay>::empty(),
            !final(self).is_running,
    {
        self.calls = calls_new();
        self.media_relays = relays_new();
        self.is_running = false;
        Ok(())
    }
}

/// A timeout of whole seconds in milliseconds, held to `u64`.
pub open spec fn timeout_ms(secs: u64) -> u64 {
    if secs * 1000 > u64::MAX { u64::MAX } else { (secs * 1000) as u64 }
}

fn secs_to_ms(secs: u64) -> (r: u64)
    ensures
        r == timeout_ms(secs),
{
    if secs > u64::MAX / 1000 { u64::MAX } else { secs * 1000 }
}

impl B2buaService {
    /// Ends every call idle for longer than the call timeout at `now_ms`
    /// and hands them back.
    pub fn expire_idle_calls(&mut self, now_ms: u64) -> (r: Vec<B2buaCall>)
        requires
            old(self).wf(),
        ensures
            final(self).wf(),
            final(self).calls() == active_part(old(self).calls(), now_ms, timeout_ms(old(self).config.call_timeout)),
            final(self).media_relays == old(self).media_relays,
            final(self).is_running == old(self).is_running,
            forall|i: int|
                0 <= i < r@.len() ==> old(self).calls().dom().contains((#[trigger] r@[i]).key())
                    && old(self).calls()[r@[i].key()] == r@[i],
            forall|k: Seq<char>|
                #[trigger] old(self).calls().dom().contains(k) && !active_part(
                    old(self).calls(),
                    now_ms,
                    timeout_ms(old(self).config.call_timeout),
                ).dom().contains(k) ==> exists|i: int| 0 <= i < r@.len() && (#[trigger] r@[i]).key() == k,
    {
        let timeout = secs_to_ms(self.config.call_timeout);
        let ids = calls_keys(&self.calls);
        let ghost o = old(self).calls();
        let mut out: Vec<B2buaCall> = Vec::new();
        let mut i: usize = 0;
        while i < ids.len()
            invariant
                i <= ids@.len(),
                o == old(self).calls(),
                timeout == timeout_ms(old(self).config.call_timeout),
                self.config == old(self).config,
                self.media_relays == old(self).media_relays,
                self.is_running == old(self).is_running,
                self.wf(),
                forall|x: int| 0 <= x < ids@.len() ==> o.dom().contains(#[trigger] ids@[x]@),
                forall|k: Seq<char>| #[trigger] o.dom().contains(k) ==> exists|x: int| 0 <= x < ids@.len() && ids@[x]@ == k,
                forall|x: int, y: int| 0 <= x < y < ids@.len() ==> (#[trigger] ids@[x])@ != (#[trigger] ids@[y])@,
                forall|x: int| 0 <= x < i ==> (self.calls().dom().contains((#[trigger] ids@[x])@) <==> !idle(o[ids@[x]@], now_ms, timeout)),
                forall|x: int| i <= x < ids@.len() ==> self.calls().dom().contains((#[trigger] ids@[x])@),
                forall|k: Seq<char>| #[trigger] self.calls().dom().contains(k) ==> o.dom().contains(k) && self.calls()[k] == o[k],
                forall|q: int| 0 <= q < out@.len() ==> o.dom().contains((#[trigger] out@[q]).key()) && o[out@[q].key()] == out@[q],
                forall|x: int| 0 <= x < i && idle(o[(#[trigger] ids@[x])@], now_ms, timeout) ==> exists|q: int| 0 <= q < out@.len()
                    && out@[q].key() == ids@[x]@,
            decreases ids@.len() - i,
        {
            let ghost key = ids@[i as int]@;
            let ghost before = self.calls();
            let ghost out0 = out@;
            let c = match calls_remove(&mut self.calls, ids[i].as_str()) {
                Some(c) => c,
                None => {
                    assert(false);
                    return out;
                },
            };
            assert(c == o[key]);
            let idle_now = now_ms > c.last_activity_ms && now_ms - c.last_activity_ms > timeout;
            if idle_now {
                out.push(c);
            } else {
                calls_insert(&mut self.calls, copy_key(&ids[i]), c);
            }
            proof {
                assert forall|x: int| 0 <= x < i + 1 implies (self.calls().dom().contains((#[trigger] ids@[x])@) <==> !idle(o[ids@[x]@],
                    now_ms, timeout)) by {
                    if x < i {
                        assert(ids@[x]@ != key);
                    }
                }
                assert forall|x: int| i + 1 <= x < ids@.len() implies self.calls().dom().contains((#[trigger] ids@[x])@) by {
                    assert(ids@[x]@ != key);
                }
                assert forall|x: int| 0 <= x < i + 1 && idle(o[(#[trigger] ids@[x])@], now_ms, timeout) implies exists|q: int|
                    0 <= q < out@.len() && out@[q].key() == ids@[x]@ by {
                    if x < i {
                        let q = choose|q: int| 0 <= q < out0.len() && out0[q].key() == ids@[x]@;
                        assert(out@[q] == out0[q]);
                    } else {
                        assert(out@[out@.len() - 1].key() == key);
                    }
                }
                assert forall|q: int| 0 <= q < out@.len() implies o.dom().contains((#[trigger] out@[q]).key()) && o[out@[q].key()] == out@[q] by {
                    if q < out0.len() {
                        assert(out@[q] == out0[q]);
                    }
                }
            }
            i = i + 1;
        }
        proof {
            let a = active_part(o, now_ms, timeout);
            assert forall|k: Seq<char>| a.dom().contains(k) <==> #[trigger] self.calls().dom().contains(k) by {
                if o.dom().contains(k) {
                    let x = choose|x: int| 0 <= x < ids@.len() && ids@[x]@ == k;
                }
            }
            assert(self.calls() =~= a);
            assert forall|k: Seq<char>| #[trigger] o.dom().contains(k) && !a.dom().contains(k) implies exists|q: int| 0 <= q < out@.len()
                && (#[trigger] out@[q]).key() == k by {
                let x = choose|x: int| 0 <= x < ids@.len() && ids@[x]@ == k;
            }
        }
        out
    }

    /// Drops every media relay idle for longer than the media timeout at
    /// `now_ms` and hands them back.
    pub fn expire_idle_media_relays(&mut self, now_ms: u64) -> (r: Vec<MediaRelay>)
        requires
            old(self).wf(),
        ensures
            final(self).wf(),
            final(self).relays() == active_part(old(self).relays(), now_ms, timeout_ms(old(self).config.media_timeout)),
            final(self).calls == old(self).calls,
            final(self).is_running == old(self).is_running,
            forall|i: int|
                0 <= i < r@.len() ==> old(self).relays().dom().contains((#[trigger] r@[i]).key())
                    && old(self).relays()[r@[i].key()] == r@[i],
    {
        let timeout = secs_to_ms(self.config.media_timeout);
        let ids = relays_keys(&self.media_relays);
        let ghost o = old(self).relays();
        let mut out: Vec<MediaRelay> = Vec::new();
        let mut i: usize = 0;
        while i < ids.len()
            invariant
                i <= ids@.len(),
                o == old(self).relays(),
                timeout == timeout_ms(old(self).config.media_timeout),
                self.config == old(self).config,
                self.calls == old(self).calls,
                self.is_running == old(self).is_running,
                self.wf(),
                forall|x: int| 0 <= x < ids@.len() ==> o.dom().contains(#[trigger] ids@[x]@),
                forall|k: Seq<char>| #[trigger] o.dom().contains(k) ==> exists|x: int| 0 <= x < ids@.len() && ids@[x]@ == k,
                forall|x: int, y: int| 0 <= x < y < ids@.len() ==> (#[trigger] ids@[x])@ != (#[trigger] ids@[y])@,
                forall|x: int| 0 <= x < i ==> (self.relays().dom().contains((#[trigger] ids@[x])@) <==> !idle(o[ids@[x]@], now_ms, timeout)),
                forall|x: int| i <= x < ids@.len() ==> self.relays().dom().contains((#[trigger] ids@[x])@),
                forall|k: Seq<char>| #[trigger] self.relays().dom().contains(k) ==> o.dom().contains(k) && self.relays()[k] == o[k],
                forall|q: int| 0 <= q < out@.len() ==> o.dom().contains((#[trigger] out@[q]).key()) && o[out@[q].key()] == out@[q],
            decreases ids@.len() - i,
        {
            let ghost key = ids@[i as int]@;
            let ghost out0 = out@;
            let v = match relays_remove(&mut self.media_relays, ids[i].as_str()) {
                Some(v) => v,
                None => {
                    assert(false);
                    return out;
                },
            };
            assert(v == o[key]);
            if now_ms > v.last_activity_ms && now_ms - v.last_activity_ms > timeout {
                out.push(v);
            } else {
                relays_insert(&mut self.media_relays, copy_key(&ids[i]), v);
            }
            proof {
                assert forall|x: int| 0 <= x < i + 1 implies (self.relays().dom().contains((#[trigger] ids@[x])@) <==> !idle(o[ids@[x]@],
                    now_ms, timeout)) by {
                    if x < i {
                        assert(ids@[x]@ != key);
                    }
                }
                assert forall|x: int| i + 1 <= x < ids@.len() implies self.relays().dom().contains((#[trigger] ids@[x])@) by {
                    assert(ids@[x]@ != key);
                }
                assert forall|q: int| 0 <= q < out@.len() implies o.dom().contains((#[trigger] out@[q]).key()) && o[out@[q].key()] == out@[q] by {
                    if q < out0.len() {
                        assert(out@[q] == out0[q]);
                    }
                }
            }
            i = i + 1;
        }
        proof {
            let a = active_part(o, now_ms, timeout);
            assert forall|k: Seq<char>| a.dom().contains(k) <==> #[trigger] self.relays().dom().contains(k) by {
                if o.dom().contains(k) {
                    let x = choose|x: int| 0 <= x < ids@.len() && ids@[x]@ == k;
                }
            }
            assert(self.relays() =~= a);
        }
        out
    }
}

} // verus!
