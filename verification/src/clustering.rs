//! Clustering: nodes that share anycast addresses, the liveness of the
//! nodes, and the call transactions the cluster keeps in step.

use vstd::prelude::*;
use crate::b2bua::B2buaCallState;
use crate::error::GatewayResult;
use crate::interface_testing::{new_test_id, push_text, texts, uuid_text};
use crate::keyed::{Keyed, KeyedList};
use crate::text::{copy_key, copy_opt, copy_strings, str_eq, text};

verus! {

/// A node's standing in the cluster.
#[derive(Clone, Copy, Debug, PartialEq, Eq, Structural)]
pub enum NodeStatus {
    Active,
    Standby,
    Maintenance,
    Failed,
}

/// A node's load; CPU and memory use are in permille.
#[derive(Clone, Copy, Debug, PartialEq, Eq, Structural)]
pub struct NodeLoad {
    pub active_calls: u32,
    pub cpu_usage_permille: u32,
    pub memory_usage_permille: u32,
    pub rtp_sessions: u32,
}

/// What a node can do.
pub struct NodeCapabilities {
    pub max_calls: u32,
    pub supports_transcoding: bool,
    pub transcoding_backend: String,
    pub supported_codecs: Vec<String>,
}

/// A member of the cluster; `last_seen_ms` is when it was last heard from.
pub struct ClusterNode {
    pub node_id: String,
    pub address: String,
    pub last_seen_ms: u64,
    pub status: NodeStatus,
    pub load: NodeLoad,
    pub capabilities: NodeCapabilities,
}


/// The state of a distributed transaction.
#[derive(Clone, Copy, Debug, PartialEq, Eq, Structural)]
pub enum TransactionState {
    Initiating,
    Proceeding,
    Completed,
    Terminated,
    Failed,
}

/// The SIP dialog of a transaction.
pub struct SipDialogState {
    pub call_id: String,
    pub local_tag: String,
    pub remote_tag: Option<String>,
    pub cseq: u32,
    pub remote_cseq: u32,
    pub route_set: Vec<String>,
}

/// The media of a transaction; remote addresses as `host:port` texts.
pub struct MediaState {
    pub leg_a_rtp_port: Option<u16>,
    pub leg_b_rtp_port: Option<u16>,
    pub leg_a_remote_addr: Option<String>,
    pub leg_b_remote_addr: Option<String>,
    pub codecs_negotiated: Vec<String>,
}

/// What a transaction carries of its call.
pub struct TransactionData {
    pub call_state: B2buaCallState,
    pub leg_a_session_id: String,
    pub leg_b_session_id: Option<String>,
    pub sip_dialog_state: SipDialogState,
    pub media_state: MediaState,
}

/// A call transaction shared by the cluster; times in milliseconds.
pub struct DistributedTransaction {
    pub transaction_id: String,
    pub call_id: String,
    pub state: TransactionState,
    pub primary_node: String,
    pub backup_nodes: Vec<String>,
    pub created_at_ms: u64,
    pub last_updated_ms: u64,
    pub data: TransactionData,
}


/// What a consensus proposal is about.
#[derive(Clone, Copy, Debug, PartialEq, Eq, Structural)]
pub enum ProposalType {
    NodePromotion,
    TransactionMigration,
    ConfigChange,
    EmergencyFailover,
}

/// Where the cluster keeps its shared state.
pub enum SharedStateBackend {
    Redis { addresses: Vec<String>, password: Option<String> },
    Etcd { endpoints: Vec<String> },
    Consul { endpoints: Vec<String> },
    Raft { peers: Vec<String> },
}

/// How the cluster agrees.
#[derive(Clone, Copy, Debug, PartialEq, Eq, Structural)]
pub enum ConsensusAlgorithm {
    Raft,
    Pbft,
    Hashgraph,
}

/// Clustering configuration; the heartbeat interval is in seconds.
pub struct ClusteringConfig {
    pub enabled: bool,
    pub cluster_id: String,
    pub node_id: String,
    pub anycast_addresses: Vec<String>,
    pub sync_port: u16,
    pub heartbeat_interval: u32,
    pub transaction_sync_enabled: bool,
    pub shared_state_backend: SharedStateBackend,
    pub consensus_algorithm: ConsensusAlgorithm,
}

/// An anycast address and the node that holds it.
pub struct AddressOwner {
    pub address: String,
    pub node_id: String,
}

impl Keyed for AddressOwner {
    open spec fn key(&self) -> Seq<char> {
        self.address@
    }

    fn key_text(&self) -> (r: &String) {
        &self.address
    }
}

/// A node and the priority it claimed its address with (lower wins).
pub struct NodePriority {
    pub node_id: String,
    pub priority: u8,
}

impl Keyed for NodePriority {
    open spec fn key(&self) -> Seq<char> {
        self.node_id@
    }

    fn key_text(&self) -> (r: &String) {
        &self.node_id
    }
}

/// The anycast addresses of the cluster and who holds each.
pub struct AnycastManager {
    pub addresses: Vec<String>,
    pub active_addresses: KeyedList<AddressOwner>,
    pub node_priorities: KeyedList<NodePriority>,
}

/// Whether a node claiming with `priority` may take `address`: nobody holds
/// it, or its holder claimed with a known, larger priority number.
pub open spec fn takeable(owners: Map<Seq<char>, Seq<char>>, priorities: Map<Seq<char>, u8>, address: Seq<char>, priority: u8) -> bool {
    !owners.dom().contains(address) || (priorities.dom().contains(owners[address]) && priority < priorities[owners[address]])
}

/// The first address of the pool, from position `i`, that a claim may take.
pub open spec fn first_takeable(
    pool: Seq<Seq<char>>,
    owners: Map<Seq<char>, Seq<char>>,
    priorities: Map<Seq<char>, u8>,
    priority: u8,
    i: int,
) -> Option<int>
    decreases pool.len() - i,
{
    if i < 0 || i >= pool.len() {
        None
    } else if takeable(owners, priorities, pool[i], priority) {
        Some(i)
    } else {
        first_takeable(pool, owners, priorities, priority, i + 1)
    }
}

/// A claim takes the first address of the pool that it may take: one it may
/// take, with every address before it held by a claim it cannot displace;
/// when none is found, it may take no address of the pool.
pub proof fn law_first_takeable_is_first(
    pool: Seq<Seq<char>>,
    owners: Map<Seq<char>, Seq<char>>,
    priorities: Map<Seq<char>, u8>,
    priority: u8,
    from: int,
)
    requires
        0 <= from,
    ensures
        first_takeable(pool, owners, priorities, priority, from) matches Some(i) ==> from <= i < pool.len() && takeable(
            owners,
            priorities,
            pool[i],
            priority,
        ) && forall|j: int| from <= j < i ==> !takeable(owners, priorities, #[trigger] pool[j], priority),
        first_takeable(pool, owners, priorities, priority, from) is None ==> forall|j: int| from <= j < pool.len() ==> !takeable(
            owners,
            priorities,
            #[trigger] pool[j],
            priority,
        ),
    decreases pool.len() - from,
{
    if from < pool.len() {
        law_first_takeable_is_first(pool, owners, priorities, priority, from + 1);
    }
}

/// A claim with a stronger priority (a smaller number) may take every
/// address that a weaker claim may take.
pub proof fn law_stronger_claims_take_more(
    owners: Map<Seq<char>, Seq<char>>,
    priorities: Map<Seq<char>, u8>,
    address: Seq<char>,
    stronger: u8,
    weaker: u8,
)
    requires
        stronger <= weaker,
        takeable(owners, priorities, address, weaker),
    ensures
        takeable(owners, priorities, address, stronger),
{
}

fn copy_texts(v: &Vec<String>) -> (r: Vec<String>)
    ensures
        texts(r@) == texts(v@),
{
    let mut r: Vec<String> = Vec::new();
    let mut i: usize = 0;
    while i < v.len()
        invariant
            i <= v@.len(),
            texts(r@) == texts(v@).take(i as int),
        decreases v@.len() - i,
    {
        push_text(&mut r, v[i].as_str());
        proof {
            assert(texts(v@).take(i as int).push(v@[i as int]@) == texts(v@).take(i + 1));
        }
        i = i + 1;
    }
    proof {
        assert(texts(v@).take(v@.len() as int) == texts(v@));
    }
    r
}

impl AnycastManager {
    /// The holders and the priorities are each found by a distinct key.
    pub open spec fn wf(&self) -> bool {
        self.active_addresses.wf() && self.node_priorities.wf()
    }

    /// Which node holds each held address.
    pub open spec fn owners(&self) -> Map<Seq<char>, Seq<char>> {
        self.active_addresses.view().map_values(|o: AddressOwner| o.node_id@)
    }

    /// The priority each holding node claimed with.
    pub open spec fn priorities(&self) -> Map<Seq<char>, u8> {
        self.node_priorities.view().map_values(|p: NodePriority| p.priority)
    }

    /// The addresses, in order.
    pub open spec fn pool(&self) -> Seq<Seq<char>> {
        texts(self.addresses@)
    }

    /// A pool of addresses with none held.
    pub fn new(addresses: Vec<String>) -> (r: Self)
        ensures
            r.wf(),
            r.pool() == texts(addresses@),
            r.owners() == Map::<Seq<char>, Seq<char>>::empty(),
            r.priorities() == Map::<Seq<char>, u8>::empty(),
    {
        let r = AnycastManager { addresses, active_addresses: KeyedList::new(), node_priorities: KeyedList::new() };
        proof {
            assert(r.owners() =~= Map::<Seq<char>, Seq<char>>::empty());
            assert(r.priorities() =~= Map::<Seq<char>, u8>::empty());
        }
        r
    }

    /// Gives `node_id` the first address of the pool that is free or held by
    /// a node with a larger priority number, taking it from that node; the
    /// node's priority is recorded. `None` when no address can be had.
    pub fn assign_address(&mut self, node_id: &str, priority: u8) -> (r: GatewayResult<Option<String>>)
        requires
            old(self).wf(),
        ensures
            final(self).wf(),
            final(self).pool() == old(self).pool(),
            match first_takeable(old(self).pool(), old(self).owners(), old(self).priorities(), priority, 0) {
                None => {
                    &&& r matches Ok(None)
                    &&& final(self).owners() == old(self).owners()
                    &&& final(self).priorities() == old(self).priorities()
                },
                Some(j) => {
                    &&& r matches Ok(Some(a))
                    &&& a@ == old(self).pool()[j]
                    &&& final(self).owners() == old(self).owners().insert(old(self).pool()[j], node_id@)
                    &&& final(self).priorities() == old(self).priorities().insert(node_id@, priority)
                },
            },
    {
        let ghost pool = old(self).pool();
        let ghost owners = old(self).owners();
        let ghost prios = old(self).priorities();
        let mut i: usize = 0;
        while i < self.addresses.len()
            invariant
                self.wf(),
                pool == old(self).pool(),
                owners == old(self).owners(),
                prios == old(self).priorities(),
                self.pool() == pool,
                self.owners() == owners,
                self.priorities() == prios,
                i <= pool.len(),
                first_takeable(pool, owners, prios, priority, 0) == first_takeable(pool, owners, prios, priority, i as int),
            decreases pool.len() - i,
        {
            let a = text(self.addresses[i].as_str());
            assert(a@ == pool[i as int]);
            let take = match self.active_addresses.get(a.as_str()) {
                None => true,
                Some(owner) => match self.node_priorities.get(owner.node_id.as_str()) {
                    None => false,
                    Some(p) => priority < p.priority,
                },
            };
            assert(take == takeable(owners, prios, pool[i as int], priority));
            if take {
                self.active_addresses.insert(AddressOwner { address: text(a.as_str()), node_id: text(node_id) });
                self.node_priorities.insert(NodePriority { node_id: text(node_id), priority });
                proof {
                    assert(self.owners() =~= owners.insert(a@, node_id@));
                    assert(self.priorities() =~= prios.insert(node_id@, priority));
                }
                return Ok(Some(a));
            }
            i = i + 1;
        }
        Ok(None)
    }

    /// Frees every address that `node_id` holds and forgets its priority.
    pub fn release_address(&mut self, node_id: &str) -> (r: GatewayResult<()>)
        requires
            old(self).wf(),
        ensures
            r is Ok,
            final(self).wf(),
            final(self).pool() == old(self).pool(),
            final(self).owners() == released(old(self).owners(), node_id@),
            final(self).priorities() == old(self).priorities().remove(node_id@),
    {
        let ghost owners = self.owners();
        let mut kept: KeyedList<AddressOwner> = KeyedList::new();
        let items = self.active_addresses.items();
        let mut i: usize = 0;
        while i < items.len()
            invariant
                kept.wf(),
                self.active_addresses.wf(),
                owners == self.owners(),
                items@ == self.active_addresses.seq(),
                i <= items@.len(),
                forall|a: Seq<char>|
                    #[trigger] kept.view().dom().contains(a) ==> owners.dom().contains(a) && kept.view()[a].node_id@
                        == owners[a] && owners[a] != node_id@,
                forall|j: int|
                    0 <= j < i && (#[trigger] items@[j]).node_id@ != node_id@ ==> kept.view().dom().contains(
                        items@[j].address@,
                    ),
            decreases items@.len() - i,
        {
            let it = &items[i];
            proof {
                self.active_addresses.lemma_get_at(i as int);
            }
            if !str_eq(it.node_id.as_str(), node_id) {
                kept.insert(AddressOwner { address: text(it.address.as_str()), node_id: text(it.node_id.as_str()) });
            }
            i = i + 1;
        }
        proof {
            let s = self.active_addresses.seq();
            assert forall|a: Seq<char>| owners.dom().contains(a) && owners[a] != node_id@ implies kept.view().dom().contains(
                a,
            ) by {
                let j = choose|j: int| 0 <= j < s.len() && (#[trigger] s[j]).key() == a;
                self.active_addresses.lemma_get_at(j);
                assert(items@[j].node_id@ != node_id@);
            }
        }
        self.active_addresses = kept;
        self.node_priorities.remove(node_id);
        proof {
            assert(self.owners() =~= Map::new(
                |a: Seq<char>| owners.dom().contains(a) && owners[a] != node_id@,
                |a: Seq<char>| owners[a],
            ));
            assert(self.priorities() =~= old(self).priorities().remove(node_id@));
        }
        Ok(())
    }

    /// The held addresses, each with its holder.
    pub fn get_active_addresses(&self) -> (r: Vec<(String, String)>)
        requires
            self.wf(),
        ensures
            forall|i: int|
                0 <= i < r@.len() ==> self.owners().dom().contains((#[trigger] r@[i]).0@) && self.owners()[r@[i].0@]
                    == r@[i].1@,
            forall|a: Seq<char>|
                #[trigger] self.owners().dom().contains(a) ==> exists|i: int| 0 <= i < r@.len() && (#[trigger] r@[i]).0@ == a,
    {
        let items = self.active_addresses.items();
        let mut r: Vec<(String, String)> = Vec::new();
        let mut i: usize = 0;
        while i < items.len()
            invariant
                self.wf(),
                items@ == self.active_addresses.seq(),
                i <= items@.len(),
                r@.len() == i,
                forall|j: int|
                    0 <= j < i ==> (#[trigger] r@[j]).0@ == items@[j].address@ && r@[j].1@ == items@[j].node_id@,
            decreases items@.len() - i,
        {
            r.push((text(items[i].address.as_str()), text(items[i].node_id.as_str())));
            i = i + 1;
        }
        proof {
            let s = self.active_addresses.seq();
            assert forall|j: int| 0 <= j < r@.len() implies self.owners().dom().contains((#[trigger] r@[j]).0@)
                && self.owners()[r@[j].0@] == r@[j].1@ by {
                self.active_addresses.lemma_get_at(j);
            }
            assert forall|a: Seq<char>| #[trigger] self.owners().dom().contains(a) implies exists|i: int|
                0 <= i < r@.len() && (#[trigger] r@[i]).0@ == a by {
                let j = choose|j: int| 0 <= j < s.len() && (#[trigger] s[j]).key() == a;
                assert(r@[j].0@ == a);
            }
        }
        r
    }
}

/// Whether a node is overdue: not failed yet, and silent for longer than the
/// timeout (a node seen after `now_ms` is not silent).
pub open spec fn overdue(n: ClusterNode, now_ms: u64, failure_timeout_ms: u64) -> bool {
    n.status != NodeStatus::Failed && now_ms - n.last_seen_ms > failure_timeout_ms
}

/// A node after a liveness check: an overdue node is failed.
pub open spec fn checked(n: ClusterNode, now_ms: u64, failure_timeout_ms: u64) -> ClusterNode {
    if overdue(n, now_ms, failure_timeout_ms) {
        ClusterNode { status: NodeStatus::Failed, ..n }
    } else {
        n
    }
}

/// The holders left when `node` gives up every address it holds.
pub open spec fn released(owners: Map<Seq<char>, Seq<char>>, node: Seq<char>) -> Map<Seq<char>, Seq<char>> {
    Map::new(|a: Seq<char>| owners.dom().contains(a) && owners[a] != node, |a: Seq<char>| owners[a])
}

/// Releasing undoes a claim on a free address: when a node that holds no
/// address takes a free one and then gives its addresses up, the holders
/// are as they were before.
pub proof fn law_release_undoes_assign(owners: Map<Seq<char>, Seq<char>>, address: Seq<char>, node: Seq<char>)
    requires
        !owners.dom().contains(address),
        forall|a: Seq<char>| #[trigger] owners.dom().contains(a) ==> owners[a] != node,
    ensures
        released(owners.insert(address, node), node) == owners,
{
    assert(released(owners.insert(address, node), node) =~= owners);
}

/// A second liveness check at the same moment changes nothing.
pub proof fn law_liveness_check_idempotent(n: ClusterNode, now_ms: u64, failure_timeout_ms: u64)
    ensures
        checked(checked(n, now_ms, failure_timeout_ms), now_ms, failure_timeout_ms) == checked(n, now_ms, failure_timeout_ms),
{
}

/// A liveness check fails exactly the overdue nodes and changes nothing
/// else of them.
pub proof fn law_liveness_check_fails_overdue(n: ClusterNode, now_ms: u64, failure_timeout_ms: u64)
    ensures
        (checked(n, now_ms, failure_timeout_ms).status == NodeStatus::Failed) == (n.status == NodeStatus::Failed || overdue(
            n,
            now_ms,
            failure_timeout_ms,
        )),
        checked(n, now_ms, failure_timeout_ms).last_seen_ms == n.last_seen_ms,
        checked(n, now_ms, failure_timeout_ms).node_id == n.node_id,
{
}

/// Whether `b` is a copy of the member `a`: equal in every field, the list of
/// codecs by its contents.
pub open spec fn node_copy(a: ClusterNode, b: ClusterNode) -> bool {
    &&& b.node_id == a.node_id
    &&& b.address == a.address
    &&& b.last_seen_ms == a.last_seen_ms
    &&& b.status == a.status
    &&& b.load == a.load
    &&& b.capabilities.max_calls == a.capabilities.max_calls
    &&& b.capabilities.supports_transcoding == a.capabilities.supports_transcoding
    &&& b.capabilities.transcoding_backend == a.capabilities.transcoding_backend
    &&& b.capabilities.supported_codecs@ == a.capabilities.supported_codecs@
}

/// Whether `b` is a copy of the transaction `a`: equal in every field, the
/// lists by their contents.
pub open spec fn transaction_copy(a: DistributedTransaction, b: DistributedTransaction) -> bool {
    &&& b.transaction_id == a.transaction_id
    &&& b.call_id == a.call_id
    &&& b.state == a.state
    &&& b.primary_node == a.primary_node
    &&& b.backup_nodes@ == a.backup_nodes@
    &&& b.created_at_ms == a.created_at_ms
    &&& b.last_updated_ms == a.last_updated_ms
    &&& b.data.call_state == a.data.call_state
    &&& b.data.leg_a_session_id == a.data.leg_a_session_id
    &&& b.data.leg_b_session_id == a.data.leg_b_session_id
    &&& b.data.sip_dialog_state.call_id == a.data.sip_dialog_state.call_id
    &&& b.data.sip_dialog_state.local_tag == a.data.sip_dialog_state.local_tag
    &&& b.data.sip_dialog_state.remote_tag == a.data.sip_dialog_state.remote_tag
    &&& b.data.sip_dialog_state.cseq == a.data.sip_dialog_state.cseq
    &&& b.data.sip_dialog_state.remote_cseq == a.data.sip_dialog_state.remote_cseq
    &&& b.data.sip_dialog_state.route_set@ == a.data.sip_dialog_state.route_set@
    &&& b.data.media_state.leg_a_rtp_port == a.data.media_state.leg_a_rtp_port
    &&& b.data.media_state.leg_b_rtp_port == a.data.media_state.leg_b_rtp_port
    &&& b.data.media_state.leg_a_remote_addr == a.data.media_state.leg_a_remote_addr
    &&& b.data.media_state.leg_b_remote_addr == a.data.media_state.leg_b_remote_addr
    &&& b.data.media_state.codecs_negotiated@ == a.data.media_state.codecs_negotiated@
}

impl ClusterNode {
    /// A copy of the node.
    pub fn duplicate(&self) -> (r: Self)
        ensures
            node_copy(*self, r),
    {
        ClusterNode {
            node_id: self.node_id.clone(),
            address: self.address.clone(),
            last_seen_ms: self.last_seen_ms,
            status: self.status,
            load: self.load,
            capabilities: NodeCapabilities {
                max_calls: self.capabilities.max_calls,
                supports_transcoding: self.capabilities.supports_transcoding,
                transcoding_backend: self.capabilities.transcoding_backend.clone(),
                supported_codecs: copy_strings(&self.capabilities.supported_codecs),
            },
        }
    }
}

impl DistributedTransaction {
    /// A copy of the transaction.
    pub fn duplicate(&self) -> (r: Self)
        ensures
            transaction_copy(*self, r),
    {
        let d = &self.data;
        DistributedTransaction {
            transaction_id: self.transaction_id.clone(),
            call_id: self.call_id.clone(),
            state: self.state,
            primary_node: self.primary_node.clone(),
            backup_nodes: copy_strings(&self.backup_nodes),
            created_at_ms: self.created_at_ms,
            last_updated_ms: self.last_updated_ms,
            data: TransactionData {
                call_state: d.call_state,
                leg_a_session_id: d.leg_a_session_id.clone(),
                leg_b_session_id: copy_opt(&d.leg_b_session_id),
                sip_dialog_state: SipDialogState {
                    call_id: d.sip_dialog_state.call_id.clone(),
                    local_tag: d.sip_dialog_state.local_tag.clone(),
                    remote_tag: copy_opt(&d.sip_dialog_state.remote_tag),
                    cseq: d.sip_dialog_state.cseq,
                    remote_cseq: d.sip_dialog_state.remote_cseq,
                    route_set: copy_strings(&d.sip_dialog_state.route_set),
                },
                media_state: MediaState {
                    leg_a_rtp_port: d.media_state.leg_a_rtp_port,
                    leg_b_rtp_port: d.media_state.leg_b_rtp_port,
                    leg_a_remote_addr: copy_opt(&d.media_state.leg_a_remote_addr),
                    leg_b_remote_addr: copy_opt(&d.media_state.leg_b_remote_addr),
                    codecs_negotiated: copy_strings(&d.media_state.codecs_negotiated),
                },
            },
        }
    }
}

/// A concurrent map of cluster members by node id.
pub type NodeMap = dashmap::DashMap<String, ClusterNode>;

/// The members that a `DashMap` holds, by node id.
pub uninterp spec fn dash_nodes(m: NodeMap) -> Map<Seq<char>, ClusterNode>;

/// `DashMap::new`: a map that holds nothing.
#[verifier::external_body]
fn nodes_new() -> (r: NodeMap)
    ensures
        dash_nodes(r).dom().len() == 0,
        dash_nodes(r).dom().finite(),
{
    dashmap::DashMap::new()
}

/// `DashMap::insert`: the map holds `n` under `id` afterwards, in place of
/// any member it held there.
#[verifier::external_body]
fn nodes_insert(m: &mut NodeMap, id: String, n: ClusterNode)
    ensures
        dash_nodes(*final(m)) == dash_nodes(*old(m)).insert(id@, n),
{
    m.insert(id, n);
}

/// `DashMap::remove`: the map no longer holds `id`, and the member it held
/// there, if any, is handed back (without its key).
#[verifier::external_body]
fn nodes_remove(m: &mut NodeMap, id: &str) -> (r: Option<ClusterNode>)
    ensures
        dash_nodes(*final(m)) == dash_nodes(*old(m)).remove(id@),
        r is Some <==> dash_nodes(*old(m)).dom().contains(id@),
        r matches Some(n) ==> n == dash_nodes(*old(m))[id@],
{
    match m.remove(id) {
        Some((_, n)) => Some(n),
        None => None,
    }
}

/// `DashMap::iter`: the key of each entry once, in the order the map walks
/// them.
#[verifier::external_body]
fn nodes_keys(m: &NodeMap) -> (r: Vec<String>)
    ensures
        forall|i: int| 0 <= i < r@.len() ==> dash_nodes(*m).dom().contains(#[trigger] r@[i]@),
        forall|k: Seq<char>| #[trigger] dash_nodes(*m).dom().contains(k) ==> exists|i: int| 0 <= i < r@.len() && r@[i]@ == k,
        forall|i: int, j: int| 0 <= i < j < r@.len() ==> (#[trigger] r@[i])@ != (#[trigger] r@[j])@,
{
    m.iter().map(|e| copy_key(e.key())).collect()
}

/// `DashMap::iter`: a copy of the value of each entry once, in the order the
/// map walks them.
#[verifier::external_body]
fn nodes_values(m: &NodeMap) -> (r: Vec<ClusterNode>)
    ensures
        r@.len() == dash_nodes(*m).dom().len(),
        forall|i: int| 0 <= i < r@.len() ==> exists|k: Seq<char>| #[trigger] dash_nodes(*m).dom().contains(k)
            && node_copy(dash_nodes(*m)[k], #[trigger] r@[i]),
        forall|k: Seq<char>| #[trigger] dash_nodes(*m).dom().contains(k) ==> exists|i: int| 0 <= i < r@.len()
            && node_copy(dash_nodes(*m)[k], r@[i]),
{
    m.iter().map(|e| e.value().duplicate()).collect()
}

/// A concurrent map of distributed transactions by id.
pub type TransactionMap = dashmap::DashMap<String, DistributedTransaction>;

/// The transactions that a `DashMap` holds, by id.
pub uninterp spec fn dash_transactions(m: TransactionMap) -> Map<Seq<char>, DistributedTransaction>;

/// `DashMap::new`: a map that holds nothing.
#[verifier::external_body]
fn transactions_new() -> (r: TransactionMap)
    ensures
        dash_transactions(r).dom().len() == 0,
        dash_transactions(r).dom().finite(),
{
    dashmap::DashMap::new()
}

/// `DashMap::insert`: the map holds `t` under `id` afterwards, in place of
/// any transaction it held there.
#[verifier::external_body]
fn transactions_insert(m: &mut TransactionMap, id: String, t: DistributedTransaction)
    ensures
        dash_transactions(*final(m)) == dash_transactions(*old(m)).insert(id@, t),
{
    m.insert(id, t);
}

/// `DashMap::remove`: the map no longer holds `id`, and the transaction it
/// held there, if any, is handed back (without its key).
#[verifier::external_body]
fn transactions_remove(m: &mut TransactionMap, id: &str) -> (r: Option<DistributedTransaction>)
    ensures
        dash_transactions(*final(m)) == dash_transactions(*old(m)).remove(id@),
        r is Some <==> dash_transactions(*old(m)).dom().contains(id@),
        r matches Some(t) ==> t == dash_transactions(*old(m))[id@],
{
    match m.remove(id) {
        Some((_, t)) => Some(t),
        None => None,
    }
}

/// `DashMap::contains_key`: whether the map holds `id`.
#[verifier::external_body]
fn transactions_contains(m: &TransactionMap, id: &str) -> (r: bool)
    ensures
        r == dash_transactions(*m).dom().contains(id@),
{
    m.contains_key(id)
}

/// `DashMap::iter`: a copy of the value of each entry once, in the order the
/// map walks them.
#[verifier::external_body]
fn transactions_values(m: &TransactionMap) -> (r: Vec<DistributedTransaction>)
    ensures
        r@.len() == dash_transactions(*m).dom().len(),
        forall|i: int| 0 <= i < r@.len() ==> exists|k: Seq<char>| #[trigger] dash_transactions(*m).dom().contains(k)
            && transaction_copy(dash_transactions(*m)[k], #[trigger] r@[i]),
        forall|k: Seq<char>| #[trigger] dash_transactions(*m).dom().contains(k) ==> exists|i: int| 0 <= i < r@.len()
            && transaction_copy(dash_transactions(*m)[k], r@[i]),
{
    m.iter().map(|e| e.value().duplicate()).collect()
}

/// The priority this gateway claims anycast addresses with.
pub const ANYCAST_PRIORITY: u8 = 100;

/// The clustering service of one node: the members it knows, the shared
/// transactions, and the anycast pool.
pub struct ClusteringService {
    pub config: ClusteringConfig,
    pub node_id: String,
    pub cluster_nodes: NodeMap,
    pub distributed_transactions: TransactionMap,
    pub anycast_manager: AnycastManager,
    pub is_running: bool,
}

impl ClusteringService {
    /// The members by node id.
    pub open spec fn nodes(&self) -> Map<Seq<char>, ClusterNode> {
        dash_nodes(self.cluster_nodes)
    }

    /// The transactions by id.
    pub open spec fn transactions(&self) -> Map<Seq<char>, DistributedTransaction> {
        dash_transactions(self.distributed_transactions)
    }

    /// Each member and transaction is kept under its own id, and addresses
    /// are found by a distinct key.
    pub open spec fn wf(&self) -> bool {
        &&& forall|k: Seq<char>| #[trigger] self.nodes().dom().contains(k) ==> self.nodes()[k].node_id@ == k
        &&& forall|k: Seq<char>| #[trigger] self.transactions().dom().contains(k) ==> self.transactions()[k].transaction_id@ == k
        &&& self.anycast_manager.wf()
    }

    /// A stopped service for the configured node, with the configured pool.
    pub fn new(config: ClusteringConfig) -> (r: GatewayResult<Self>)
        ensures
            r matches Ok(s) && {
                &&& s.wf()
                &&& s.node_id@ == config.node_id@
                &&& s.anycast_manager.pool() == texts(config.anycast_addresses@)
                &&& s.anycast_manager.owners() == Map::<Seq<char>, Seq<char>>::empty()
                &&& s.anycast_manager.priorities() == Map::<Seq<char>, u8>::empty()
                &&& s.nodes() == Map::<Seq<char>, ClusterNode>::empty()
                &&& s.transactions() == Map::<Seq<char>, DistributedTransaction>::empty()
                &&& !s.is_running
            },
    {
        let addresses = copy_texts(&config.anycast_addresses);
        let node_id = text(config.node_id.as_str());
        let anycast_manager = AnycastManager::new(addresses);
        Ok(ClusteringService {
            config,
            node_id,
            cluster_nodes: nodes_new(),
            distributed_transactions: transactions_new(),
            anycast_manager,
            is_running: false,
        })
    }

    /// Enters this node in the member list as active, seen at `now_ms`.
    pub fn register_node(&mut self, now_ms: u64)
        requires
            old(self).wf(),
        ensures
            final(self).wf(),
            final(self).node_id == old(self).node_id,
            final(self).anycast_manager == old(self).anycast_manager,
            final(self).distributed_transactions == old(self).distributed_transactions,
            final(self).is_running == old(self).is_running,
            ({
                let n = final(self).nodes()[old(self).node_id@];
                &&& final(self).nodes() == old(self).nodes().insert(old(self).node_id@, n)
                &&& n.node_id@ == old(self).node_id@
                &&& n.address@ == "127.0.0.1:8080"@
                &&& n.last_seen_ms == now_ms
                &&& n.status == NodeStatus::Active
                &&& n.load == NodeLoad { active_calls: 0, cpu_usage_permille: 0, memory_usage_permille: 0, rtp_sessions: 0 }
                &&& n.capabilities.max_calls == 1000
                &&& n.capabilities.supports_transcoding
                &&& n.capabilities.transcoding_backend@ == "auto"@
                &&& texts(n.capabilities.supported_codecs@) == seq!["g711u"@, "g711a"@]
            }),
    {
        let mut codecs: Vec<String> = Vec::new();
        push_text(&mut codecs, "g711u");
        push_text(&mut codecs, "g711a");
        let node = ClusterNode {
            node_id: text(self.node_id.as_str()),
            address: text("127.0.0.1:8080"),
            last_seen_ms: now_ms,
            status: NodeStatus::Active,
            load: NodeLoad { active_calls: 0, cpu_usage_permille: 0, memory_usage_permille: 0, rtp_sessions: 0 },
            capabilities: NodeCapabilities {
                max_calls: 1000,
                supports_transcoding: true,
                transcoding_backend: text("auto"),
                supported_codecs: codecs,
            },
        };
        proof {
            assert(texts(node.capabilities.supported_codecs@) =~= seq!["g711u"@, "g711a"@]);
        }
        nodes_insert(&mut self.cluster_nodes, text(self.node_id.as_str()), node);
    }

    /// Starts the service: registers this node and claims an anycast
    /// address with priority 100. Returns the address claimed, if any.
    pub fn start(&mut self, now_ms: u64) -> (r: GatewayResult<Option<String>>)
        requires
            old(self).wf(),
        ensures
            final(self).wf(),
            final(self).is_running,
            final(self).nodes().dom() == old(self).nodes().dom().insert(old(self).node_id@),
            final(self).nodes()[old(self).node_id@].status == NodeStatus::Active,
            final(self).nodes()[old(self).node_id@].last_seen_ms == now_ms,
            final(self).anycast_manager.pool() == old(self).anycast_manager.pool(),
            match first_takeable(
                old(self).anycast_manager.pool(),
                old(self).anycast_manager.owners(),
                old(self).anycast_manager.priorities(),
                ANYCAST_PRIORITY,
                0,
            ) {
                None => {
                    &&& r matches Ok(None)
                    &&& final(self).anycast_manager.owners() == old(self).anycast_manager.owners()
                },
                Some(j) => {
                    &&& r matches Ok(Some(a))
                    &&& a@ == old(self).anycast_manager.pool()[j]
                    &&& final(self).anycast_manager.owners() == old(self).anycast_manager.owners().insert(
                        old(self).anycast_manager.pool()[j],
                        old(self).node_id@,
                    )
                },
            },
    {
        self.register_node(now_ms);
        let node_id = text(self.node_id.as_str());
        let assigned = match self.anycast_manager.assign_address(node_id.as_str(), ANYCAST_PRIORITY) {
            Ok(a) => a,
            Err(e) => return Err(e),
        };
        self.is_running = true;
        Ok(assigned)
    }

    /// Marks every overdue member failed, by `now_ms` and the failure timeout
    /// (three heartbeats). Returns each newly failed member with the status
    /// it had.
    pub fn mark_failed_nodes(&mut self, now_ms: u64, failure_timeout_ms: u64) -> (r: Vec<(String, NodeStatus)>)
        requires
            old(self).wf(),
        ensures
            final(self).wf(),
            final(self).nodes().dom() == old(self).nodes().dom(),
            forall|k: Seq<char>|
                #[trigger] old(self).nodes().dom().contains(k) ==> final(self).nodes()[k] == checked(
                    old(self).nodes()[k],
                    now_ms,
                    failure_timeout_ms,
                ),
            forall|i: int|
                0 <= i < r@.len() ==> {
                    let k = (#[trigger] r@[i]).0@;
                    &&& old(self).nodes().dom().contains(k)
                    &&& overdue(old(self).nodes()[k], now_ms, failure_timeout_ms)
                    &&& r@[i].1 == old(self).nodes()[k].status
                },
            forall|k: Seq<char>|
                #[trigger] old(self).nodes().dom().contains(k) && overdue(
                    old(self).nodes()[k],
                    now_ms,
                    failure_timeout_ms,
                ) ==> exists|i: int| 0 <= i < r@.len() && (#[trigger] r@[i]).0@ == k,
            final(self).node_id == old(self).node_id,
            final(self).anycast_manager == old(self).anycast_manager,
            final(self).distributed_transactions == old(self).distributed_transactions,
            final(self).is_running == old(self).is_running,
    {
        let ids = nodes_keys(&self.cluster_nodes);
        let ghost old_view = old(self).nodes();
        let mut failed: Vec<(String, NodeStatus)> = Vec::new();
        let ghost mut from: Seq<int> = Seq::empty();
        let mut i: usize = 0;
        while i < ids.len()
            invariant
                i <= ids@.len(),
                old_view == old(self).nodes(),
                self.wf(),
                self.node_id == old(self).node_id,
                self.anycast_manager == old(self).anycast_manager,
                self.distributed_transactions == old(self).distributed_transactions,
                self.is_running == old(self).is_running,
                forall|x: int| 0 <= x < ids@.len() ==> old_view.dom().contains(#[trigger] ids@[x]@),
                forall|k: Seq<char>| #[trigger] old_view.dom().contains(k) ==> exists|x: int| 0 <= x < ids@.len() && ids@[x]@ == k,
                forall|x: int, y: int| 0 <= x < y < ids@.len() ==> (#[trigger] ids@[x])@ != (#[trigger] ids@[y])@,
                self.nodes().dom() == old_view.dom(),
                forall|x: int| 0 <= x < i ==> self.nodes()[(#[trigger] ids@[x])@] == checked(old_view[ids@[x]@], now_ms, failure_timeout_ms),
                forall|x: int| i <= x < ids@.len() ==> self.nodes()[(#[trigger] ids@[x])@] == old_view[ids@[x]@],
                from.len() == failed@.len(),
                forall|q: int| 0 <= q < failed@.len() ==> 0 <= #[trigger] from[q] < i && failed@[q].0@ == ids@[from[q]]@
                    && overdue(old_view[ids@[from[q]]@], now_ms, failure_timeout_ms) && failed@[q].1 == old_view[ids@[from[q]]@].status,
                forall|x: int| 0 <= x < i && overdue(old_view[(#[trigger] ids@[x])@], now_ms, failure_timeout_ms)
                    ==> exists|q: int| 0 <= q < failed@.len() && from[q] == x,
            decreases ids@.len() - i,
        {
            let ghost key = ids@[i as int]@;
            let ghost before = self.nodes();
            let ghost from0 = from;
            let taken = nodes_remove(&mut self.cluster_nodes, ids[i].as_str());
            let mut n = match taken {
                Some(n) => n,
                None => {
                    assert(false);
                    return failed;
                },
            };
            assert(n == old_view[key]);
            if n.status != NodeStatus::Failed && now_ms.saturating_sub(n.last_seen_ms) > failure_timeout_ms {
                failed.push((text(n.node_id.as_str()), n.status));
                proof {
                    from = from.push(i as int);
                }
                n.status = NodeStatus::Failed;
            }
            assert(n == checked(old_view[key], now_ms, failure_timeout_ms));
            nodes_insert(&mut self.cluster_nodes, copy_key(&ids[i]), n);
            proof {
                assert(self.nodes() == before.remove(key).insert(key, n));
                assert(self.nodes().dom() =~= old_view.dom());
                assert forall|x: int| 0 <= x < i + 1 implies self.nodes()[(#[trigger] ids@[x])@] == checked(old_view[ids@[x]@], now_ms,
                    failure_timeout_ms) by {
                    if x < i {
                        assert(ids@[x]@ != key);
                    }
                }
                assert forall|x: int| i + 1 <= x < ids@.len() implies self.nodes()[(#[trigger] ids@[x])@] == old_view[ids@[x]@] by {
                    assert(ids@[x]@ != key);
                }
                assert forall|x: int| 0 <= x < i + 1 && overdue(old_view[(#[trigger] ids@[x])@], now_ms, failure_timeout_ms)
                    implies exists|q: int| 0 <= q < failed@.len() && from[q] == x by {
                    if x < i {
                        let q = choose|q: int| 0 <= q < from0.len() && from0[q] == x;
                        assert(from[q] == x);
                    } else {
                        assert(from[failed@.len() - 1] == x);
                    }
                }
                assert forall|k: Seq<char>| #[trigger] self.nodes().dom().contains(k) implies self.nodes()[k].node_id@ == k by {
                    if k != key {
                        assert(before.dom().contains(k));
                    }
                }
            }
            i = i + 1;
        }
        proof {
            assert forall|k: Seq<char>| #[trigger] old_view.dom().contains(k) implies self.nodes()[k] == checked(old_view[k], now_ms,
                failure_timeout_ms) by {
                let x = choose|x: int| 0 <= x < ids@.len() && ids@[x]@ == k;
            }
            assert forall|q: int| 0 <= q < failed@.len() implies {
                let k = (#[trigger] failed@[q]).0@;
                &&& old_view.dom().contains(k)
                &&& overdue(old_view[k], now_ms, failure_timeout_ms)
                &&& failed@[q].1 == old_view[k].status
            } by {
                let x = from[q];
            }
            assert forall|k: Seq<char>| #[trigger] old_view.dom().contains(k) && overdue(old_view[k], now_ms, failure_timeout_ms)
                implies exists|q: int| 0 <= q < failed@.len() && (#[trigger] failed@[q]).0@ == k by {
                let x = choose|x: int| 0 <= x < ids@.len() && ids@[x]@ == k;
                let q = choose|q: int| 0 <= q < failed@.len() && from[q] == x;
            }
        }
        failed
    }
}

impl ClusteringService {
    /// Opens a transaction for a call on this node, in state `Initiating`,
    /// under a fresh id; returns the id.
    pub fn create_distributed_transaction(
        &mut self,
        call_id: &str,
        call_state: B2buaCallState,
        leg_a_session_id: &str,
        now_ms: u64,
    ) -> (r: GatewayResult<String>)
        requires
            old(self).wf(),
        ensures
            final(self).wf(),
            final(self).node_id == old(self).node_id,
            final(self).cluster_nodes == old(self).cluster_nodes,
            final(self).anycast_manager == old(self).anycast_manager,
            r matches Ok(id) && {
                let t = final(self).transactions()[id@];
                &&& final(self).transactions() == old(self).transactions().insert(id@, t)
                &&& t.transaction_id@ == id@
                &&& t.call_id@ == call_id@
                &&& t.state == TransactionState::Initiating
                &&& t.primary_node@ == old(self).node_id@
                &&& t.backup_nodes@.len() == 0
                &&& t.created_at_ms == now_ms && t.last_updated_ms == now_ms
                &&& t.data.call_state == call_state
                &&& t.data.leg_a_session_id@ == leg_a_session_id@
                &&& t.data.leg_b_session_id is None
                &&& t.data.sip_dialog_state.call_id@ == call_id@
                &&& t.data.sip_dialog_state.local_tag@.len() == 0
                &&& t.data.sip_dialog_state.remote_tag is None
                &&& t.data.sip_dialog_state.cseq == 1
                &&& t.data.sip_dialog_state.remote_cseq == 0
                &&& t.data.sip_dialog_state.route_set@.len() == 0
                &&& t.data.media_state.leg_a_rtp_port is None && t.data.media_state.leg_b_rtp_port is None
                &&& t.data.media_state.leg_a_remote_addr is None && t.data.media_state.leg_b_remote_addr is None
                &&& t.data.media_state.codecs_negotiated@.len() == 0
            },
    {
        let id = uuid_text(new_test_id());
        let t = DistributedTransaction {
            transaction_id: text(id.as_str()),
            call_id: text(call_id),
            state: TransactionState::Initiating,
            primary_node: text(self.node_id.as_str()),
            backup_nodes: Vec::new(),
            created_at_ms: now_ms,
            last_updated_ms: now_ms,
            data: TransactionData {
                call_state,
                leg_a_session_id: text(leg_a_session_id),
                leg_b_session_id: None,
                sip_dialog_state: SipDialogState {
                    call_id: text(call_id),
                    local_tag: String::new(),
                    remote_tag: None,
                    cseq: 1,
                    remote_cseq: 0,
                    route_set: Vec::new(),
                },
                media_state: MediaState {
                    leg_a_rtp_port: None,
                    leg_b_rtp_port: None,
                    leg_a_remote_addr: None,
                    leg_b_remote_addr: None,
                    codecs_negotiated: Vec::new(),
                },
            },
        };
        transactions_insert(&mut self.distributed_transactions, text(id.as_str()), t);
        Ok(id)
    }

    /// Moves a known transaction to `state`, stamped `now_ms`; an unknown id
    /// changes nothing.
    pub fn update_transaction_state(&mut self, transaction_id: &str, state: TransactionState, now_ms: u64) -> (r: GatewayResult<()>)
        requires
            old(self).wf(),
        ensures
            r is Ok,
            final(self).wf(),
            final(self).cluster_nodes == old(self).cluster_nodes,
            final(self).anycast_manager == old(self).anycast_manager,
            final(self).node_id == old(self).node_id,
            if old(self).transactions().dom().contains(transaction_id@) {
                final(self).transactions() == old(self).transactions().insert(
                    transaction_id@,
                    DistributedTransaction {
                        state,
                        last_updated_ms: now_ms,
                        ..old(self).transactions()[transaction_id@]
                    },
                )
            } else {
                final(self).transactions() == old(self).transactions()
            },
    {
        match transactions_remove(&mut self.distributed_transactions, transaction_id) {
            Some(mut t) => {
                let ghost t0 = t;
                t.state = state;
                t.last_updated_ms = now_ms;
                transactions_insert(&mut self.distributed_transactions, text(transaction_id), t);
                proof {
                    assert(self.transactions() =~= old(self).transactions().insert(
                        transaction_id@,
                        DistributedTransaction { state, last_updated_ms: now_ms, ..t0 },
                    ));
                }
            },
            None => {},
        }
        Ok(())
    }

    /// Ends the migration of a transaction to `target_node`: a known
    /// transaction leaves this node when the cluster approved the move
    /// (`decision` is `Some(true)`). Returns whether it left.
    pub fn migrate_transaction(&mut self, transaction_id: &str, target_node: &str, decision: Option<bool>) -> (r: GatewayResult<bool>)
        requires
            old(self).wf(),
        ensures
            final(self).wf(),
            final(self).cluster_nodes == old(self).cluster_nodes,
            final(self).anycast_manager == old(self).anycast_manager,
            final(self).node_id == old(self).node_id,
            r == Ok::<bool, crate::error::GatewayError>(
                old(self).transactions().dom().contains(transaction_id@) && decision == Some(true),
            ),
            if old(self).transactions().dom().contains(transaction_id@) && decision == Some(true) {
                final(self).transactions() == old(self).transactions().remove(transaction_id@)
            } else {
                final(self).transactions() == old(self).transactions()
            },
    {
        let known = transactions_contains(&self.distributed_transactions, transaction_id);
        let approved = match decision {
            Some(d) => d,
            None => false,
        };
        if known && approved {
            let _ = transactions_remove(&mut self.distributed_transactions, transaction_id);
            Ok(true)
        } else {
            Ok(false)
        }
    }

    /// Copies of the members, each once, in the order the map walks them.
    pub fn get_cluster_nodes(&self) -> (r: Vec<ClusterNode>)
        requires
            self.wf(),
        ensures
            r@.len() == self.nodes().dom().len(),
            forall|i: int| 0 <= i < r@.len() ==> self.nodes().dom().contains((#[trigger] r@[i]).node_id@)
                && node_copy(self.nodes()[r@[i].node_id@], r@[i]),
            forall|k: Seq<char>| #[trigger] self.nodes().dom().contains(k) ==> exists|i: int| 0 <= i < r@.len() && r@[i].node_id@ == k,
    {
        let r = nodes_values(&self.cluster_nodes);
        proof {
            assert forall|i: int| 0 <= i < r@.len() implies self.nodes().dom().contains((#[trigger] r@[i]).node_id@)
                && node_copy(self.nodes()[r@[i].node_id@], r@[i]) by {
                let k = choose|k: Seq<char>| #[trigger] self.nodes().dom().contains(k) && node_copy(self.nodes()[k], r@[i]);
            }
            assert forall|k: Seq<char>| #[trigger] self.nodes().dom().contains(k) implies exists|i: int| 0 <= i < r@.len()
                && r@[i].node_id@ == k by {
                let i = choose|i: int| 0 <= i < r@.len() && node_copy(self.nodes()[k], r@[i]);
            }
        }
        r
    }

    /// Copies of the transactions, each once, in the order the map walks them.
    pub fn get_active_transactions(&self) -> (r: Vec<DistributedTransaction>)
        requires
            self.wf(),
        ensures
            r@.len() == self.transactions().dom().len(),
            forall|i: int| 0 <= i < r@.len() ==> self.transactions().dom().contains((#[trigger] r@[i]).transaction_id@)
                && transaction_copy(self.transactions()[r@[i].transaction_id@], r@[i]),
            forall|k: Seq<char>| #[trigger] self.transactions().dom().contains(k) ==> exists|i: int| 0 <= i < r@.len()
                && r@[i].transaction_id@ == k,
    {
        let r = transactions_values(&self.distributed_transactions);
        proof {
            assert forall|i: int| 0 <= i < r@.len() implies self.transactions().dom().contains((#[trigger] r@[i]).transaction_id@)
                && transaction_copy(self.transactions()[r@[i].transaction_id@], r@[i]) by {
                let k = choose|k: Seq<char>| #[trigger] self.transactions().dom().contains(k) && transaction_copy(self.transactions()[k], r@[i]);
            }
            assert forall|k: Seq<char>| #[trigger] self.transactions().dom().contains(k) implies exists|i: int| 0 <= i < r@.len()
                && r@[i].transaction_id@ == k by {
                let i = choose|i: int| 0 <= i < r@.len() && transaction_copy(self.transactions()[k], r@[i]);
            }
        }
        r
    }

    /// Stops the service: this node gives up its anycast addresses and, if
    /// it is a member, goes into maintenance.
    pub fn stop(&mut self) -> (r: GatewayResult<()>)
        requires
            old(self).wf(),
        ensures
            r is Ok,
            final(self).wf(),
            !final(self).is_running,
            final(self).anycast_manager.pool() == old(self).anycast_manager.pool(),
            final(self).anycast_manager.owners() == released(old(self).anycast_manager.owners(), old(self).node_id@),
            final(self).anycast_manager.priorities() == old(self).anycast_manager.priorities().remove(old(self).node_id@),
            final(self).distributed_transactions == old(self).distributed_transactions,
            if old(self).nodes().dom().contains(old(self).node_id@) {
                final(self).nodes() == old(self).nodes().insert(
                    old(self).node_id@,
                    ClusterNode { status: NodeStatus::Maintenance, ..old(self).nodes()[old(self).node_id@] },
                )
            } else {
                final(self).nodes() == old(self).nodes()
            },
    {
        let node_id = text(self.node_id.as_str());
        let _ = self.anycast_manager.release_address(node_id.as_str());
        match nodes_remove(&mut self.cluster_nodes, node_id.as_str()) {
            Some(mut n) => {
                let ghost n0 = n;
                n.status = NodeStatus::Maintenance;
                nodes_insert(&mut self.cluster_nodes, text(node_id.as_str()), n);
                proof {
                    assert(self.nodes() =~= old(self).nodes().insert(
                        node_id@,
                        ClusterNode { status: NodeStatus::Maintenance, ..n0 },
                    ));
                }
            },
            None => {},
        }
        self.is_running = false;
        Ok(())
    }
}

} // verus!
