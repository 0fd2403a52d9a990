//! RTP media relay between the two legs of a call: a jitter buffer that
//! releases packets in sequence, simple media processing (DTMF and silence
//! detection, noise reduction, gain control), and the relay sessions with
//! their statistics. Times are milliseconds.

use vstd::prelude::*;
use crate::error::{GatewayError, GatewayResult};
use crate::keyed::{active_part, idle, Active, Keyed, NumKeyed, NumKeyedList};
use crate::text::{copy_key, copy_opt, join2, str_eq, text};
use crate::transcoding::{CodecType, TranscodingBackend, TranscodingSessions};
use crate::interface_testing::{new_test_id, uuid_text};

verus! {

/// An RTP packet.
pub struct RtpPacket {
    pub version: u8,
    pub padding: bool,
    pub extension: bool,
    pub marker: bool,
    pub payload_type: u8,
    pub sequence_number: u16,
    pub timestamp: u32,
    pub ssrc: u32,
    pub payload: Vec<u8>,
}

impl RtpPacket {
    /// A version 2 packet with no payload.
    pub fn new(payload_type: u8, sequence_number: u16, timestamp: u32, ssrc: u32) -> (r: Self)
        ensures
            r.version == 2,
            !r.padding && !r.extension && !r.marker,
            r.payload_type == payload_type,
            r.sequence_number == sequence_number,
            r.timestamp == timestamp,
            r.ssrc == ssrc,
            r.payload@.len() == 0,
    {
        RtpPacket {
            version: 2,
            padding: false,
            extension: false,
            marker: false,
            payload_type,
            sequence_number,
            timestamp,
            ssrc,
            payload: Vec::new(),
        }
    }
}

/// A packet held by a jitter buffer, with the time it arrived.
pub struct BufferedPacket {
    pub packet: RtpPacket,
    pub arrival_ms: u64,
}

impl NumKeyed for BufferedPacket {
    open spec fn key(&self) -> u128 {
        self.packet.sequence_number as u128
    }

    fn key_num(&self) -> (r: u128) {
        self.packet.sequence_number as u128
    }
}

/// Jitter buffer for packet reordering and delay compensation: packets by
/// sequence number, the number of the next packet to play (set by the first
/// packet taken in), the most packets held and the delay a packet waits
/// before it is played.
pub struct JitterBuffer {
    pub packets: NumKeyedList<BufferedPacket>,
    pub expected_sequence: u16,
    pub started: bool,
    pub max_size: usize,
    pub target_delay_ms: u64,
    pub created_ms: u64,
}

/// How long a packet that arrived at `arrival` has waited at `now` (none when `now` is earlier).
pub open spec fn age(now: u64, arrival: u64) -> nat {
    if now >= arrival { (now - arrival) as nat } else { 0 }
}

/// The packets of `m` that have waited less than `max_age`.
pub open spec fn fresh_packets(m: Map<u128, BufferedPacket>, now: u64, max_age: nat) -> Map<u128, BufferedPacket> {
    m.restrict(m.dom().filter(|k: u128| age(now, m[k].arrival_ms) < max_age))
}

/// Whether `after` is `before` with the oldest packets dropped until at most
/// `max` remain: what is kept is unchanged, and nothing dropped arrived later
/// than anything kept.
pub open spec fn evicted_oldest(before: Map<u128, BufferedPacket>, after: Map<u128, BufferedPacket>, max: nat) -> bool {
    &&& after.dom().subset_of(before.dom())
    &&& forall|k: u128| #[trigger] after.dom().contains(k) ==> after[k] == before[k]
    &&& (before.dom().len() <= max ==> after == before)
    &&& (before.dom().len() > max ==> after.dom().len() == max)
    &&& forall|a: u128, b: u128| before.dom().contains(a) && !after.dom().contains(a) && #[trigger] after.dom().contains(b)
        ==> #[trigger] before[a].arrival_ms <= after[b].arrival_ms
}

/// The sequence number `k` places after `s`, wrapping at 2^16.
pub open spec fn seq_after(s: u16, k: int) -> u128 {
    ((s as int + k) % 65536) as u128
}

/// Whether the packet with key `k` is held and ready to play: it has waited
/// the target delay, or the packet after it is held already, so that the
/// order up to it is settled and there is nothing left to wait for.
pub open spec fn ready_at(m: Map<u128, BufferedPacket>, k: u128, now: u64, delay: u64) -> bool {
    &&& m.dom().contains(k)
    &&& (age(now, m[k].arrival_ms) >= delay || m.dom().contains(((k + 1) % 65536) as u128))
}

/// Whether the `k`-th packet played out is the one `k` places after the
/// expected number, held and ready.
pub open spec fn played_entry(before: Map<u128, BufferedPacket>, expected: u16, out: Seq<RtpPacket>, k: int, now: u64, delay: u64) -> bool {
    &&& ready_at(before, seq_after(expected, k), now, delay)
    &&& out[k] == before[seq_after(expected, k)].packet
    &&& out[k].sequence_number as u128 == seq_after(expected, k)
}

/// Whether playing out took the packets `out` from `before` (leaving `after`):
/// they are the packets of the expected number and those after it, each held
/// and ready, up to the first that is missing or not ready; each number comes
/// out at most once, and only held packets come out.
pub open spec fn played_out(
    before: Map<u128, BufferedPacket>,
    expected: u16,
    after: Map<u128, BufferedPacket>,
    next_expected: u16,
    out: Seq<RtpPacket>,
    now: u64,
    delay: u64,
) -> bool {
    &&& forall|k: int| 0 <= k < out.len() ==> #[trigger] played_entry(before, expected, out, k, now, delay)
    &&& !ready_at(after, seq_after(expected, out.len() as int), now, delay)
    &&& after == before.remove_keys(Set::new(|q: u128| exists|k: int| 0 <= k < out.len() && q == seq_after(expected, k)))
    &&& next_expected as int == (expected as int + out.len()) % 65536
    &&& out.len() <= 65536
    &&& out.len() + after.dom().len() == before.dom().len()
}

/// Playing out releases consecutive sequence numbers from the expected one,
/// each at most once, and expects the number after the last released next.
pub proof fn law_playout_in_sequence(
    before: Map<u128, BufferedPacket>,
    expected: u16,
    after: Map<u128, BufferedPacket>,
    next_expected: u16,
    out: Seq<RtpPacket>,
    now: u64,
    delay: u64,
)
    requires
        played_out(before, expected, after, next_expected, out, now, delay),
    ensures
        forall|k: int| 0 <= k < out.len() ==> (#[trigger] out[k]).sequence_number as int == (expected as int + k) % 65536,
        forall|i: int, j: int| 0 <= i < j < out.len() ==> (#[trigger] out[i]).sequence_number != (#[trigger] out[j]).sequence_number,
        out.len() <= before.dom().len(),
{
    assert forall|k: int| 0 <= k < out.len() implies (#[trigger] out[k]).sequence_number as int == (expected as int + k) % 65536 by {
        assert(played_entry(before, expected, out, k, now, delay));
    }
    assert forall|i: int, j: int| 0 <= i < j < out.len() implies (#[trigger] out[i]).sequence_number != (#[trigger] out[j]).sequence_number by {
        assert(played_entry(before, expected, out, i, now, delay));
        assert(played_entry(before, expected, out, j, now, delay));
        assert((expected as int + i) % 65536 != (expected as int + j) % 65536);
    }
}

/// Successive play-outs continue each other: what two calls release, one
/// after the other, is the run of consecutive numbers from the first call's
/// expected number, without gap or repeat.
pub proof fn law_playouts_continue(
    b1: Map<u128, BufferedPacket>,
    expected: u16,
    a1: Map<u128, BufferedPacket>,
    e1: u16,
    o1: Seq<RtpPacket>,
    b2: Map<u128, BufferedPacket>,
    a2: Map<u128, BufferedPacket>,
    e2: u16,
    o2: Seq<RtpPacket>,
    now1: u64,
    now2: u64,
    delay: u64,
)
    requires
        played_out(b1, expected, a1, e1, o1, now1, delay),
        played_out(b2, e1, a2, e2, o2, now2, delay),
    ensures
        forall|k: int| 0 <= k < o1.len() + o2.len() ==> (#[trigger] (o1 + o2)[k]).sequence_number as int == (expected as int + k) % 65536,
        e2 as int == (expected as int + o1.len() + o2.len()) % 65536,
{
    law_playout_in_sequence(b1, expected, a1, e1, o1, now1, delay);
    law_playout_in_sequence(b2, e1, a2, e2, o2, now2, delay);
    assert forall|k: int| 0 <= k < o1.len() + o2.len() implies (#[trigger] (o1 + o2)[k]).sequence_number as int == (expected as int + k) % 65536 by {
        if k >= o1.len() {
            let j = k - o1.len();
            assert((o1 + o2)[k] == o2[j]);
            assert(((expected as int + o1.len()) % 65536 + j) % 65536 == (expected as int + k) % 65536);
        }
    }
}

impl JitterBuffer {
    /// Sequence numbers are distinct.
    pub open spec fn wf(&self) -> bool {
        self.packets.wf()
    }

    /// The held packets by sequence number.
    pub open spec fn held(&self) -> Map<u128, BufferedPacket> {
        self.packets.view()
    }

    /// An empty buffer; the first packet taken in sets the number expected.
    pub fn new(max_size: usize, target_delay_ms: u64) -> (r: Self)
        ensures
            r.wf(),
            r.held() == Map::<u128, BufferedPacket>::empty(),
            !r.started,
            r.max_size == max_size,
            r.target_delay_ms == target_delay_ms,
    {
        JitterBuffer { packets: NumKeyedList::new(), expected_sequence: 0, started: false, max_size, target_delay_ms, created_ms: 0 }
    }

    /// The number of packets held.
    pub fn get_buffer_size(&self) -> (r: usize)
        requires
            self.wf(),
        ensures
            r == self.held().dom().len(),
    {
        self.packets.len()
    }

    fn find_stale(&self, now_ms: u64, max_age: u64) -> (r: Option<u128>)
        requires
            self.wf(),
        ensures
            r matches Some(k) ==> self.held().dom().contains(k) && age(now_ms, self.held()[k].arrival_ms) >= max_age,
            r is None ==> forall|k: u128| #[trigger] self.held().dom().contains(k) ==> age(now_ms, self.held()[k].arrival_ms) < max_age,
    {
        let items = self.packets.items();
        let mut i: usize = 0;
        while i < items.len()
            invariant
                items@ == self.packets.seq(),
                self.packets.wf(),
                i <= items@.len(),
                forall|j: int| 0 <= j < i ==> age(now_ms, (#[trigger] items@[j]).arrival_ms) < max_age,
            decreases items@.len() - i,
        {
            let a = items[i].arrival_ms;
            let waited: u64 = if now_ms >= a { now_ms - a } else { 0 };
            if waited >= max_age {
                proof {
                    self.packets.lemma_get_at(i as int);
                }
                return Some(items[i].packet.sequence_number as u128);
            }
            i = i + 1;
        }
        proof {
            assert forall|k: u128| #[trigger] self.held().dom().contains(k) implies age(now_ms, self.held()[k].arrival_ms) < max_age by {
                let j = choose|j: int| 0 <= j < self.packets.seq().len() && (#[trigger] self.packets.seq()[j]).key() == k;
                self.packets.lemma_get_at(j);
            }
        }
        None
    }

    fn find_oldest(&self) -> (r: u128)
        requires
            self.wf(),
            self.held().dom().len() > 0,
        ensures
            self.held().dom().contains(r),
            forall|k: u128| #[trigger] self.held().dom().contains(k) ==> self.held()[r].arrival_ms <= self.held()[k].arrival_ms,
    {
        proof {
            self.packets.lemma_len_pub();
        }
        let items = self.packets.items();
        let mut best: usize = 0;
        let mut i: usize = 1;
        while i < items.len()
            invariant
                items@ == self.packets.seq(),
                items@.len() > 0,
                best < items@.len(),
                1 <= i <= items@.len(),
                forall|j: int| 0 <= j < i ==> items@[best as int].arrival_ms <= (#[trigger] items@[j]).arrival_ms,
            decreases items@.len() - i,
        {
            if items[i].arrival_ms < items[best].arrival_ms {
                best = i;
            }
            i = i + 1;
        }
        proof {
            self.packets.lemma_get_at(best as int);
            assert forall|k: u128| #[trigger] self.held().dom().contains(k) implies self.held()[items@[best as int].key()].arrival_ms
                <= self.held()[k].arrival_ms by {
                let j = choose|j: int| 0 <= j < self.packets.seq().len() && (#[trigger] self.packets.seq()[j]).key() == k;
                self.packets.lemma_get_at(j);
            }
        }
        items[best].packet.sequence_number as u128
    }

    /// Holds a packet, drops those that have waited twice the target delay,
    /// and drops the oldest while more than `max_size` are held.
    fn hold_packet(&mut self, packet: RtpPacket, now_ms: u64)
        requires
            old(self).wf(),
            old(self).target_delay_ms * 2 <= u64::MAX,
        ensures
            final(self).wf(),
            final(self).expected_sequence == old(self).expected_sequence,
            final(self).started == old(self).started,
            final(self).max_size == old(self).max_size,
            final(self).target_delay_ms == old(self).target_delay_ms,
            evicted_oldest(
                fresh_packets(
                    old(self).held().insert(packet.sequence_number as u128, BufferedPacket { packet, arrival_ms: now_ms }),
                    now_ms,
                    (old(self).target_delay_ms * 2) as nat,
                ),
                final(self).held(),
                old(self).max_size as nat,
            ),
    {
        let ghost pv = packet;
        self.packets.insert(BufferedPacket { packet, arrival_ms: now_ms });
        let ghost m1 = self.held();
        let max_age = self.target_delay_ms * 2;
        let ghost m2 = fresh_packets(m1, now_ms, max_age as nat);
        loop
            invariant
                self.wf(),
                self.expected_sequence == old(self).expected_sequence,
                self.started == old(self).started,
                self.max_size == old(self).max_size,
                self.target_delay_ms == old(self).target_delay_ms,
                max_age == self.target_delay_ms * 2,
                m2 == fresh_packets(m1, now_ms, max_age as nat),
                self.held().dom().subset_of(m1.dom()),
                m2.dom().subset_of(self.held().dom()),
                forall|k: u128| #[trigger] self.held().dom().contains(k) ==> self.held()[k] == m1[k],
            ensures
                self.wf(),
                self.expected_sequence == old(self).expected_sequence,
                self.started == old(self).started,
                self.max_size == old(self).max_size,
                self.target_delay_ms == old(self).target_delay_ms,
                self.held() == m2,
            decreases self.packets.seq().len(),
        {
            match self.find_stale(now_ms, max_age) {
                Some(k) => {
                    proof {
                        self.packets.lemma_len_pub();
                    }
                    self.packets.remove(k);
                    proof {
                        self.packets.lemma_len_pub();
                    }
                },
                None => {
                    proof {
                        assert(self.held() =~= m2);
                    }
                    break;
                },
            }
        }
        proof {
            self.packets.lemma_len_pub();
        }
        let ghost removed: Set<u128> = Set::empty();
        while self.packets.len() > self.max_size
            invariant
                self.wf(),
                self.expected_sequence == old(self).expected_sequence,
                self.started == old(self).started,
                self.max_size == old(self).max_size,
                self.target_delay_ms == old(self).target_delay_ms,
                m2.dom().finite(),
                self.held().dom().subset_of(m2.dom()),
                forall|k: u128| #[trigger] self.held().dom().contains(k) ==> self.held()[k] == m2[k],
                m2.dom().len() <= self.max_size ==> self.held() == m2,
                m2.dom().len() > self.max_size ==> self.held().dom().len() >= self.max_size,
                forall|a: u128, b: u128| m2.dom().contains(a) && !self.held().dom().contains(a) && #[trigger] self.held().dom().contains(b)
                    ==> #[trigger] m2[a].arrival_ms <= self.held()[b].arrival_ms,
            decreases self.packets.seq().len(),
        {
            proof {
                self.packets.lemma_len_pub();
            }
            let k = self.find_oldest();
            let ghost before = self.held();
            self.packets.remove(k);
            proof {
                self.packets.lemma_len_pub();
                assert forall|a: u128, b: u128| m2.dom().contains(a) && !self.held().dom().contains(a) && #[trigger] self.held().dom().contains(b)
                    implies #[trigger] m2[a].arrival_ms <= self.held()[b].arrival_ms by {
                    if a == k {
                        assert(before.dom().contains(b));
                    } else {
                        assert(before.dom().contains(b));
                    }
                }
            }
        }
        proof {
            self.packets.lemma_len_pub();
        }
    }

    /// Plays out what is ready: the packet of the expected number and those
    /// after it, as long as each is held and has waited the target delay or
    /// has the packet after it held already.
    pub fn extract_ready_packets(&mut self, now_ms: u64) -> (r: Vec<RtpPacket>)
        requires
            old(self).wf(),
        ensures
            final(self).wf(),
            final(self).max_size == old(self).max_size,
            final(self).target_delay_ms == old(self).target_delay_ms,
            final(self).started == old(self).started,
            played_out(old(self).held(), old(self).expected_sequence, final(self).held(), final(self).expected_sequence, r@,
                now_ms, old(self).target_delay_ms),
    {
        let ghost start = self.held();
        let ghost e0 = self.expected_sequence;
        let delay = self.target_delay_ms;
        let mut out: Vec<RtpPacket> = Vec::new();
        proof {
            self.packets.lemma_len_pub();
            assert(self.held() =~= start.remove_keys(Set::new(|q: u128| exists|k: int| 0 <= k < out@.len() && q == seq_after(e0, k))));
        }
        loop
            invariant
                self.wf(),
                self.max_size == old(self).max_size,
                self.target_delay_ms == old(self).target_delay_ms,
                delay == old(self).target_delay_ms,
                start == old(self).held(),
                e0 == old(self).expected_sequence,
                self.expected_sequence as int == (e0 as int + out@.len()) % 65536,
                self.started == old(self).started,
                out@.len() <= 65536,
                start.dom().finite(),
                out@.len() + self.held().dom().len() == start.dom().len(),
                forall|k: int| 0 <= k < out@.len() ==> #[trigger] played_entry(start, e0, out@, k, now_ms, delay),
                self.held() == start.remove_keys(Set::new(|q: u128| exists|k: int| 0 <= k < out@.len() && q == seq_after(e0, k))),
            ensures
                self.wf(),
                self.max_size == old(self).max_size,
                self.target_delay_ms == old(self).target_delay_ms,
                self.started == old(self).started,
                played_out(start, e0, self.held(), self.expected_sequence, out@, now_ms, delay),
            decreases self.packets.seq().len(),
        {
            let exp = self.expected_sequence;
            proof {
                assert(seq_after(e0, out@.len() as int) == exp as u128);
            }
            let next = exp.wrapping_add(1);
            proof {
                assert((exp as u128 + 1) % 65536 == next as u128);
            }
            let ready = match self.packets.get(exp as u128) {
                Some(bp) => {
                    let a = bp.arrival_ms;
                    let waited: u64 = if now_ms >= a { now_ms - a } else { 0 };
                    waited >= delay || self.packets.get(next as u128).is_some()
                },
                None => false,
            };
            if !ready {
                proof {
                    assert(!ready_at(self.held(), seq_after(e0, out@.len() as int), now_ms, delay));
                }
                break;
            }
            let ghost before = self.held();
            let ghost n = out@.len();
            proof {
                assert(before.dom().contains(exp as u128));
                if out@.len() == 65536 {
                    assert(seq_after(e0, 0) == exp as u128);
                    assert(!before.dom().contains(exp as u128));
                }
                self.packets.lemma_view_key(exp as u128);
            }
            proof {
                self.packets.lemma_len_pub();
            }
            let bp = self.packets.remove(exp as u128);
            proof {
                self.packets.lemma_len_pub();
            }
            proof {
                assert(bp is Some);
            }
            let b = bp.unwrap();
            let ghost prev = out@;
            out.push(b.packet);
            proof {
                assert(start.dom().contains(exp as u128));
                assert(out@[n as int] == start[seq_after(e0, n as int)].packet);
                assert(ready_at(start, seq_after(e0, n as int), now_ms, delay));
                assert forall|k: int| 0 <= k < out@.len() implies #[trigger] played_entry(start, e0, out@, k, now_ms, delay) by {
                    if k < n {
                        assert(out@[k] == prev[k]);
                        assert(played_entry(start, e0, prev, k, now_ms, delay));
                    }
                }
                let d0 = Set::new(|q: u128| exists|k: int| 0 <= k < n && q == seq_after(e0, k));
                let d1 = Set::new(|q: u128| exists|k: int| 0 <= k < n + 1 && q == seq_after(e0, k));
                assert(d1 =~= d0.insert(exp as u128)) by {
                    assert forall|q: u128| d1.contains(q) implies d0.insert(exp as u128).contains(q) by {
                        let k = choose|k: int| 0 <= k < n + 1 && q == seq_after(e0, k);
                        if k < n {
                            assert(d0.contains(q));
                        }
                    }
                }
                assert(self.held() =~= start.remove_keys(d1));
            }
            self.expected_sequence = exp.wrapping_add(1);

        }
        out
    }
}

impl JitterBuffer {
    /// Takes in a packet at `now_ms`: holds it, drops packets that have waited
    /// twice the target delay and the oldest beyond `max_size`, then plays out
    /// what is ready, in sequence. The first packet taken in sets the number
    /// that is played first.
    pub fn add_packet(&mut self, packet: RtpPacket, now_ms: u64) -> (r: Vec<RtpPacket>)
        requires
            old(self).wf(),
            old(self).target_delay_ms * 2 <= u64::MAX,
        ensures
            final(self).wf(),
            final(self).started,
            final(self).max_size == old(self).max_size,
            final(self).target_delay_ms == old(self).target_delay_ms,
            final(self).held().dom().len() <= final(self).max_size,
            exists|held: Map<u128, BufferedPacket>| {
                &&& #[trigger] evicted_oldest(
                    fresh_packets(
                        old(self).held().insert(packet.sequence_number as u128, BufferedPacket { packet, arrival_ms: now_ms }),
                        now_ms,
                        (old(self).target_delay_ms * 2) as nat,
                    ),
                    held,
                    old(self).max_size as nat,
                )
                &&& played_out(
                    held,
                    if old(self).started { old(self).expected_sequence } else { packet.sequence_number },
                    final(self).held(),
                    final(self).expected_sequence,
                    r@,
                    now_ms,
                    old(self).target_delay_ms,
                )
            },
    {
        if !self.started {
            self.expected_sequence = packet.sequence_number;
            self.started = true;
        }
        let ghost pv = packet;
        self.hold_packet(packet, now_ms);
        let ghost held = self.held();
        proof {
            let m = fresh_packets(
                old(self).held().insert(pv.sequence_number as u128, BufferedPacket { packet: pv, arrival_ms: now_ms }),
                now_ms,
                (old(self).target_delay_ms * 2) as nat,
            );
            self.packets.lemma_len_pub();
            if m.dom().len() > self.max_size {
            } else {
                assert(held == m);
            }
        }
        self.extract_ready_packets(now_ms)
    }
}

/// The digit an RFC 2833 event number stands for.
pub open spec fn dtmf_digit(event: u8) -> Option<char> {
    if event <= 9 { Some(crate::text::digit_char(event as nat)) }
    else if event == 10 { Some('*') } else if event == 11 { Some('#') } else if event == 12 { Some('A') }
    else if event == 13 { Some('B') } else if event == 14 { Some('C') } else if event == 15 { Some('D') }
    else { None }
}

/// The DTMF event an RFC 2833 packet (payload type 101, at least four octets)
/// carries: its digit and the duration in octets 2 and 3.
pub open spec fn dtmf_of(p: RtpPacket) -> Option<(char, u32)> {
    if p.payload_type == 101 && p.payload@.len() >= 4 {
        match dtmf_digit(p.payload@[0]) {
            Some(d) => Some((d, ((p.payload@[2] as int) * 256 + p.payload@[3] as int) as u32)),
            None => None,
        }
    } else {
        None
    }
}

/// Every RFC 2833 event of the keypad is detected: in a packet of payload
/// type 101 with at least four octets, events 0 to 15 give the keys
/// `0123456789*#ABCD` in that order, with the duration read big-endian from
/// octets 2 and 3; later events and other packets give nothing.
pub proof fn law_dtmf_detects_the_keypad(p: RtpPacket)
    ensures
        p.payload_type == 101 && p.payload@.len() >= 4 && p.payload@[0] <= 15 ==> dtmf_of(p) == Some(
            ("0123456789*#ABCD"@[p.payload@[0] as int], ((p.payload@[2] as int) * 256 + p.payload@[3] as int) as u32),
        ),
        !(p.payload_type == 101 && p.payload@.len() >= 4 && p.payload@[0] <= 15) ==> dtmf_of(p) is None,
{
    reveal_strlit("0123456789*#ABCD");
    if p.payload_type == 101 && p.payload@.len() >= 4 {
        let e = p.payload@[0];
        if e <= 15 {
            assert(e == 0 || e == 1 || e == 2 || e == 3 || e == 4 || e == 5 || e == 6 || e == 7 || e == 8 || e == 9
                || e == 10 || e == 11 || e == 12 || e == 13 || e == 14 || e == 15);
        }
    }
}

/// Two packets that carry different keypad events are told apart: their keys differ.
pub proof fn law_dtmf_keys_distinct(p: RtpPacket, q: RtpPacket)
    requires
        dtmf_of(p) is Some,
        dtmf_of(q) is Some,
        p.payload@[0] != q.payload@[0],
    ensures
        dtmf_of(p).unwrap().0 != dtmf_of(q).unwrap().0,
{
    law_dtmf_detects_the_keypad(p);
    law_dtmf_detects_the_keypad(q);
    reveal_strlit("0123456789*#ABCD");
}

/// The sum of the squares of the octets.
pub open spec fn energy(s: Seq<u8>) -> nat
    decreases s.len(),
{
    if s.len() == 0 { 0 } else { energy(s.drop_last()) + (s.last() as nat) * (s.last() as nat) }
}

/// Whether a payload is silence: under ten octets, or a mean energy under 100.
pub open spec fn silent(s: Seq<u8>) -> bool {
    s.len() < 10 || energy(s) / s.len() < 100
}

proof fn lemma_energy_prefix(s: Seq<u8>, k: int)
    requires
        0 <= k <= s.len(),
    ensures
        energy(s.subrange(0, k)) <= energy(s),
    decreases s.len() - k,
{
    if k < s.len() {
        lemma_energy_prefix(s, k + 1);
        assert(s.subrange(0, k + 1).drop_last() =~= s.subrange(0, k));
    } else {
        assert(s.subrange(0, k) =~= s);
    }
}

/// The largest octet of a payload, or zero for an empty one.
pub open spec fn max_octet(s: Seq<u8>) -> u8
    decreases s.len(),
{
    if s.len() == 0 { 0 } else { let m = max_octet(s.drop_last()); if s.last() > m { s.last() } else { m } }
}

/// An octet multiplied by a gain, capped at 255.
pub open spec fn gained(b: u8, gain: u8) -> u8 {
    if b * gain > 255 { 255 } else { (b * gain) as u8 }
}

proof fn lemma_energy_bounds(s: Seq<u8>, lo: nat, hi: nat)
    requires
        forall|i: int| 0 <= i < s.len() ==> lo <= #[trigger] s[i] <= hi,
    ensures
        lo * lo * s.len() <= energy(s) <= hi * hi * s.len(),
    decreases s.len(),
{
    if s.len() > 0 {
        let t = s.drop_last();
        assert forall|i: int| 0 <= i < t.len() implies lo <= #[trigger] t[i] <= hi by {
            assert(t[i] == s[i]);
        }
        lemma_energy_bounds(t, lo, hi);
        let b = s.last() as nat;
        assert(lo <= b <= hi);
        assert(lo * lo <= b * b <= hi * hi) by (nonlinear_arith)
            requires
                lo <= b <= hi,
        ;
        assert(lo * lo * s.len() == lo * lo * t.len() + lo * lo) by (nonlinear_arith)
            requires
                s.len() == t.len() + 1,
        ;
        assert(hi * hi * s.len() == hi * hi * t.len() + hi * hi) by (nonlinear_arith)
            requires
                s.len() == t.len() + 1,
        ;
    }
}

/// Quiet payloads are silence and loud ones are not: a payload whose octets
/// are all under ten is silent, and one of ten or more octets that are all
/// ten or more is not. Short payloads are always silent.
pub proof fn law_silence_follows_loudness(s: Seq<u8>)
    ensures
        s.len() < 10 ==> silent(s),
        (forall|i: int| 0 <= i < s.len() ==> #[trigger] s[i] < 10) ==> silent(s),
        s.len() >= 10 && (forall|i: int| 0 <= i < s.len() ==> #[trigger] s[i] >= 10) ==> !silent(s),
{
    if s.len() >= 10 {
        if forall|i: int| 0 <= i < s.len() ==> #[trigger] s[i] < 10 {
            lemma_energy_bounds(s, 0, 9);
            let e = energy(s);
            let n = s.len();
            assert(e / n < 100) by (nonlinear_arith)
                requires
                    e <= 9 * 9 * n,
                    n > 0,
            ;
        }
        if forall|i: int| 0 <= i < s.len() ==> #[trigger] s[i] >= 10 {
            lemma_energy_bounds(s, 10, 255);
            let e = energy(s);
            let n = s.len();
            assert(e / n >= 100) by (nonlinear_arith)
                requires
                    e >= 10 * 10 * n,
                    n > 0,
            ;
        }
    }
}

/// The largest octet is one of the payload's octets and no octet exceeds it;
/// an empty payload has zero.
pub proof fn law_max_octet_is_the_largest(s: Seq<u8>)
    ensures
        forall|i: int| 0 <= i < s.len() ==> #[trigger] s[i] <= max_octet(s),
        s.len() > 0 ==> exists|i: int| 0 <= i < s.len() && #[trigger] s[i] == max_octet(s),
        s.len() == 0 ==> max_octet(s) == 0,
    decreases s.len(),
{
    if s.len() > 0 {
        let t = s.drop_last();
        law_max_octet_is_the_largest(t);
        assert forall|i: int| 0 <= i < s.len() implies #[trigger] s[i] <= max_octet(s) by {
            if i < t.len() {
                assert(s[i] == t[i]);
            }
        }
        if s.last() > max_octet(t) {
            assert(s[s.len() - 1] == max_octet(s));
        } else if t.len() > 0 {
            let j = choose|j: int| 0 <= j < t.len() && #[trigger] t[j] == max_octet(t);
            assert(s[j] == max_octet(s));
        } else {
            assert(s[0] == max_octet(s));
        }
    }
}

/// The gain that automatic gain control applies never clips: with the
/// loudest octet `m` between 1 and 127 and the gain 128 divided by it, every
/// octet of the payload is multiplied exactly and comes out at most 128, and
/// the loudest comes out above 64.
pub proof fn law_agc_gain_never_clips(s: Seq<u8>)
    requires
        0 < max_octet(s) < 128,
    ensures
        ({
            let m = max_octet(s);
            let g = (128int / (m as int)) as u8;
            &&& forall|i: int| 0 <= i < s.len() ==> #[trigger] gained(s[i], g) as int == (s[i] as int) * (g as int)
                && gained(s[i], g) <= 128
            &&& gained(m, g) > 64
        }),
{
    law_max_octet_is_the_largest(s);
    let m = max_octet(s);
    let g: int = 128int / (m as int);
    assert(g * (m as int) <= 128 && g * (m as int) > 64 && 0 < g <= 128) by (nonlinear_arith)
        requires
            0 < m < 128,
            g == 128int / (m as int),
    ;
    assert forall|i: int| 0 <= i < s.len() implies #[trigger] gained(s[i], g as u8) as int == (s[i] as int) * g
        && gained(s[i], g as u8) <= 128 by {
        let b = s[i] as int;
        assert(b * g <= (m as int) * g) by (nonlinear_arith)
            requires
                b <= m,
                g >= 0,
        ;
    }
}

/// Media relay mode
#[derive(Clone, Copy, Debug, PartialEq, Eq, Structural)]
pub enum RelayMode {
    /// Direct relay without modification
    Transparent,
    /// Relay with codec transcoding
    Transcoding,
    /// Relay with media processing
    Processing,
    /// Record media for compliance or debugging
    Recording,
}

/// The direction a packet travels.
#[derive(Clone, Copy, Debug, PartialEq, Eq, Structural)]
pub enum RelayDirection {
    AToB,
    BToA,
}

/// Media relay statistics; latency in microseconds, loss in parts per million.
pub struct MediaRelayStats {
    pub packets_relayed_a_to_b: u64,
    pub packets_relayed_b_to_a: u64,
    pub bytes_relayed_a_to_b: u64,
    pub bytes_relayed_b_to_a: u64,
    pub packets_dropped: u64,
    pub transcoding_errors: u32,
    pub jitter_buffer_size: u32,
    pub average_latency_us: u64,
    pub packet_loss_ppm: u32,
    pub codec_a: CodecType,
    pub codec_b: CodecType,
}

impl MediaRelayStats {
    /// Statistics with every counter at zero.
    pub fn new(codec_a: CodecType, codec_b: CodecType) -> (r: Self)
        ensures
            r.packets_relayed_a_to_b == 0,
            r.packets_relayed_b_to_a == 0,
            r.bytes_relayed_a_to_b == 0,
            r.bytes_relayed_b_to_a == 0,
            r.packets_dropped == 0,
            r.transcoding_errors == 0,
            r.jitter_buffer_size == 0,
            r.average_latency_us == 0,
            r.packet_loss_ppm == 0,
            r.codec_a@ == codec_a@,
            r.codec_b@ == codec_b@,
    {
        MediaRelayStats {
            packets_relayed_a_to_b: 0,
            packets_relayed_b_to_a: 0,
            bytes_relayed_a_to_b: 0,
            bytes_relayed_b_to_a: 0,
            packets_dropped: 0,
            transcoding_errors: 0,
            jitter_buffer_size: 0,
            average_latency_us: 0,
            packet_loss_ppm: 0,
            codec_a,
            codec_b,
        }
    }

    /// Packets relayed both ways.
    pub fn total_packets(&self) -> (r: u64)
        requires
            self.packets_relayed_a_to_b + self.packets_relayed_b_to_a <= u64::MAX,
        ensures
            r == self.packets_relayed_a_to_b + self.packets_relayed_b_to_a,
    {
        self.packets_relayed_a_to_b + self.packets_relayed_b_to_a
    }

    /// Bytes relayed both ways.
    pub fn total_bytes(&self) -> (r: u64)
        requires
            self.bytes_relayed_a_to_b + self.bytes_relayed_b_to_a <= u64::MAX,
        ensures
            r == self.bytes_relayed_a_to_b + self.bytes_relayed_b_to_a,
    {
        self.bytes_relayed_a_to_b + self.bytes_relayed_b_to_a
    }
}

/// One leg's media endpoint.
pub struct MediaEndpoint {
    pub rtp_port: u16,
    pub rtcp_port: u16,
    pub remote_address: Option<String>,
    pub codec: CodecType,
    pub ssrc: u32,
    pub payload_type: u8,
    pub last_packet_ms: Option<u64>,
}

/// A relay between the RTP sessions of a call's two legs.
pub struct MediaRelaySession {
    pub id: String,
    pub call_id: String,
    pub leg_a_session_id: String,
    pub leg_b_session_id: String,
    pub leg_a_endpoint: MediaEndpoint,
    pub leg_b_endpoint: MediaEndpoint,
    pub relay_mode: RelayMode,
    pub transcoding_session_id: Option<String>,
    pub created_ms: u64,
    pub last_activity_ms: u64,
    pub stats: MediaRelayStats,
}

impl Active for MediaRelaySession {
    open spec fn activity(&self) -> u64 {
        self.last_activity_ms
    }

    fn activity_ms(&self) -> (r: u64) {
        self.last_activity_ms
    }
}

impl Keyed for MediaRelaySession {
    open spec fn key(&self) -> Seq<char> {
        self.id@
    }

    fn key_text(&self) -> (r: &String) {
        &self.id
    }
}

/// Media processing configuration
pub struct MediaProcessingConfig {
    pub enable_echo_cancellation: bool,
    pub enable_noise_reduction: bool,
    pub enable_automatic_gain_control: bool,
    pub enable_dtmf_detection: bool,
    pub enable_silence_detection: bool,
    pub jitter_buffer_size: u32,
    pub packet_loss_concealment: bool,
}

impl Default for MediaProcessingConfig {
    /// DTMF and silence detection and loss concealment on, a 50-packet jitter buffer.
    fn default() -> (r: Self)
        ensures
            !r.enable_echo_cancellation,
            !r.enable_noise_reduction,
            !r.enable_automatic_gain_control,
            r.enable_dtmf_detection,
            r.enable_silence_detection,
            r.jitter_buffer_size == 50,
            r.packet_loss_concealment,
    {
        MediaProcessingConfig {
            enable_echo_cancellation: false,
            enable_noise_reduction: false,
            enable_automatic_gain_control: false,
            enable_dtmf_detection: true,
            enable_silence_detection: true,
            jitter_buffer_size: 50,
            packet_loss_concealment: true,
        }
    }
}

/// The relay mode of a call: transcoding when the legs' codecs differ.
pub fn relay_mode_for(codec_a: &CodecType, codec_b: &CodecType) -> (r: RelayMode)
    ensures
        r == if codec_a@ != codec_b@ { RelayMode::Transcoding } else { RelayMode::Transparent },
{
    if !codec_a.same_as(codec_b) { RelayMode::Transcoding } else { RelayMode::Transparent }
}

/// What processing did to a packet: the packet, a DTMF event seen in it and
/// whether it was silence.
pub struct ProcessedPacket {
    pub packet: RtpPacket,
    pub dtmf: Option<(char, u32)>,
    pub silence: bool,
}

/// Media processing of a packet as configured: DTMF and silence detection,
/// then noise reduction and gain control.
pub fn apply_media_processing(packet: RtpPacket, config: &MediaProcessingConfig) -> (r: ProcessedPacket)
    requires
        config.enable_silence_detection ==> packet.payload@.len() < 10 || energy(packet.payload@) <= u32::MAX,
        config.enable_silence_detection ==> packet.payload@.len() <= u32::MAX,
    ensures
        r.dtmf == if config.enable_dtmf_detection { dtmf_of(packet) } else { None },
        r.silence == (config.enable_silence_detection && silent(packet.payload@)),
        r.packet.sequence_number == packet.sequence_number,
        r.packet.timestamp == packet.timestamp,
        r.packet.ssrc == packet.ssrc,
        r.packet.payload_type == packet.payload_type,
        !config.enable_noise_reduction && !config.enable_automatic_gain_control ==> r.packet.payload@ == packet.payload@,
{
    let dtmf = if config.enable_dtmf_detection { MediaRelayService::detect_dtmf(&packet) } else { None };
    let silence = if config.enable_silence_detection { MediaRelayService::is_silence(&packet) } else { false };
    let mut p = packet;
    if config.enable_noise_reduction {
        p = MediaRelayService::apply_noise_reduction(p);
    }
    if config.enable_automatic_gain_control {
        p = MediaRelayService::apply_agc(p);
    }
    ProcessedPacket { packet: p, dtmf, silence }
}

/// The name of the jitter buffer of a relay's direction.
pub open spec fn buffer_name(session_id: Seq<char>, d: RelayDirection) -> Seq<char> {
    session_id + match d {
        RelayDirection::AToB => "_AToB"@,
        RelayDirection::BToA => "_BToA"@,
    }
}

fn buffer_name_text(session_id: &str, d: RelayDirection) -> (r: String)
    ensures
        r@ == buffer_name(session_id@, d),
{
    match d {
        RelayDirection::AToB => join2(session_id, "_AToB"),
        RelayDirection::BToA => join2(session_id, "_BToA"),
    }
}

/// The direction of a relay that an RTP session's packets travel: A to B
/// from leg A, B to A from leg B.
pub open spec fn relay_dir(s: MediaRelaySession, rtp: Seq<char>) -> Option<RelayDirection> {
    if s.leg_a_session_id@ == rtp {
        Some(RelayDirection::AToB)
    } else if s.leg_b_session_id@ == rtp {
        Some(RelayDirection::BToA)
    } else {
        None
    }
}

/// Whether some relay of `m` has the RTP session as one of its legs.
pub open spec fn any_relay(m: Map<Seq<char>, MediaRelaySession>, rtp: Seq<char>) -> bool {
    exists|k: Seq<char>| #[trigger] m.dom().contains(k) && relay_dir(m[k], rtp) is Some
}

/// Whether `b` is a copy of the endpoint `a`, the codec by its view.
pub open spec fn endpoint_copy(a: MediaEndpoint, b: MediaEndpoint) -> bool {
    &&& b.rtp_port == a.rtp_port
    &&& b.rtcp_port == a.rtcp_port
    &&& b.remote_address == a.remote_address
    &&& b.codec@ == a.codec@
    &&& b.ssrc == a.ssrc
    &&& b.payload_type == a.payload_type
    &&& b.last_packet_ms == a.last_packet_ms
}

/// Whether `b` is a copy of the relay `a`: equal in every field, the codecs
/// by their views.
pub open spec fn relay_copy(a: MediaRelaySession, b: MediaRelaySession) -> bool {
    &&& b.id == a.id
    &&& b.call_id == a.call_id
    &&& b.leg_a_session_id == a.leg_a_session_id
    &&& b.leg_b_session_id == a.leg_b_session_id
    &&& endpoint_copy(a.leg_a_endpoint, b.leg_a_endpoint)
    &&& endpoint_copy(a.leg_b_endpoint, b.leg_b_endpoint)
    &&& b.relay_mode == a.relay_mode
    &&& b.transcoding_session_id == a.transcoding_session_id
    &&& b.created_ms == a.created_ms
    &&& b.last_activity_ms == a.last_activity_ms
    &&& b.stats.packets_relayed_a_to_b == a.stats.packets_relayed_a_to_b
    &&& b.stats.packets_relayed_b_to_a == a.stats.packets_relayed_b_to_a
    &&& b.stats.bytes_relayed_a_to_b == a.stats.bytes_relayed_a_to_b
    &&& b.stats.bytes_relayed_b_to_a == a.stats.bytes_relayed_b_to_a
    &&& b.stats.packets_dropped == a.stats.packets_dropped
    &&& b.stats.transcoding_errors == a.stats.transcoding_errors
    &&& b.stats.jitter_buffer_size == a.stats.jitter_buffer_size
    &&& b.stats.average_latency_us == a.stats.average_latency_us
    &&& b.stats.packet_loss_ppm == a.stats.packet_loss_ppm
    &&& b.stats.codec_a@ == a.stats.codec_a@
    &&& b.stats.codec_b@ == a.stats.codec_b@
}

impl MediaEndpoint {
    /// A copy of the endpoint.
    pub fn duplicate(&self) -> (r: Self)
        ensures
            endpoint_copy(*self, r),
    {
        MediaEndpoint {
            rtp_port: self.rtp_port,
            rtcp_port: self.rtcp_port,
            remote_address: copy_opt(&self.remote_address),
            codec: self.codec.duplicate(),
            ssrc: self.ssrc,
            payload_type: self.payload_type,
            last_packet_ms: self.last_packet_ms,
        }
    }
}

impl MediaRelaySession {
    /// A copy of the relay.
    pub fn duplicate(&self) -> (r: Self)
        ensures
            relay_copy(*self, r),
    {
        let st = &self.stats;
        MediaRelaySession {
            id: self.id.clone(),
            call_id: self.call_id.clone(),
            leg_a_session_id: self.leg_a_session_id.clone(),
            leg_b_session_id: self.leg_b_session_id.clone(),
            leg_a_endpoint: self.leg_a_endpoint.duplicate(),
            leg_b_endpoint: self.leg_b_endpoint.duplicate(),
            relay_mode: self.relay_mode,
            transcoding_session_id: copy_opt(&self.transcoding_session_id),
            created_ms: self.created_ms,
            last_activity_ms: self.last_activity_ms,
            stats: MediaRelayStats {
                packets_relayed_a_to_b: st.packets_relayed_a_to_b,
                packets_relayed_b_to_a: st.packets_relayed_b_to_a,
                bytes_relayed_a_to_b: st.bytes_relayed_a_to_b,
                bytes_relayed_b_to_a: st.bytes_relayed_b_to_a,
                packets_dropped: st.packets_dropped,
                transcoding_errors: st.transcoding_errors,
                jitter_buffer_size: st.jitter_buffer_size,
                average_latency_us: st.average_latency_us,
                packet_loss_ppm: st.packet_loss_ppm,
                codec_a: st.codec_a.duplicate(),
                codec_b: st.codec_b.duplicate(),
            },
        }
    }
}

/// A concurrent map of relay sessions by id.
pub type RelaySessionMap = dashmap::DashMap<String, MediaRelaySession>;

/// The relays that a `DashMap` holds, by id.
pub uninterp spec fn dash_relay_sessions(m: RelaySessionMap) -> Map<Seq<char>, MediaRelaySession>;

/// `DashMap::new`: a map that holds nothing.
#[verifier::external_body]
fn relay_sessions_new() -> (r: RelaySessionMap)
    ensures
        dash_relay_sessions(r).dom().len() == 0,
        dash_relay_sessions(r).dom().finite(),
{
    dashmap::DashMap::new()
}

/// `DashMap::insert`: the map holds `v` under `id` afterwards, in place of
/// any relay it held there.
#[verifier::external_body]
fn relay_sessions_insert(m: &mut RelaySessionMap, id: String, v: MediaRelaySession)
    ensures
        dash_relay_sessions(*final(m)) == dash_relay_sessions(*old(m)).insert(id@, v),
{
    m.insert(id, v);
}

/// `DashMap::remove`: the map no longer holds `id`, and the relay it held
/// there, if any, is handed back (without its key).
#[verifier::external_body]
fn relay_sessions_remove(m: &mut RelaySessionMap, id: &str) -> (r: Option<MediaRelaySession>)
    ensures
        dash_relay_sessions(*final(m)) == dash_relay_sessions(*old(m)).remove(id@),
        r is Some <==> dash_relay_sessions(*old(m)).dom().contains(id@),
        r matches Some(v) ==> v == dash_relay_sessions(*old(m))[id@],
{
    match m.remove(id) {
        Some((_, v)) => Some(v),
        None => None,
    }
}

/// `DashMap::get`: a copy of the relay the map holds under `id`, if any.
#[verifier::external_body]
fn relay_sessions_get(m: &RelaySessionMap, id: &str) -> (r: Option<MediaRelaySession>)
    ensures
        r is Some <==> dash_relay_sessions(*m).dom().contains(id@),
        r matches Some(v) ==> relay_copy(dash_relay_sessions(*m)[id@], v),
{
    m.get(id).map(|e| e.value().duplicate())
}

/// `DashMap::iter`: the key of each entry once, in the order the map walks
/// them.
#[verifier::external_body]
fn relay_sessions_keys(m: &RelaySessionMap) -> (r: Vec<String>)
    ensures
        forall|i: int| 0 <= i < r@.len() ==> dash_relay_sessions(*m).dom().contains(#[trigger] r@[i]@),
        forall|k: Seq<char>| #[trigger] dash_relay_sessions(*m).dom().contains(k) ==> exists|i: int| 0 <= i < r@.len() && r@[i]@ == k,
        forall|i: int, j: int| 0 <= i < j < r@.len() ==> (#[trigger] r@[i])@ != (#[trigger] r@[j])@,
{
    m.iter().map(|e| copy_key(e.key())).collect()
}

/// `DashMap::iter`: a copy of the value of each entry once, in the order the
/// map walks them.
#[verifier::external_body]
fn relay_sessions_values(m: &RelaySessionMap) -> (r: Vec<MediaRelaySession>)
    ensures
        r@.len() == dash_relay_sessions(*m).dom().len(),
        forall|i: int| 0 <= i < r@.len() ==> exists|k: Seq<char>| #[trigger] dash_relay_sessions(*m).dom().contains(k)
            && relay_copy(dash_relay_sessions(*m)[k], #[trigger] r@[i]),
        forall|k: Seq<char>| #[trigger] dash_relay_sessions(*m).dom().contains(k) ==> exists|i: int| 0 <= i < r@.len()
            && relay_copy(dash_relay_sessions(*m)[k], r@[i]),
{
    m.iter().map(|e| e.value().duplicate()).collect()
}

/// A concurrent map of jitter buffers by name.
pub type BufferMap = dashmap::DashMap<String, JitterBuffer>;

/// The jitter buffers that a `DashMap` holds, by name.
pub uninterp spec fn dash_buffers(m: BufferMap) -> Map<Seq<char>, JitterBuffer>;

/// `DashMap::new`: a map that holds nothing.
#[verifier::external_body]
fn buffers_new() -> (r: BufferMap)
    ensures
        dash_buffers(r).dom().len() == 0,
        dash_buffers(r).dom().finite(),
{
    dashmap::DashMap::new()
}

/// `DashMap::insert`: the map holds `b` under `name` afterwards, in place of
/// any buffer it held there.
#[verifier::external_body]
fn buffers_insert(m: &mut BufferMap, name: String, b: JitterBuffer)
    ensures
        dash_buffers(*final(m)) == dash_buffers(*old(m)).insert(name@, b),
{
    m.insert(name, b);
}

/// `DashMap::remove`: the map no longer holds `name`, and the buffer it held
/// there, if any, is handed back (without its key).
#[verifier::external_body]
fn buffers_remove(m: &mut BufferMap, name: &str) -> (r: Option<JitterBuffer>)
    ensures
        dash_buffers(*final(m)) == dash_buffers(*old(m)).remove(name@),
        r is Some <==> dash_buffers(*old(m)).dom().contains(name@),
        r matches Some(b) ==> b == dash_buffers(*old(m))[name@],
{
    match m.remove(name) {
        Some((_, b)) => Some(b),
        None => None,
    }
}

/// The relay sessions and the jitter buffers of their directions.
pub struct MediaRelayService {
    pub relay_sessions: RelaySessionMap,
    pub jitter_buffers: BufferMap,
    pub processing_config: MediaProcessingConfig,
    pub is_running: bool,
}

impl MediaRelayService {
    /// Detects an RFC 2833 DTMF event in a packet.
    pub fn detect_dtmf(packet: &RtpPacket) -> (r: Option<(char, u32)>)
        ensures
            r == dtmf_of(*packet),
    {
        if packet.payload_type == 101 && packet.payload.len() >= 4 {
            let event = packet.payload[0];
            let duration: u32 = (packet.payload[2] as u32) * 256 + packet.payload[3] as u32;
            let digit: Option<char> = if event <= 9 {
                let c = (48 + event) as char;
                proof {
                    assert(c == crate::text::digit_char(event as nat)) by {
                        assert(event == 0 || event == 1 || event == 2 || event == 3 || event == 4 || event == 5 || event == 6
                            || event == 7 || event == 8 || event == 9);
                    }
                }
                Some(c)
            } else if event == 10 { Some('*') } else if event == 11 { Some('#') } else if event == 12 { Some('A') }
            else if event == 13 { Some('B') } else if event == 14 { Some('C') } else if event == 15 { Some('D') }
            else { None };
            match digit {
                Some(d) => Some((d, duration)),
                None => None,
            }
        } else {
            None
        }
    }

    /// Whether a packet is silence. The energy is summed in 32 bits, as the
    /// detector always has, so it must fit there.
    pub fn is_silence(packet: &RtpPacket) -> (r: bool)
        requires
            packet.payload@.len() < 10 || energy(packet.payload@) <= u32::MAX,
            packet.payload@.len() <= u32::MAX,
        ensures
            r == silent(packet.payload@),
    {
        let n = packet.payload.len();
        if n < 10 {
            return true;
        }
        let ghost s = packet.payload@;
        let mut e: u32 = 0;
        let mut i: usize = 0;
        while i < n
            invariant
                s == packet.payload@,
                n == s.len(),
                energy(s) <= u32::MAX,
                i <= n,
                e == energy(s.subrange(0, i as int)),
            decreases n - i,
        {
            proof {
                assert(s.subrange(0, i as int + 1).drop_last() =~= s.subrange(0, i as int));
                lemma_energy_prefix(s, i as int + 1);
            }
            let b = packet.payload[i] as u32;
            e = e + b * b;
            i = i + 1;
        }
        proof {
            assert(s.subrange(0, n as int) =~= s);
        }
        e / (n as u32) < 100
    }

    /// Noise reduction: octets under ten become zero.
    pub fn apply_noise_reduction(packet: RtpPacket) -> (r: RtpPacket)
        ensures
            r.payload@ == packet.payload@.map_values(|b: u8| if b < 10 { 0u8 } else { b }),
            r.sequence_number == packet.sequence_number,
            r.timestamp == packet.timestamp,
            r.ssrc == packet.ssrc,
            r.payload_type == packet.payload_type,
    {
        let mut p = packet;
        let mut out: Vec<u8> = Vec::new();
        let mut i: usize = 0;
        while i < p.payload.len()
            invariant
                p.payload@ == packet.payload@,
                i <= p.payload@.len(),
                out@ == p.payload@.subrange(0, i as int).map_values(|b: u8| if b < 10 { 0u8 } else { b }),
            decreases p.payload@.len() - i,
        {
            let b = p.payload[i];
            out.push(if b < 10 { 0 } else { b });
            i = i + 1;
            proof {
                assert(out@ =~= p.payload@.subrange(0, i as int).map_values(|b: u8| if b < 10 { 0u8 } else { b }));
            }
        }
        proof {
            assert(p.payload@.subrange(0, p.payload@.len() as int) =~= p.payload@);
        }
        p.payload = out;
        p
    }

    /// Automatic gain control: when the loudest octet is between 1 and 127, all
    /// octets are multiplied by 128 divided by it (capped at 255).
    pub fn apply_agc(packet: RtpPacket) -> (r: RtpPacket)
        ensures
            ({
                let m = max_octet(packet.payload@);
                if 0 < m && m < 128 {
                    r.payload@ == packet.payload@.map_values(|b: u8| gained(b, (128int / (m as int)) as u8))
                } else {
                    r.payload@ == packet.payload@
                }
            }),
            r.sequence_number == packet.sequence_number,
            r.timestamp == packet.timestamp,
            r.ssrc == packet.ssrc,
            r.payload_type == packet.payload_type,
    {
        let mut p = packet;
        let mut m: u8 = 0;
        let mut i: usize = 0;
        while i < p.payload.len()
            invariant
                p.payload@ == packet.payload@,
                i <= p.payload@.len(),
                m == max_octet(p.payload@.subrange(0, i as int)),
            decreases p.payload@.len() - i,
        {
            proof {
                assert(p.payload@.subrange(0, i as int + 1).drop_last() =~= p.payload@.subrange(0, i as int));
            }
            if p.payload[i] > m {
                m = p.payload[i];
            }
            i = i + 1;
        }
        proof {
            assert(p.payload@.subrange(0, p.payload@.len() as int) =~= p.payload@);
        }
        if m > 0 && m < 128 {
            let gain: u8 = 128 / m;
            let mut out: Vec<u8> = Vec::new();
            let mut k: usize = 0;
            while k < p.payload.len()
                invariant
                    p.payload@ == packet.payload@,
                    k <= p.payload@.len(),
                    out@ == p.payload@.subrange(0, k as int).map_values(|b: u8| gained(b, gain)),
                decreases p.payload@.len() - k,
            {
                let x: u32 = p.payload[k] as u32;
                let g: u32 = gain as u32;
                assert(x * g <= 255 * 255) by (nonlinear_arith)
                    requires
                        x <= 255,
                        g <= 255,
                ;
                let v: u32 = x * g;
                out.push(if v > 255 { 255 } else { v as u8 });
                k = k + 1;
                proof {
                    assert(out@ =~= p.payload@.subrange(0, k as int).map_values(|b: u8| gained(b, gain)));
                }
            }
            proof {
                assert(p.payload@.subrange(0, p.payload@.len() as int) =~= p.payload@);
            }
            p.payload = out;
        }
        p
    }

    /// The relays by id.
    pub open spec fn sessions(&self) -> Map<Seq<char>, MediaRelaySession> {
        dash_relay_sessions(self.relay_sessions)
    }

    /// The jitter buffers by name.
    pub open spec fn buffers(&self) -> Map<Seq<char>, JitterBuffer> {
        dash_buffers(self.jitter_buffers)
    }

    /// Each relay is kept under its own id; every buffer is well formed with
    /// a target delay that can be doubled.
    pub open spec fn wf(&self) -> bool {
        &&& forall|k: Seq<char>| #[trigger] self.sessions().dom().contains(k) ==> self.sessions()[k].id@ == k
        &&& forall|k: Seq<char>| #[trigger] self.buffers().dom().contains(k) ==> self.buffers()[k].wf()
            && self.buffers()[k].target_delay_ms == 20
    }

    /// A stopped service with no relays.
    pub fn new(processing_config: MediaProcessingConfig) -> (r: Self)
        ensures
            r.wf(),
            r.sessions() == Map::<Seq<char>, MediaRelaySession>::empty(),
            r.buffers() == Map::<Seq<char>, JitterBuffer>::empty(),
            r.processing_config == processing_config,
            !r.is_running,
    {
        MediaRelayService {
            relay_sessions: relay_sessions_new(),
            jitter_buffers: buffers_new(),
            processing_config,
            is_running: false,
        }
    }

    /// Creates the relay of a call under a fresh id: transcoding, with a
    /// transcoding session at 8 kHz both ways, when the codecs differ, and
    /// transparent otherwise.
    pub fn create_relay_session(
        &mut self,
        call_id: &str,
        leg_a_session_id: &str,
        leg_b_session_id: &str,
        leg_a_codec: CodecType,
        leg_b_codec: CodecType,
        transcoding: &mut TranscodingSessions,
        now_ms: u64,
    ) -> (r: GatewayResult<String>)
        requires
            old(self).wf(),
        ensures
            final(self).wf(),
            final(self).jitter_buffers == old(self).jitter_buffers,
            r matches Ok(id) && {
                let s = final(self).sessions()[id@];
                &&& final(self).sessions() == old(self).sessions().insert(id@, s)
                &&& s.call_id@ == call_id@
                &&& s.leg_a_session_id@ == leg_a_session_id@
                &&& s.leg_b_session_id@ == leg_b_session_id@
                &&& s.leg_a_endpoint.codec@ == leg_a_codec@
                &&& s.leg_b_endpoint.codec@ == leg_b_codec@
                &&& s.relay_mode == (if leg_a_codec@ != leg_b_codec@ { RelayMode::Transcoding } else { RelayMode::Transparent })
                &&& (s.relay_mode == RelayMode::Transcoding <==> s.transcoding_session_id is Some)
                &&& (s.transcoding_session_id matches Some(t) ==> final(transcoding).view().dom()
                    == old(transcoding).view().dom().insert(t@))
                &&& (s.transcoding_session_id is None ==> final(transcoding).sessions == old(transcoding).sessions)
                &&& s.stats.packets_relayed_a_to_b == 0 && s.stats.packets_relayed_b_to_a == 0
                &&& s.created_ms == now_ms
            },
    {
        let id = uuid_text(new_test_id());
        let mode = relay_mode_for(&leg_a_codec, &leg_b_codec);
        let transcoding_session_id = if mode == RelayMode::Transcoding {
            let tid = uuid_text(new_test_id());
            let ghost tv = tid@;
            transcoding.create_transcoding_session(tid.clone(), call_id, leg_a_codec.duplicate(), leg_b_codec.duplicate(), 8000,
                8000, TranscodingBackend::Auto, now_ms);
            Some(tid)
        } else {
            None
        };
        let endpoint_a = MediaEndpoint {
            rtp_port: 0,
            rtcp_port: 0,
            remote_address: None,
            codec: leg_a_codec.duplicate(),
            ssrc: 0,
            payload_type: 0,
            last_packet_ms: None,
        };
        let endpoint_b = MediaEndpoint {
            rtp_port: 0,
            rtcp_port: 0,
            remote_address: None,
            codec: leg_b_codec.duplicate(),
            ssrc: 0,
            payload_type: 0,
            last_packet_ms: None,
        };
        let session = MediaRelaySession {
            id: id.clone(),
            call_id: text(call_id),
            leg_a_session_id: text(leg_a_session_id),
            leg_b_session_id: text(leg_b_session_id),
            leg_a_endpoint: endpoint_a,
            leg_b_endpoint: endpoint_b,
            relay_mode: mode,
            transcoding_session_id,
            created_ms: now_ms,
            last_activity_ms: now_ms,
            stats: MediaRelayStats::new(leg_a_codec, leg_b_codec),
        };
        let ghost sv = session;
        relay_sessions_insert(&mut self.relay_sessions, copy_key(&id), session);
        proof {
            assert(sv.id@ == id@);
            assert forall|k: Seq<char>| #[trigger] self.sessions().dom().contains(k) implies self.sessions()[k].id@ == k by {
                if k != id@ {
                    assert(old(self).sessions().dom().contains(k));
                }
            }
            assert forall|k: Seq<char>| #[trigger] self.buffers().dom().contains(k) implies self.buffers()[k].wf()
                && self.buffers()[k].target_delay_ms == 20 by {
                assert(old(self).buffers().dom().contains(k));
            }
        }
        Ok(id)
    }

    /// Ends a relay: its transcoding session and jitter buffers go with it.
    /// Ending a relay that does not exist does nothing.
    pub fn destroy_relay_session(&mut self, session_id: &str, transcoding: &mut TranscodingSessions) -> (r: GatewayResult<()>)
        requires
            old(self).wf(),
        ensures
            r is Ok,
            final(self).wf(),
            final(self).sessions() == old(self).sessions().remove(session_id@),
            old(self).sessions().dom().contains(session_id@) ==> final(self).buffers()
                == old(self).buffers().remove(buffer_name(session_id@, RelayDirection::AToB)).remove(
                buffer_name(session_id@, RelayDirection::BToA)),
            !old(self).sessions().dom().contains(session_id@) ==> final(self).jitter_buffers == old(self).jitter_buffers
                && final(transcoding).sessions == old(transcoding).sessions,
            old(self).sessions().dom().contains(session_id@) ==> match old(self).sessions()[session_id@].transcoding_session_id {
                Some(t) => final(transcoding).view() == old(transcoding).view().remove(t@),
                None => final(transcoding).sessions == old(transcoding).sessions,
            },
    {
        match relay_sessions_remove(&mut self.relay_sessions, session_id) {
            Some(session) => {
                match &session.transcoding_session_id {
                    Some(t) => {
                        transcoding.destroy_transcoding_session(t.as_str());
                    },
                    None => {},
                }
                let a = buffer_name_text(session_id, RelayDirection::AToB);
                let b = buffer_name_text(session_id, RelayDirection::BToA);
                let _ = buffers_remove(&mut self.jitter_buffers, a.as_str());
                let _ = buffers_remove(&mut self.jitter_buffers, b.as_str());
                proof {
                    assert forall|k: Seq<char>| #[trigger] self.buffers().dom().contains(k) implies self.buffers()[k].wf()
                        && self.buffers()[k].target_delay_ms == 20 by {
                        assert(old(self).buffers().dom().contains(k));
                    }
                    assert forall|k: Seq<char>| #[trigger] self.sessions().dom().contains(k) implies self.sessions()[k].id@ == k by {
                        assert(old(self).sessions().dom().contains(k));
                    }
                }
                Ok(())
            },
            None => {
                proof {
                    assert(self.sessions() =~= old(self).sessions().remove(session_id@));
                    assert forall|k: Seq<char>| #[trigger] self.sessions().dom().contains(k) implies self.sessions()[k].id@ == k by {
                        assert(old(self).sessions().dom().contains(k));
                    }
                    assert forall|k: Seq<char>| #[trigger] self.buffers().dom().contains(k) implies self.buffers()[k].wf()
                        && self.buffers()[k].target_delay_ms == 20 by {
                        assert(old(self).buffers().dom().contains(k));
                    }
                }
                Ok(())
            },
        }
    }

    /// A copy of the relay with an id.
    pub fn get_relay_session(&self, session_id: &str) -> (r: Option<MediaRelaySession>)
        ensures
            r is Some <==> self.sessions().dom().contains(session_id@),
            r matches Some(x) ==> relay_copy(self.sessions()[session_id@], x),
    {
        relay_sessions_get(&self.relay_sessions, session_id)
    }

    /// Copies of all relays, each once, in the order the map walks them.
    pub fn get_active_sessions(&self) -> (r: Vec<MediaRelaySession>)
        requires
            self.wf(),
        ensures
            r@.len() == self.sessions().dom().len(),
            forall|i: int| 0 <= i < r@.len() ==> self.sessions().dom().contains((#[trigger] r@[i]).id@)
                && relay_copy(self.sessions()[r@[i].id@], r@[i]),
            forall|k: Seq<char>| #[trigger] self.sessions().dom().contains(k) ==> exists|i: int| 0 <= i < r@.len() && r@[i].id@ == k,
    {
        let r = relay_sessions_values(&self.relay_sessions);
        proof {
            assert forall|i: int| 0 <= i < r@.len() implies self.sessions().dom().contains((#[trigger] r@[i]).id@)
                && relay_copy(self.sessions()[r@[i].id@], r@[i]) by {
                let k = choose|k: Seq<char>| #[trigger] self.sessions().dom().contains(k) && relay_copy(self.sessions()[k], r@[i]);
            }
            assert forall|k: Seq<char>| #[trigger] self.sessions().dom().contains(k) implies exists|i: int| 0 <= i < r@.len()
                && r@[i].id@ == k by {
                let i = choose|i: int| 0 <= i < r@.len() && relay_copy(self.sessions()[k], r@[i]);
            }
        }
        r
    }

    /// A relay that an RTP session belongs to, found by walking the relays,
    /// and the direction its packets travel.
    pub fn find_relay(&self, rtp_session_id: &str) -> (r: Option<(String, RelayDirection)>)
        ensures
            r is None <==> !any_relay(self.sessions(), rtp_session_id@),
            r matches Some((id, d)) ==> self.sessions().dom().contains(id@) && relay_dir(self.sessions()[id@], rtp_session_id@)
                == Some(d),
    {
        let ids = relay_sessions_keys(&self.relay_sessions);
        let mut i: usize = 0;
        while i < ids.len()
            invariant
                i <= ids@.len(),
                forall|x: int| 0 <= x < ids@.len() ==> self.sessions().dom().contains(#[trigger] ids@[x]@),
                forall|k: Seq<char>| #[trigger] self.sessions().dom().contains(k) ==> exists|x: int| 0 <= x < ids@.len() && ids@[x]@ == k,
                forall|x: int| 0 <= x < i ==> relay_dir(self.sessions()[(#[trigger] ids@[x])@], rtp_session_id@) is None,
            decreases ids@.len() - i,
        {
            let s = match relay_sessions_get(&self.relay_sessions, ids[i].as_str()) {
                Some(s) => s,
                None => {
                    assert(false);
                    return None;
                },
            };
            if str_eq(s.leg_a_session_id.as_str(), rtp_session_id) {
                return Some((copy_key(&ids[i]), RelayDirection::AToB));
            } else if str_eq(s.leg_b_session_id.as_str(), rtp_session_id) {
                return Some((copy_key(&ids[i]), RelayDirection::BToA));
            }
            i = i + 1;
        }
        proof {
            assert forall|k: Seq<char>| #[trigger] self.sessions().dom().contains(k) implies relay_dir(self.sessions()[k],
                rtp_session_id@) is None by {
                let x = choose|x: int| 0 <= x < ids@.len() && ids@[x]@ == k;
            }
        }
        None
    }
}

/// What became of a packet that belongs to a relay.
pub struct RelayOutcome {
    pub session_id: String,
    pub direction: RelayDirection,
    pub dtmf: Option<(char, u32)>,
    pub silence: bool,
    pub forwarded: Vec<RtpPacket>,
}

/// A counter raised by `n`, capped at its largest value.
pub open spec fn raised(c: u64, n: nat) -> u64 {
    if c + n > u64::MAX { u64::MAX } else { (c + n) as u64 }
}

impl MediaRelayService {
    /// Relays one packet of a relay in a direction: transcoded when the relay
    /// transcodes, counted in the direction's statistics, and returned to be
    /// sent to the other leg.
    fn relay_packet(&mut self, session_id: &String, direction: RelayDirection, packet: RtpPacket, transcoding: &mut TranscodingSessions, now_ms: u64) -> (r: RtpPacket)
        requires
            old(self).wf(),
            old(self).sessions().dom().contains(session_id@),
        ensures
            final(self).wf(),
            final(self).jitter_buffers == old(self).jitter_buffers,
            final(self).processing_config == old(self).processing_config,
            final(self).sessions().dom() == old(self).sessions().dom(),
            r.payload@ == packet.payload@,
            r.sequence_number == packet.sequence_number,
            ({
                let o = old(self).sessions()[session_id@];
                let n = final(self).sessions()[session_id@];
                &&& n.last_activity_ms == now_ms
                &&& n.relay_mode == o.relay_mode
                &&& n.leg_a_session_id == o.leg_a_session_id
                &&& n.leg_b_session_id == o.leg_b_session_id
                &&& n.transcoding_session_id == o.transcoding_session_id
                &&& direction == RelayDirection::AToB ==> n.stats.packets_relayed_a_to_b == raised(o.stats.packets_relayed_a_to_b, 1)
                    && n.stats.bytes_relayed_a_to_b == raised(o.stats.bytes_relayed_a_to_b, packet.payload@.len())
                    && n.stats.packets_relayed_b_to_a == o.stats.packets_relayed_b_to_a
                    && n.stats.bytes_relayed_b_to_a == o.stats.bytes_relayed_b_to_a
                &&& direction == RelayDirection::BToA ==> n.stats.packets_relayed_b_to_a == raised(o.stats.packets_relayed_b_to_a, 1)
                    && n.stats.bytes_relayed_b_to_a == raised(o.stats.bytes_relayed_b_to_a, packet.payload@.len())
                    && n.stats.packets_relayed_a_to_b == o.stats.packets_relayed_a_to_b
                    && n.stats.bytes_relayed_a_to_b == o.stats.bytes_relayed_a_to_b
            }),
            forall|k: Seq<char>| k != session_id@ && #[trigger] old(self).sessions().dom().contains(k)
                ==> final(self).sessions()[k] == old(self).sessions()[k],
    {
        let mut session = match relay_sessions_remove(&mut self.relay_sessions, session_id.as_str()) {
            Some(x) => x,
            None => {
                proof {
                    assert(false);
                }
                return packet;
            },
        };
        let mut out = packet;
        if session.relay_mode == RelayMode::Transcoding {
            match &session.transcoding_session_id {
                Some(t) => {
                    let payload = transcoding.transcode_packet(t.as_str(), out.payload.as_slice(), now_ms);
                    out.payload = payload;
                },
                None => {},
            }
        }
        let len = out.payload.len() as u64;
        session.last_activity_ms = now_ms;
        match direction {
            RelayDirection::AToB => {
                session.stats.packets_relayed_a_to_b = session.stats.packets_relayed_a_to_b.saturating_add(1);
                session.stats.bytes_relayed_a_to_b = session.stats.bytes_relayed_a_to_b.saturating_add(len);
            },
            RelayDirection::BToA => {
                session.stats.packets_relayed_b_to_a = session.stats.packets_relayed_b_to_a.saturating_add(1);
                session.stats.bytes_relayed_b_to_a = session.stats.bytes_relayed_b_to_a.saturating_add(len);
            },
        }
        let ghost sv = session;
        relay_sessions_insert(&mut self.relay_sessions, copy_key(session_id), session);
        proof {
            assert(self.sessions() =~= old(self).sessions().insert(session_id@, sv));
            assert(sv.id@ == session_id@);
            assert forall|k: Seq<char>| #[trigger] self.sessions().dom().contains(k) implies self.sessions()[k].id@ == k by {
                if k != session_id@ {
                    assert(old(self).sessions().dom().contains(k));
                }
            }
            assert forall|k: Seq<char>| #[trigger] self.buffers().dom().contains(k) implies self.buffers()[k].wf()
                && self.buffers()[k].target_delay_ms == 20 by {
                assert(old(self).buffers().dom().contains(k));
            }
        }
        out
    }

    /// Handles a packet of an RTP session: nothing when no relay owns the
    /// session; otherwise the packet is processed, passed through the jitter
    /// buffer of its relay and direction (made on first use, holding
    /// `jitter_buffer_size` packets with a 20 ms target delay) unless that size
    /// is zero, and what comes out is relayed.
    pub fn handle_rtp_packet(
        &mut self,
        rtp_session_id: &str,
        packet: RtpPacket,
        transcoding: &mut TranscodingSessions,
        now_ms: u64,
    ) -> (r: GatewayResult<Option<RelayOutcome>>)
        requires
            old(self).wf(),
            old(self).processing_config.enable_silence_detection ==> packet.payload@.len() < 10 || energy(packet.payload@) <= u32::MAX,
            old(self).processing_config.enable_silence_detection ==> packet.payload@.len() <= u32::MAX,
        ensures
            final(self).wf(),
            final(self).sessions().dom() == old(self).sessions().dom(),
            !any_relay(old(self).sessions(), rtp_session_id@) ==> r == Ok::<Option<RelayOutcome>, GatewayError>(None)
                && final(self).relay_sessions == old(self).relay_sessions && final(self).jitter_buffers == old(self).jitter_buffers,
            any_relay(old(self).sessions(), rtp_session_id@) ==> (r matches Ok(Some(o)) && {
                &&& old(self).sessions().dom().contains(o.session_id@)
                &&& relay_dir(old(self).sessions()[o.session_id@], rtp_session_id@) == Some(o.direction)
                &&& o.dtmf == if old(self).processing_config.enable_dtmf_detection { dtmf_of(packet) } else { None }
                &&& o.silence == (old(self).processing_config.enable_silence_detection && silent(packet.payload@))
                &&& (old(self).processing_config.jitter_buffer_size == 0 ==> o.forwarded@.len() == 1
                    && o.forwarded@[0].sequence_number == packet.sequence_number)
            }),
    {
        let found = self.find_relay(rtp_session_id);
        let (session_id, direction) = match found {
            Some(x) => x,
            None => { return Ok(None); },
        };
        let processed = apply_media_processing(packet, &self.processing_config);
        let mut ready: Vec<RtpPacket> = Vec::new();
        if self.processing_config.jitter_buffer_size > 0 {
            let name = buffer_name_text(session_id.as_str(), direction);
            let ghost b0 = self.buffers();
            let mut buffer = match buffers_remove(&mut self.jitter_buffers, name.as_str()) {
                Some(b) => {
                    assert(b0.dom().contains(name@));
                    b
                },
                None => JitterBuffer::new(self.processing_config.jitter_buffer_size as usize, 20),
            };
            ready = buffer.add_packet(processed.packet, now_ms);
            buffers_insert(&mut self.jitter_buffers, name, buffer);
            proof {
                assert forall|k: Seq<char>| #[trigger] self.buffers().dom().contains(k) implies self.buffers()[k].wf()
                    && self.buffers()[k].target_delay_ms == 20 by {
                    if k != name@ {
                        assert(b0.dom().contains(k));
                    }
                }
            }
        } else {
            ready.push(processed.packet);
        }
        let ghost count = ready@.len();
        let mut forwarded: Vec<RtpPacket> = Vec::new();
        let mut queue = ready;
        let ghost dom0 = self.sessions().dom();
        while queue.len() > 0
            invariant
                self.wf(),
                self.sessions().dom() == dom0,
                dom0 == old(self).sessions().dom(),
                dom0.contains(session_id@),
                forwarded@.len() + queue@.len() == count,
                self.processing_config == old(self).processing_config,
                old(self).processing_config.jitter_buffer_size == 0 ==> count == 1
                    && (queue@.len() == 1 ==> queue@[0].sequence_number == packet.sequence_number)
                    && (forwarded@.len() == 1 ==> forwarded@[0].sequence_number == packet.sequence_number),
            decreases queue@.len(),
        {
            let p = queue.remove(0);
            let sent = self.relay_packet(&session_id, direction, p, transcoding, now_ms);
            forwarded.push(sent);
        }
        proof {
            assert(old(self).processing_config.jitter_buffer_size == 0 ==> forwarded@.len() == 1
                && forwarded@[0].sequence_number == packet.sequence_number);
            assert(processed.dtmf == if old(self).processing_config.enable_dtmf_detection { dtmf_of(packet) } else { None });
            assert(processed.silence == (old(self).processing_config.enable_silence_detection && silent(packet.payload@)));
        }
        Ok(Some(RelayOutcome { session_id, direction, dtmf: processed.dtmf, silence: processed.silence, forwarded }))
    }
}

/// How long a relay session may stay idle: five minutes.
pub const SESSION_TIMEOUT_MS: u64 = 300_000;

/// Whether `k` names a jitter buffer of one of the sessions.
pub open spec fn buffer_of(k: Seq<char>, sessions: Seq<MediaRelaySession>) -> bool {
    exists|i: int|
        0 <= i < sessions.len() && (k == buffer_name((#[trigger] sessions[i]).id@, RelayDirection::AToB) || k == buffer_name(
            sessions[i].id@,
            RelayDirection::BToA,
        ))
}

/// The jitter buffers left once those of the given sessions are dropped.
pub open spec fn without_buffers_of(m: Map<Seq<char>, JitterBuffer>, sessions: Seq<MediaRelaySession>) -> Map<Seq<char>, JitterBuffer> {
    Map::new(|k: Seq<char>| m.dom().contains(k) && !buffer_of(k, sessions), |k: Seq<char>| m[k])
}

impl MediaRelayService {
    /// Takes out every relay session idle for more than five minutes at
    /// `now_ms`, by walking the relays, and hands them back.
    fn take_idle_sessions(&mut self, now_ms: u64) -> (r: Vec<MediaRelaySession>)
        requires
            old(self).wf(),
        ensures
            final(self).wf(),
            final(self).sessions() == active_part(old(self).sessions(), now_ms, SESSION_TIMEOUT_MS),
            final(self).jitter_buffers == old(self).jitter_buffers,
            final(self).is_running == old(self).is_running,
            final(self).processing_config == old(self).processing_config,
            forall|i: int|
                0 <= i < r@.len() ==> old(self).sessions().dom().contains((#[trigger] r@[i]).key())
                    && old(self).sessions()[r@[i].key()] == r@[i],
    {
        let ids = relay_sessions_keys(&self.relay_sessions);
        let ghost o = old(self).sessions();
        let mut out: Vec<MediaRelaySession> = Vec::new();
        let mut i: usize = 0;
        while i < ids.len()
            invariant
                i <= ids@.len(),
                o == old(self).sessions(),
                self.jitter_buffers == old(self).jitter_buffers,
                self.is_running == old(self).is_running,
                self.processing_config == old(self).processing_config,
                self.wf(),
                forall|x: int| 0 <= x < ids@.len() ==> o.dom().contains(#[trigger] ids@[x]@),
                forall|k: Seq<char>| #[trigger] o.dom().contains(k) ==> exists|x: int| 0 <= x < ids@.len() && ids@[x]@ == k,
                forall|x: int, y: int| 0 <= x < y < ids@.len() ==> (#[trigger] ids@[x])@ != (#[trigger] ids@[y])@,
                forall|x: int| 0 <= x < i ==> (self.sessions().dom().contains((#[trigger] ids@[x])@) <==> !idle(o[ids@[x]@], now_ms,
                    SESSION_TIMEOUT_MS)),
                forall|x: int| i <= x < ids@.len() ==> self.sessions().dom().contains((#[trigger] ids@[x])@),
                forall|k: Seq<char>| #[trigger] self.sessions().dom().contains(k) ==> o.dom().contains(k) && self.sessions()[k] == o[k],
                forall|q: int| 0 <= q < out@.len() ==> o.dom().contains((#[trigger] out@[q]).key()) && o[out@[q].key()] == out@[q],
            decreases ids@.len() - i,
        {
            let ghost key = ids@[i as int]@;
            let ghost out0 = out@;
            let ghost bb = self.buffers();
            assert(forall|k: Seq<char>| #[trigger] bb.dom().contains(k) ==> bb[k].wf() && bb[k].target_delay_ms == 20);
            let v = match relay_sessions_remove(&mut self.relay_sessions, ids[i].as_str()) {
                Some(v) => v,
                None => {
                    assert(false);
                    return out;
                },
            };
            assert(v == o[key]);
            let ghost mid = self.sessions();
            if now_ms > v.last_activity_ms && now_ms - v.last_activity_ms > SESSION_TIMEOUT_MS {
                out.push(v);
            } else {
                relay_sessions_insert(&mut self.relay_sessions, copy_key(&ids[i]), v);
            }
            proof {
                assert forall|k: Seq<char>| #[trigger] self.sessions().dom().contains(k) implies self.sessions()[k].id@ == k by {
                    if k != key {
                        assert(mid.dom().contains(k));
                    }
                }
                assert forall|k: Seq<char>| #[trigger] self.buffers().dom().contains(k) implies self.buffers()[k].wf()
                    && self.buffers()[k].target_delay_ms == 20 by {
                    assert(bb.dom().contains(k));
                }
                assert forall|x: int| 0 <= x < i + 1 implies (self.sessions().dom().contains((#[trigger] ids@[x])@) <==> !idle(
                    o[ids@[x]@], now_ms, SESSION_TIMEOUT_MS)) by {
                    if x < i {
                        assert(ids@[x]@ != key);
                    }
                }
                assert forall|x: int| i + 1 <= x < ids@.len() implies self.sessions().dom().contains((#[trigger] ids@[x])@) by {
                    assert(ids@[x]@ != key);
                }
                assert forall|q: int| 0 <= q < out@.len() implies o.dom().contains((#[trigger] out@[q]).key()) && o[out@[q].key()] == out@[q] by {
                    if q < out0.len() {
                        assert(out@[q] == out0[q]);
                    }
                }
            }
            i = i + 1;
        }
        proof {
            let a = active_part(o, now_ms, SESSION_TIMEOUT_MS);
            assert forall|k: Seq<char>| a.dom().contains(k) <==> #[trigger] self.sessions().dom().contains(k) by {
                if o.dom().contains(k) {
                    let x = choose|x: int| 0 <= x < ids@.len() && ids@[x]@ == k;
                }
            }
            assert(self.sessions() =~= a);
        }
        out
    }
}

impl MediaRelayService {
    /// Drops every relay session idle for more than five minutes at
    /// `now_ms`, with its two jitter buffers; hands the sessions back.
    pub fn cleanup_idle_sessions(&mut self, now_ms: u64) -> (r: Vec<MediaRelaySession>)
        requires
            old(self).wf(),
        ensures
            final(self).wf(),
            final(self).sessions() == active_part(old(self).sessions(), now_ms, SESSION_TIMEOUT_MS),
            final(self).buffers() == without_buffers_of(old(self).buffers(), r@),
            final(self).is_running == old(self).is_running,
            forall|i: int|
                0 <= i < r@.len() ==> old(self).sessions().dom().contains((#[trigger] r@[i]).key())
                    && old(self).sessions()[r@[i].key()] == r@[i],
    {
        let gone = self.take_idle_sessions(now_ms);
        let ghost jb0 = old(self).buffers();
        let mut i: usize = 0;
        proof {
            assert(self.buffers() =~= without_buffers_of(jb0, gone@.take(0)));
        }
        while i < gone.len()
            invariant
                self.sessions() == active_part(old(self).sessions(), now_ms, SESSION_TIMEOUT_MS),
                forall|k: Seq<char>| #[trigger] self.sessions().dom().contains(k) ==> self.sessions()[k].id@ == k,
                self.is_running == old(self).is_running,
                jb0 == old(self).buffers(),
                forall|k: Seq<char>| #[trigger] jb0.dom().contains(k) ==> jb0[k].wf() && jb0[k].target_delay_ms == 20,
                i <= gone@.len(),
                self.buffers() == without_buffers_of(jb0, gone@.take(i as int)),
            decreases gone@.len() - i,
        {
            let a = buffer_name_text(gone[i].id.as_str(), RelayDirection::AToB);
            let b = buffer_name_text(gone[i].id.as_str(), RelayDirection::BToA);
            let ghost before = self.buffers();
            let _ = buffers_remove(&mut self.jitter_buffers, a.as_str());
            let _ = buffers_remove(&mut self.jitter_buffers, b.as_str());
            proof {
                let t0 = gone@.take(i as int);
                let t1 = gone@.take(i + 1);
                assert forall|k: Seq<char>| buffer_of(k, t1) == (buffer_of(k, t0) || k == a@ || k == b@) by {
                    if buffer_of(k, t1) {
                        let j = choose|j: int|
                            0 <= j < t1.len() && (k == buffer_name((#[trigger] t1[j]).id@, RelayDirection::AToB) || k == buffer_name(
                                t1[j].id@,
                                RelayDirection::BToA,
                            ));
                        if j < i {
                            assert(t0[j] == t1[j]);
                        }
                    }
                    if buffer_of(k, t0) {
                        let j = choose|j: int|
                            0 <= j < t0.len() && (k == buffer_name((#[trigger] t0[j]).id@, RelayDirection::AToB) || k == buffer_name(
                                t0[j].id@,
                                RelayDirection::BToA,
                            ));
                        assert(t1[j] == t0[j]);
                    }
                    if k == a@ || k == b@ {
                        assert(t1[i as int] == gone@[i as int]);
                    }
                }
                assert(self.buffers() =~= without_buffers_of(jb0, t1));
            }
            i = i + 1;
        }
        proof {
            assert(gone@.take(gone@.len() as int) =~= gone@);
        }
        gone
    }
}

} // verus!
