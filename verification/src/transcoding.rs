//! Codec naming and the registry of transcoding sessions.

use vstd::prelude::*;
use crate::error::GatewayResult;
use crate::interface_testing::{new_test_id, uuid_text};
use crate::text::{chars_of, matches_word, equals_ignoring_case, text, ascii_lower, ascii_lowercase};

verus! {

/// Codec types supported for transcoding
pub enum CodecType {
    G711u,
    G711a,
    G722,
    G729,
    Opus,
    Amr,
    AmrWb,
    Evs,
    Ilbc,
    Speex,
    G726,
    Custom(String),
}

/// The mathematical value of a `CodecType`.
pub enum CodecTypeView {
    G711u,
    G711a,
    G722,
    G729,
    Opus,
    Amr,
    AmrWb,
    Evs,
    Ilbc,
    Speex,
    G726,
    Custom(Seq<char>),
}

impl View for CodecType {
    type V = CodecTypeView;

    open spec fn view(&self) -> CodecTypeView {
        match self {
            CodecType::G711u => CodecTypeView::G711u,
            CodecType::G711a => CodecTypeView::G711a,
            CodecType::G722 => CodecTypeView::G722,
            CodecType::G729 => CodecTypeView::G729,
            CodecType::Opus => CodecTypeView::Opus,
            CodecType::Amr => CodecTypeView::Amr,
            CodecType::AmrWb => CodecTypeView::AmrWb,
            CodecType::Evs => CodecTypeView::Evs,
            CodecType::Ilbc => CodecTypeView::Ilbc,
            CodecType::Speex => CodecTypeView::Speex,
            CodecType::G726 => CodecTypeView::G726,
            CodecType::Custom(n) => CodecTypeView::Custom(n@),
        }
    }
}

/// The codec that a name denotes; names are compared without regard to the
/// case of ASCII letters, and unknown names denote a custom codec of that name.
pub open spec fn codec_for_name(n: Seq<char>) -> CodecTypeView {
    if equals_ignoring_case(n, seq!['p', 'c', 'm', 'u']) || equals_ignoring_case(n, seq!['g', '7', '1', '1', 'u'])
        || equals_ignoring_case(n, seq!['g', '.', '7', '1', '1', 'u']) {
        CodecTypeView::G711u
    } else if equals_ignoring_case(n, seq!['p', 'c', 'm', 'a']) || equals_ignoring_case(n, seq!['g', '7', '1', '1', 'a'])
        || equals_ignoring_case(n, seq!['g', '.', '7', '1', '1', 'a']) {
        CodecTypeView::G711a
    } else if equals_ignoring_case(n, seq!['g', '7', '2', '2']) || equals_ignoring_case(n, seq!['g', '.', '7', '2', '2']) {
        CodecTypeView::G722
    } else if equals_ignoring_case(n, seq!['g', '7', '2', '9']) || equals_ignoring_case(n, seq!['g', '.', '7', '2', '9']) {
        CodecTypeView::G729
    } else if equals_ignoring_case(n, seq!['o', 'p', 'u', 's']) {
        CodecTypeView::Opus
    } else if equals_ignoring_case(n, seq!['a', 'm', 'r']) {
        CodecTypeView::Amr
    } else if equals_ignoring_case(n, seq!['a', 'm', 'r', '-', 'w', 'b']) {
        CodecTypeView::AmrWb
    } else if equals_ignoring_case(n, seq!['e', 'v', 's']) {
        CodecTypeView::Evs
    } else if equals_ignoring_case(n, seq!['i', 'l', 'b', 'c']) {
        CodecTypeView::Ilbc
    } else if equals_ignoring_case(n, seq!['s', 'p', 'e', 'e', 'x']) {
        CodecTypeView::Speex
    } else if equals_ignoring_case(n, seq!['g', '7', '2', '6']) || equals_ignoring_case(n, seq!['g', '.', '7', '2', '6']) {
        CodecTypeView::G726
    } else {
        CodecTypeView::Custom(n)
    }
}

/// The display name of a codec.
pub open spec fn codec_name(c: CodecTypeView) -> Seq<char> {
    match c {
        CodecTypeView::G711u => "PCMU"@,
        CodecTypeView::G711a => "PCMA"@,
        CodecTypeView::G722 => "G722"@,
        CodecTypeView::G729 => "G729"@,
        CodecTypeView::Opus => "OPUS"@,
        CodecTypeView::Amr => "AMR"@,
        CodecTypeView::AmrWb => "AMR-WB"@,
        CodecTypeView::Evs => "EVS"@,
        CodecTypeView::Ilbc => "iLBC"@,
        CodecTypeView::Speex => "SPEEX"@,
        CodecTypeView::G726 => "G726"@,
        CodecTypeView::Custom(n) => n,
    }
}

/// The name of a codec, as given or in lower case, denotes that codec again;
/// a custom codec is left out, since its name may be one of the known ones.
pub proof fn law_codec_name_round_trip(c: CodecTypeView)
    requires
        !(c is Custom),
    ensures
        codec_for_name(codec_name(c)) == c,
        codec_for_name(ascii_lowercase(codec_name(c))) == c,
{
    let n = codec_name(c);
    let l = ascii_lowercase(n);
    assert(l.len() == n.len());
    assert forall|i: int| 0 <= i < n.len() implies ascii_lower(#[trigger] l[i]) == ascii_lower(n[i]) by {
        assert(l[i] == ascii_lower(n[i]));
    }
    match c {
        CodecTypeView::G711u => {
            reveal_strlit("PCMU");
            assert(n.len() == 4 && n[0] == 'P' && l[0] == ascii_lower('P') && n[1] == 'C' && l[1] == ascii_lower('C') && n[2] == 'M' && l[2] == ascii_lower('M') && n[3] == 'U' && l[3] == ascii_lower('U'));
        },
        CodecTypeView::G711a => {
            reveal_strlit("PCMA");
            assert(n.len() == 4 && n[0] == 'P' && l[0] == ascii_lower('P') && n[1] == 'C' && l[1] == ascii_lower('C') && n[2] == 'M' && l[2] == ascii_lower('M') && n[3] == 'A' && l[3] == ascii_lower('A'));
        },
        CodecTypeView::G722 => {
            reveal_strlit("G722");
            assert(n.len() == 4 && n[0] == 'G' && l[0] == ascii_lower('G') && n[1] == '7' && l[1] == ascii_lower('7') && n[2] == '2' && l[2] == ascii_lower('2') && n[3] == '2' && l[3] == ascii_lower('2'));
        },
        CodecTypeView::G729 => {
            reveal_strlit("G729");
            assert(n.len() == 4 && n[0] == 'G' && l[0] == ascii_lower('G') && n[1] == '7' && l[1] == ascii_lower('7') && n[2] == '2' && l[2] == ascii_lower('2') && n[3] == '9' && l[3] == ascii_lower('9'));
        },
        CodecTypeView::Opus => {
            reveal_strlit("OPUS");
            assert(n.len() == 4 && n[0] == 'O' && l[0] == ascii_lower('O') && n[1] == 'P' && l[1] == ascii_lower('P') && n[2] == 'U' && l[2] == ascii_lower('U') && n[3] == 'S' && l[3] == ascii_lower('S'));
        },
        CodecTypeView::Amr => {
            reveal_strlit("AMR");
            assert(n.len() == 3 && n[0] == 'A' && l[0] == ascii_lower('A') && n[1] == 'M' && l[1] == ascii_lower('M') && n[2] == 'R' && l[2] == ascii_lower('R'));
        },
        CodecTypeView::AmrWb => {
            reveal_strlit("AMR-WB");
            assert(n.len() == 6 && n[0] == 'A' && l[0] == ascii_lower('A') && n[1] == 'M' && l[1] == ascii_lower('M') && n[2] == 'R' && l[2] == ascii_lower('R') && n[3] == '-' && l[3] == ascii_lower('-') && n[4] == 'W' && l[4] == ascii_lower('W') && n[5] == 'B' && l[5] == ascii_lower('B'));
        },
        CodecTypeView::Evs => {
            reveal_strlit("EVS");
            assert(n.len() == 3 && n[0] == 'E' && l[0] == ascii_lower('E') && n[1] == 'V' && l[1] == ascii_lower('V') && n[2] == 'S' && l[2] == ascii_lower('S'));
        },
        CodecTypeView::Ilbc => {
            reveal_strlit("iLBC");
            assert(n.len() == 4 && n[0] == 'i' && l[0] == ascii_lower('i') && n[1] == 'L' && l[1] == ascii_lower('L') && n[2] == 'B' && l[2] == ascii_lower('B') && n[3] == 'C' && l[3] == ascii_lower('C'));
        },
        CodecTypeView::Speex => {
            reveal_strlit("SPEEX");
            assert(n.len() == 5 && n[0] == 'S' && l[0] == ascii_lower('S') && n[1] == 'P' && l[1] == ascii_lower('P') && n[2] == 'E' && l[2] == ascii_lower('E') && n[3] == 'E' && l[3] == ascii_lower('E') && n[4] == 'X' && l[4] == ascii_lower('X'));
        },
        CodecTypeView::G726 => {
            reveal_strlit("G726");
            assert(n.len() == 4 && n[0] == 'G' && l[0] == ascii_lower('G') && n[1] == '7' && l[1] == ascii_lower('7') && n[2] == '2' && l[2] == ascii_lower('2') && n[3] == '6' && l[3] == ascii_lower('6'));
        },
        CodecTypeView::Custom(_) => {},
    }
}

fn is_word(s: &Vec<char>, w: &[char]) -> (r: bool)
    ensures
        r == equals_ignoring_case(s@, w@),
{
    matches_word(s.as_slice(), w)
}

impl CodecType {
    /// The codec a name denotes, such as `pcmu` or `G.722`; an unknown name
    /// denotes a custom codec that keeps the name as given.
    pub fn from_name(name: &str) -> (r: Self)
        ensures
            r@ == codec_for_name(name@),
    {
        let n = chars_of(name);
        proof {
            assert(seq!['p', 'c', 'm', 'u'] =~= ['p', 'c', 'm', 'u']@);
        }
        if is_word(&n, &['p', 'c', 'm', 'u']) || is_word(&n, &['g', '7', '1', '1', 'u']) || is_word(&n, &['g', '.', '7', '1', '1', 'u']) {
            CodecType::G711u
        } else if is_word(&n, &['p', 'c', 'm', 'a']) || is_word(&n, &['g', '7', '1', '1', 'a']) || is_word(&n, &['g', '.', '7', '1', '1', 'a']) {
            CodecType::G711a
        } else if is_word(&n, &['g', '7', '2', '2']) || is_word(&n, &['g', '.', '7', '2', '2']) {
            CodecType::G722
        } else if is_word(&n, &['g', '7', '2', '9']) || is_word(&n, &['g', '.', '7', '2', '9']) {
            CodecType::G729
        } else if is_word(&n, &['o', 'p', 'u', 's']) {
            CodecType::Opus
        } else if is_word(&n, &['a', 'm', 'r']) {
            CodecType::Amr
        } else if is_word(&n, &['a', 'm', 'r', '-', 'w', 'b']) {
            CodecType::AmrWb
        } else if is_word(&n, &['e', 'v', 's']) {
            CodecType::Evs
        } else if is_word(&n, &['i', 'l', 'b', 'c']) {
            CodecType::Ilbc
        } else if is_word(&n, &['s', 'p', 'e', 'e', 'x']) {
            CodecType::Speex
        } else if is_word(&n, &['g', '7', '2', '6']) || is_word(&n, &['g', '.', '7', '2', '6']) {
            CodecType::G726
        } else {
            CodecType::Custom(text(name))
        }
    }

    /// The display name of the codec, such as `PCMU`; a custom codec's name as given.
    pub fn to_name(&self) -> (r: &str)
        ensures
            r@ == codec_name(self@),
    {
        match self {
            CodecType::G711u => "PCMU",
            CodecType::G711a => "PCMA",
            CodecType::G722 => "G722",
            CodecType::G729 => "G729",
            CodecType::Opus => "OPUS",
            CodecType::Amr => "AMR",
            CodecType::AmrWb => "AMR-WB",
            CodecType::Evs => "EVS",
            CodecType::Ilbc => "iLBC",
            CodecType::Speex => "SPEEX",
            CodecType::G726 => "G726",
            CodecType::Custom(name) => name.as_str(),
        }
    }

    /// Whether two codecs are the same.
    pub fn same_as(&self, other: &CodecType) -> (r: bool)
        ensures
            r == (self@ == other@),
    {
        match (self, other) {
            (CodecType::G711u, CodecType::G711u) => true,
            (CodecType::G711a, CodecType::G711a) => true,
            (CodecType::G722, CodecType::G722) => true,
            (CodecType::G729, CodecType::G729) => true,
            (CodecType::Opus, CodecType::Opus) => true,
            (CodecType::Amr, CodecType::Amr) => true,
            (CodecType::AmrWb, CodecType::AmrWb) => true,
            (CodecType::Evs, CodecType::Evs) => true,
            (CodecType::Ilbc, CodecType::Ilbc) => true,
            (CodecType::Speex, CodecType::Speex) => true,
            (CodecType::G726, CodecType::G726) => true,
            (CodecType::Custom(a), CodecType::Custom(b)) => *a == *b,
            _ => false,
        }
    }

    /// A copy of the codec.
    pub fn duplicate(&self) -> (r: Self)
        ensures
            r@ == self@,
    {
        match self {
            CodecType::G711u => CodecType::G711u,
            CodecType::G711a => CodecType::G711a,
            CodecType::G722 => CodecType::G722,
            CodecType::G729 => CodecType::G729,
            CodecType::Opus => CodecType::Opus,
            CodecType::Amr => CodecType::Amr,
            CodecType::AmrWb => CodecType::AmrWb,
            CodecType::Evs => CodecType::Evs,
            CodecType::Ilbc => CodecType::Ilbc,
            CodecType::Speex => CodecType::Speex,
            CodecType::G726 => CodecType::G726,
            CodecType::Custom(n) => CodecType::Custom(n.clone()),
        }
    }
}

/// The GPU compute platform of a device (`NoBackend` when it has none).
#[derive(Clone, Copy, Debug, PartialEq, Eq, Structural)]
pub enum GpuBackend {
    Cuda,
    Rocm,
    NoBackend,
}

/// Where transcoding runs.
pub enum TranscodingBackend {
    Cpu,
    Simd,
    SimdAvx2,
    SimdAvx512,
    Cuda,
    Rocm,
    Gpu,
    Auto,
}

/// Transcoding performance statistics; GPU utilization is in whole percent.
pub struct TranscodingStats {
    pub packets_processed: u64,
    pub bytes_processed: u64,
    pub processing_time_ms: u64,
    pub gpu_utilization_pct: u32,
    pub memory_used_mb: u64,
    pub queue_depth: u32,
    pub error_count: u32,
}

impl TranscodingStats {
    /// Statistics with every counter at zero.
    pub fn new() -> (r: Self)
        ensures
            r.packets_processed == 0,
            r.bytes_processed == 0,
            r.processing_time_ms == 0,
            r.gpu_utilization_pct == 0,
            r.memory_used_mb == 0,
            r.queue_depth == 0,
            r.error_count == 0,
    {
        TranscodingStats {
            packets_processed: 0,
            bytes_processed: 0,
            processing_time_ms: 0,
            gpu_utilization_pct: 0,
            memory_used_mb: 0,
            queue_depth: 0,
            error_count: 0,
        }
    }
}

/// Transcoding session configuration; times are in milliseconds.
pub struct TranscodingSession {
    pub id: String,
    pub call_id: String,
    pub source_codec: CodecType,
    pub target_codec: CodecType,
    pub source_sample_rate: u32,
    pub target_sample_rate: u32,
    pub backend: TranscodingBackend,
    pub created_at_ms: u64,
    pub last_activity_ms: u64,
    pub stats: TranscodingStats,
}

#[verifier::external_type_specification]
#[verifier::external_body]
#[verifier::reject_recursive_types(K)]
#[verifier::reject_recursive_types(V)]
#[verifier::reject_recursive_types(S)]
pub struct ExDashMap<K, V, S>(dashmap::DashMap<K, V, S>);

/// A concurrent map of sessions by id.
pub type SessionMap = dashmap::DashMap<String, TranscodingSession>;

/// The sessions that a `DashMap` holds, by id.
pub uninterp spec fn dash_sessions(m: SessionMap) -> Map<Seq<char>, TranscodingSession>;

/// `DashMap::new`: a map that holds nothing.
#[verifier::external_body]
fn sessions_new() -> (r: SessionMap)
    ensures
        dash_sessions(r).dom().len() == 0,
        dash_sessions(r).dom().finite(),
{
    dashmap::DashMap::new()
}

/// `DashMap::insert`: the map holds `s` under `id` afterwards, in place of
/// any session it held there, which is handed back.
#[verifier::external_body]
fn sessions_insert(m: &mut SessionMap, id: String, s: TranscodingSession) -> (r: Option<TranscodingSession>)
    ensures
        dash_sessions(*final(m)) == dash_sessions(*old(m)).insert(id@, s),
        r is Some <==> dash_sessions(*old(m)).dom().contains(id@),
        r matches Some(p) ==> p == dash_sessions(*old(m))[id@],
{
    m.insert(id, s)
}

/// `DashMap::remove`: the map no longer holds `id`, and the session it held
/// there, if any, is handed back (without its key).
#[verifier::external_body]
fn sessions_remove(m: &mut SessionMap, id: &str) -> (r: Option<TranscodingSession>)
    ensures
        dash_sessions(*final(m)) == dash_sessions(*old(m)).remove(id@),
        r is Some <==> dash_sessions(*old(m)).dom().contains(id@),
        r matches Some(p) ==> p == dash_sessions(*old(m))[id@],
{
    match m.remove(id) {
        Some((_, s)) => Some(s),
        None => None,
    }
}

/// The transcoding sessions of the gateway, by session id.
pub struct TranscodingSessions {
    pub sessions: SessionMap,
}

impl View for TranscodingSessions {
    type V = Map<Seq<char>, TranscodingSession>;

    /// The sessions by id.
    open spec fn view(&self) -> Map<Seq<char>, TranscodingSession> {
        dash_sessions(self.sessions)
    }
}

impl TranscodingSessions {
    /// No sessions.
    pub fn new() -> (r: Self)
        ensures
            r.view() == Map::<Seq<char>, TranscodingSession>::empty(),
    {
        TranscodingSessions { sessions: sessions_new() }
    }

    /// Registers a session under a fresh id; its statistics start at zero.
    pub fn create_transcoding_session(
        &mut self,
        id: String,
        call_id: &str,
        source_codec: CodecType,
        target_codec: CodecType,
        source_sample_rate: u32,
        target_sample_rate: u32,
        backend: TranscodingBackend,
        now_ms: u64,
    )
        requires
        ensures
            final(self).view().dom() == old(self).view().dom().insert(id@),
            final(self).view()[id@].call_id@ == call_id@,
            final(self).view()[id@].source_codec@ == source_codec@,
            final(self).view()[id@].target_codec@ == target_codec@,
            final(self).view()[id@].source_sample_rate == source_sample_rate,
            final(self).view()[id@].target_sample_rate == target_sample_rate,
            final(self).view()[id@].stats.packets_processed == 0,
            final(self).view()[id@].stats.bytes_processed == 0,
            forall|k: Seq<char>| k != id@ && old(self).view().dom().contains(k) ==> final(self).view()[k]
                == old(self).view()[k],
    {
        let ghost sc = source_codec@;
        let ghost tc = target_codec@;
        let session = TranscodingSession {
            id,
            call_id: text(call_id),
            source_codec,
            target_codec,
            source_sample_rate,
            target_sample_rate,
            backend,
            created_at_ms: now_ms,
            last_activity_ms: now_ms,
            stats: TranscodingStats::new(),
        };
        let key = text(session.id.as_str());
        let _ = sessions_insert(&mut self.sessions, key, session);
    }

    /// Transcodes one packet. The codec engine is not wired in, so the payload
    /// comes back unchanged; the session's counters and activity time move on.
    pub fn transcode_packet(&mut self, session_id: &str, input: &[u8], now_ms: u64) -> (r: Vec<u8>)
        requires
        ensures
            r@ == input@,
            final(self).view().dom() == old(self).view().dom(),
            old(self).view().dom().contains(session_id@) ==> {
                let o = old(self).view()[session_id@];
                let n = final(self).view()[session_id@];
                &&& n.stats.packets_processed == (if o.stats.packets_processed == u64::MAX { u64::MAX } else { (o.stats.packets_processed + 1) as u64 })
                &&& n.stats.bytes_processed == (if o.stats.bytes_processed + input@.len() > u64::MAX { u64::MAX } else { (o.stats.bytes_processed + input@.len()) as u64 })
                &&& n.last_activity_ms == now_ms
                &&& n.id@ == o.id@
                &&& n.call_id == o.call_id
            },
            forall|k: Seq<char>| k != session_id@ && old(self).view().dom().contains(k) ==> final(self).view()[k]
                == old(self).view()[k],
    {
        let out = vstd::slice::slice_to_vec(input);
        match sessions_remove(&mut self.sessions, session_id) {
            None => {},
            Some(s) => {
                let packets = s.stats.packets_processed.saturating_add(1);
                let bytes = s.stats.bytes_processed.saturating_add(input.len() as u64);
                let key = text(session_id);
                let updated = TranscodingSession {
                    last_activity_ms: now_ms,
                    stats: TranscodingStats { packets_processed: packets, bytes_processed: bytes, ..s.stats },
                    ..s
                };
                let _ = sessions_insert(&mut self.sessions, key, updated);
                proof {
                    assert(self.view() =~= old(self).view().insert(session_id@, updated));
                }
            },
        }
        out
    }

    /// Ends a session; its final statistics are handed back if it existed.
    pub fn destroy_transcoding_session(&mut self, session_id: &str) -> (r: Option<TranscodingSession>)
        requires
        ensures
            final(self).view() == old(self).view().remove(session_id@),
            r is Some <==> old(self).view().dom().contains(session_id@),
            r matches Some(s) ==> s == old(self).view()[session_id@],
    {
        sessions_remove(&mut self.sessions, session_id)
    }
}

fn copy_backend(b: &TranscodingBackend) -> (r: TranscodingBackend)
    ensures
        r == *b,
{
    match b {
        TranscodingBackend::Cpu => TranscodingBackend::Cpu,
        TranscodingBackend::Simd => TranscodingBackend::Simd,
        TranscodingBackend::SimdAvx2 => TranscodingBackend::SimdAvx2,
        TranscodingBackend::SimdAvx512 => TranscodingBackend::SimdAvx512,
        TranscodingBackend::Cuda => TranscodingBackend::Cuda,
        TranscodingBackend::Rocm => TranscodingBackend::Rocm,
        TranscodingBackend::Gpu => TranscodingBackend::Gpu,
        TranscodingBackend::Auto => TranscodingBackend::Auto,
    }
}

/// The transcoding service: the backend it prefers and its sessions.
pub struct TranscodingService {
    pub backend_preference: TranscodingBackend,
    pub sessions: TranscodingSessions,
    pub is_running: bool,
}

impl TranscodingService {
    /// A stopped service with no sessions.
    pub fn new(backend_preference: TranscodingBackend) -> (r: Self)
        ensures
            r.sessions.view() == Map::<Seq<char>, TranscodingSession>::empty(),
            r.backend_preference == backend_preference,
            !r.is_running,
    {
        TranscodingService { backend_preference, sessions: TranscodingSessions::new(), is_running: false }
    }

    /// Starts the service.
    pub fn start(&mut self) -> (r: GatewayResult<()>)
        ensures
            r is Ok,
            final(self).is_running,
            final(self).sessions == old(self).sessions,
            final(self).backend_preference == old(self).backend_preference,
    {
        self.is_running = true;
        Ok(())
    }

    /// Opens a session under a fresh id, on the preferred backend; returns
    /// the id.
    pub fn create_transcoding_session(
        &mut self,
        call_id: &str,
        source_codec: CodecType,
        target_codec: CodecType,
        source_sample_rate: u32,
        target_sample_rate: u32,
        now_ms: u64,
    ) -> (r: GatewayResult<String>)
        requires
        ensures
            final(self).is_running == old(self).is_running,
            r matches Ok(id) && {
                &&& final(self).sessions.view().dom() == old(self).sessions.view().dom().insert(id@)
                &&& final(self).sessions.view()[id@].call_id@ == call_id@
                &&& final(self).sessions.view()[id@].source_codec@ == source_codec@
                &&& final(self).sessions.view()[id@].target_codec@ == target_codec@
                &&& final(self).sessions.view()[id@].source_sample_rate == source_sample_rate
                &&& final(self).sessions.view()[id@].target_sample_rate == target_sample_rate
                &&& forall|k: Seq<char>|
                    k != id@ && old(self).sessions.view().dom().contains(k) ==> final(self).sessions.view()[k]
                        == old(self).sessions.view()[k]
            },
    {
        let id = uuid_text(new_test_id());
        let backend = copy_backend(&self.backend_preference);
        self.sessions.create_transcoding_session(text(id.as_str()), call_id, source_codec, target_codec, source_sample_rate, target_sample_rate, backend, now_ms);
        Ok(id)
    }

    /// Transcodes one packet of a session: the payload comes back unchanged
    /// (no codec engine is wired in) and the session's counters move on.
    pub fn transcode_packet(&mut self, session_id: &str, input: &[u8], now_ms: u64) -> (r: GatewayResult<Vec<u8>>)
        requires
        ensures
            r matches Ok(out) && out@ == input@,
            final(self).sessions.view().dom() == old(self).sessions.view().dom(),
            final(self).is_running == old(self).is_running,
    {
        Ok(self.sessions.transcode_packet(session_id, input, now_ms))
    }

    /// Ends a session; an unknown id changes nothing.
    pub fn destroy_transcoding_session(&mut self, session_id: &str) -> (r: GatewayResult<()>)
        requires
        ensures
            r is Ok,
            final(self).sessions.view() == old(self).sessions.view().remove(session_id@),
            final(self).is_running == old(self).is_running,
    {
        let _ = self.sessions.destroy_transcoding_session(session_id);
        Ok(())
    }

    /// Changes the preferred backend.
    pub fn switch_backend(&mut self, new_backend: TranscodingBackend) -> (r: GatewayResult<()>)
        ensures
            r is Ok,
            final(self).backend_preference == new_backend,
            final(self).sessions == old(self).sessions,
            final(self).is_running == old(self).is_running,
    {
        self.backend_preference = new_backend;
        Ok(())
    }

    /// Stops the service and ends every session.
    pub fn stop(&mut self) -> (r: GatewayResult<()>)
        ensures
            r is Ok,
            !final(self).is_running,
            final(self).sessions.view() == Map::<Seq<char>, TranscodingSession>::empty(),
            final(self).backend_preference == old(self).backend_preference,
    {
        self.sessions = TranscodingSessions::new();
        self.is_running = false;
        Ok(())
    }
}

} // verus!
