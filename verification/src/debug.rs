//! Protocol debugging: decoding of Q.931 messages, LAPD frames and SIP
//! messages, a bounded history of captured messages, and the state of each
//! B-channel. Times are milliseconds since the epoch.

use vstd::prelude::*;
use crate::error::GatewayResult;
use crate::keyed::{Keyed, KeyedList, NumKeyed, NumKeyedList};
use crate::text::{decimal, digit_char, join2, push_char, u64_text, text, str_eq, equals_ignoring_case, matches_word, chars_of};

verus! {

/// The Q.931 message name of a message type.
pub open spec fn q931_message_name(t: u8) -> Seq<char> {
    if t == 0x05 { "SETUP"@ }
    else if t == 0x07 { "CONNECT"@ }
    else if t == 0x0F { "CONNECT ACK"@ }
    else if t == 0x01 { "ALERTING"@ }
    else if t == 0x02 { "CALL PROCEEDING"@ }
    else if t == 0x03 { "PROGRESS"@ }
    else if t == 0x45 { "DISCONNECT"@ }
    else if t == 0x4D { "RELEASE"@ }
    else if t == 0x5A { "RELEASE COMPLETE"@ }
    else { "UNKNOWN"@ }
}

/// The name of a Q.931 information element.
pub open spec fn ie_name(id: u8) -> Seq<char> {
    if id == 0x18 { "Channel Identification"@ }
    else if id == 0x1E { "Progress Indicator"@ }
    else if id == 0x08 { "Cause"@ }
    else if id == 0x6C { "Calling Party Number"@ }
    else if id == 0x70 { "Called Party Number"@ }
    else { "Unknown IE"@ }
}

/// The digit of a number's low nibble, or `?` when it is not a decimal digit.
pub open spec fn nibble_digit(b: u8) -> char {
    let v = (b & 0x0F) as nat;
    if v < 10 { digit_char(v) } else { '?' }
}

/// What an information element says in words: the digits of a calling or
/// called party number (after its first octet), or the cause value.
pub open spec fn decoded_ie(id: u8, data: Seq<u8>) -> Option<Seq<char>> {
    if id == 0x6C || id == 0x70 {
        if data.len() > 0 {
            Some(Seq::new((data.len() - 1) as nat, |i: int| nibble_digit(data[i + 1])))
        } else {
            None
        }
    } else if id == 0x08 {
        if data.len() >= 2 { Some("Cause: "@ + decimal((data[1] & 0x7F) as nat)) } else { None }
    } else {
        None
    }
}

/// A Cause element of two or more octets reads as `Cause: ` and then the
/// decimal digits of the second octet's low seven bits, whatever the first
/// octet (coding and location) and the octets after the second hold.
pub proof fn law_cause_reads_second_octet(data: Seq<u8>, other: Seq<u8>)
    requires
        data.len() >= 2,
        other.len() >= 2,
        other[1] == data[1],
    ensures
        decoded_ie(0x08, data) matches Some(t) && t.len() > 7 && t.subrange(0, 7) == "Cause: "@
            && crate::snmp::all_digits(t.subrange(7, t.len() as int))
            && crate::snmp::digits_value(t.subrange(7, t.len() as int)) == (data[1] % 128) as int,
        decoded_ie(0x08, other) == decoded_ie(0x08, data),
{
    reveal_strlit("Cause: ");
    let w: u8 = data[1];
    let v: u8 = w & 0x7F;
    assert(v == w % 128) by (bit_vector)
        requires
            v == w & 0x7F,
    ;
    crate::snmp::lemma_decimal_digits(v as nat);
    let t = "Cause: "@ + decimal(v as nat);
    assert(t.subrange(0, 7) =~= "Cause: "@);
    assert(t.subrange(7, t.len() as int) =~= decimal(v as nat));
}

/// A decoded information element.
pub struct InformationElementDebug {
    pub id: u8,
    pub name: String,
    pub length: usize,
    pub data: Vec<u8>,
    pub decoded_value: Option<String>,
}

/// An information element as a mathematical value.
pub struct IeView {
    pub id: u8,
    pub name: Seq<char>,
    pub length: nat,
    pub data: Seq<u8>,
    pub decoded_value: Option<Seq<char>>,
}

impl View for InformationElementDebug {
    type V = IeView;

    open spec fn view(&self) -> IeView {
        IeView {
            id: self.id,
            name: self.name@,
            length: self.length as nat,
            data: self.data@,
            decoded_value: match self.decoded_value {
                Some(s) => Some(s@),
                None => None,
            },
        }
    }
}

/// The information elements from `offset` on: each is an id, a length and
/// that many octets; an element that runs past the end ends the list.
pub open spec fn q931_ies(data: Seq<u8>, offset: int) -> Seq<IeView>
    decreases data.len() - offset,
{
    if offset < 0 || offset + 1 >= data.len() {
        Seq::empty()
    } else {
        let id = data[offset];
        let len = data[offset + 1] as int;
        if offset + 2 + len > data.len() {
            Seq::empty()
        } else {
            let body = data.subrange(offset + 2, offset + 2 + len);
            seq![IeView { id, name: ie_name(id), length: len as nat, data: body, decoded_value: decoded_ie(id, body) }]
                + q931_ies(data, offset + 2 + len)
        }
    }
}

/// Q.931 (D-channel) debug information
pub struct Q931DebugInfo {
    pub protocol_discriminator: u8,
    pub call_reference_flag: bool,
    pub call_reference_value: u16,
    pub message_type: u8,
    pub message_name: String,
    pub information_elements: Vec<InformationElementDebug>,
    pub cause_value: Option<u8>,
    pub progress_indicator: Option<u8>,
}

/// The views of a list of information elements.
pub open spec fn ie_views(v: Seq<InformationElementDebug>) -> Seq<IeView> {
    v.map_values(|e: InformationElementDebug| e@)
}

/// Whether `q` decodes `data`: too short a message is `Invalid`; otherwise the
/// discriminator, the call reference (flag and 15-bit value from octets 2 and
/// 3), the message type (octet 4) and its name, and the information elements
/// from octet 5.
pub open spec fn q931_decodes(data: Seq<u8>, q: Q931DebugInfo) -> bool {
    &&& q.cause_value is None
    &&& q.progress_indicator is None
    &&& if data.len() < 4 {
        &&& q.protocol_discriminator == 0
        &&& !q.call_reference_flag
        &&& q.call_reference_value == 0
        &&& q.message_type == 0
        &&& q.message_name@ == "Invalid"@
        &&& q.information_elements@.len() == 0
    } else {
        &&& q.protocol_discriminator == data[0]
        &&& q.call_reference_flag == ((data[2] & 0x80) != 0)
        &&& q.call_reference_value == ((data[2] & 0x7F) as u16) * 256 + data[3] as u16
        &&& q.message_type == data[4]
        &&& q.message_name@ == q931_message_name(data[4])
        &&& ie_views(q.information_elements@) == q931_ies(data, 5)
    }
}

/// The octets that a list of information elements is written as: each
/// element's id, its length and its data.
pub open spec fn ie_octets(ies: Seq<IeView>) -> Seq<u8>
    decreases ies.len(),
{
    if ies.len() == 0 {
        Seq::empty()
    } else {
        seq![ies[0].id, ies[0].length as u8] + ies[0].data + ie_octets(ies.drop_first())
    }
}

/// The information elements read from `offset` are the octets that follow
/// it, element by element: written out again they give back exactly the
/// octets they were read from, each element's data is as long as its length
/// octet says, and what is left after them holds no whole element.
pub proof fn law_q931_ies_rebuild_the_octets(data: Seq<u8>, offset: int)
    requires
        0 <= offset <= data.len(),
    ensures
        ({
            let ies = q931_ies(data, offset);
            let used = ie_octets(ies).len();
            &&& offset + used <= data.len()
            &&& data.subrange(offset, offset + used) == ie_octets(ies)
            &&& forall|i: int| 0 <= i < ies.len() ==> (#[trigger] ies[i]).data.len() == ies[i].length && ies[i].name
                == ie_name(ies[i].id) && ies[i].decoded_value == decoded_ie(ies[i].id, ies[i].data)
            &&& offset + used + 1 >= data.len() || offset + used + 2 + data[offset + used + 1] as int > data.len()
        }),
    decreases data.len() - offset,
{
    let ies = q931_ies(data, offset);
    if offset + 1 >= data.len() {
        assert(data.subrange(offset, offset) =~= Seq::<u8>::empty());
    } else {
        let len = data[offset + 1] as int;
        if offset + 2 + len > data.len() {
            assert(data.subrange(offset, offset) =~= Seq::<u8>::empty());
        } else {
            let next = offset + 2 + len;
            law_q931_ies_rebuild_the_octets(data, next);
            let rest = q931_ies(data, next);
            let body = data.subrange(offset + 2, next);
            let head = IeView { id: data[offset], name: ie_name(data[offset]), length: len as nat, data: body, decoded_value: decoded_ie(data[offset], body) };
            assert(ies == seq![head] + rest);
            assert(ies[0] == head);
            assert(ies.drop_first() =~= rest);
            assert((len as nat) as u8 == data[offset + 1]);
            let ro = ie_octets(rest);
            assert(ie_octets(ies) == seq![head.id, head.length as u8] + body + ro);
            assert(data.subrange(offset, next + ro.len()) =~= seq![head.id, head.length as u8] + body + ro) by {
                assert(data.subrange(next, next + ro.len()) == ro);
            }
            assert forall|i: int| 0 <= i < ies.len() implies (#[trigger] ies[i]).data.len() == ies[i].length && ies[i].name
                == ie_name(ies[i].id) && ies[i].decoded_value == decoded_ie(ies[i].id, ies[i].data) by {
                if i > 0 {
                    assert(ies[i] == rest[i - 1]);
                }
            }
        }
    }
}

/// A Q.931 message's call reference is read from its third and fourth
/// octets: the flag is the third octet's top bit, and the value is the rest of
/// that octet followed by the fourth, so flag and value give both octets back.
pub proof fn law_q931_call_reference(data: Seq<u8>, q: Q931DebugInfo)
    requires
        data.len() > 4,
        q931_decodes(data, q),
    ensures
        q.call_reference_value < 32768,
        (if q.call_reference_flag { 128int } else { 0 }) + q.call_reference_value as int / 256 == data[2] as int,
        q.call_reference_value as int % 256 == data[3] as int,
        q.protocol_discriminator == data[0],
        q.message_type == data[4],
{
    let b2: u8 = data[2];
    assert((b2 & 0x7F) as int + (if (b2 & 0x80) != 0 { 128int } else { 0 }) == b2 as int && (b2 & 0x7F) < 128) by (bit_vector);
    let hi: int = (b2 & 0x7F) as int;
    let v: int = hi * 256 + data[3] as int;
    assert(v / 256 == hi && v % 256 == data[3] as int) by (nonlinear_arith)
        requires
            v == hi * 256 + data[3] as int,
            0 <= data[3] < 256,
            0 <= hi,
    ;
}

fn ie_name_text(id: u8) -> (r: String)
    ensures
        r@ == ie_name(id),
{
    if id == 0x18 { String::from_str("Channel Identification") }
    else if id == 0x1E { String::from_str("Progress Indicator") }
    else if id == 0x08 { String::from_str("Cause") }
    else if id == 0x6C { String::from_str("Calling Party Number") }
    else if id == 0x70 { String::from_str("Called Party Number") }
    else { String::from_str("Unknown IE") }
}

fn q931_name_text(t: u8) -> (r: String)
    ensures
        r@ == q931_message_name(t),
{
    if t == 0x05 { String::from_str("SETUP") }
    else if t == 0x07 { String::from_str("CONNECT") }
    else if t == 0x0F { String::from_str("CONNECT ACK") }
    else if t == 0x01 { String::from_str("ALERTING") }
    else if t == 0x02 { String::from_str("CALL PROCEEDING") }
    else if t == 0x03 { String::from_str("PROGRESS") }
    else if t == 0x45 { String::from_str("DISCONNECT") }
    else if t == 0x4D { String::from_str("RELEASE") }
    else if t == 0x5A { String::from_str("RELEASE COMPLETE") }
    else { String::from_str("UNKNOWN") }
}

/// Decodes an information element into words where its kind is known.
pub fn decode_information_element(ie_id: u8, data: &[u8]) -> (r: Option<String>)
    ensures
        match r {
            Some(s) => decoded_ie(ie_id, data@) == Some(s@),
            None => decoded_ie(ie_id, data@) is None,
        },
{
    if ie_id == 0x6C || ie_id == 0x70 {
        if data.len() > 0 {
            let mut s = String::new();
            let mut i: usize = 1;
            while i < data.len()
                invariant
                    1 <= i <= data@.len(),
                    s@ == Seq::new((i - 1) as nat, |k: int| nibble_digit(data@[k + 1])),
                decreases data@.len() - i,
            {
                let v = data[i] & 0x0F;
                let c = if v < 10 { ((v as u8) + 48) as char } else { '?' };
                proof {
                    if v < 10 {
                        assert(c == digit_char(v as nat)) by {
                            assert(v == 0 || v == 1 || v == 2 || v == 3 || v == 4 || v == 5 || v == 6 || v == 7 || v == 8 || v == 9);
                        }
                    }
                }
                push_char(&mut s, c);
                i = i + 1;
                proof {
                    assert(s@ =~= Seq::new((i - 1) as nat, |k: int| nibble_digit(data@[k + 1])));
                }
            }
            Some(s)
        } else {
            None
        }
    } else if ie_id == 0x08 {
        if data.len() >= 2 {
            let n = u64_text((data[1] & 0x7F) as u64);
            Some(join2("Cause: ", n.as_str()))
        } else {
            None
        }
    } else {
        None
    }
}

fn copy_bytes(data: &[u8], from: usize, to: usize) -> (r: Vec<u8>)
    requires
        from <= to <= data@.len(),
    ensures
        r@ == data@.subrange(from as int, to as int),
{
    let mut r: Vec<u8> = Vec::new();
    let mut i = from;
    while i < to
        invariant
            from <= i <= to,
            to <= data@.len(),
            r@ == data@.subrange(from as int, i as int),
        decreases to - i,
    {
        r.push(data[i]);
        i = i + 1;
        proof {
            assert(r@ =~= data@.subrange(from as int, i as int));
        }
    }
    r
}

/// Decodes a Q.931 message. A message of exactly four octets has no message
/// type octet and is not accepted.
pub fn parse_q931_message(data: &[u8]) -> (q: Q931DebugInfo)
    requires
        data@.len() != 4,
    ensures
        q931_decodes(data@, q),
{
    if data.len() < 4 {
        return Q931DebugInfo {
            protocol_discriminator: 0,
            call_reference_flag: false,
            call_reference_value: 0,
            message_type: 0,
            message_name: String::from_str("Invalid"),
            information_elements: Vec::new(),
            cause_value: None,
            progress_indicator: None,
        };
    }
    let protocol_discriminator = data[0];
    let call_reference_flag = (data[2] & 0x80) != 0;
    let call_reference_value: u16 = ((data[2] & 0x7F) as u16) * 256 + data[3] as u16;
    let message_type = data[4];
    let message_name = q931_name_text(message_type);
    let mut ies: Vec<InformationElementDebug> = Vec::new();
    let mut offset: usize = 5;
    let ghost d = data@;
    proof {
        assert(ie_views(ies@) + q931_ies(d, 5) =~= q931_ies(d, 5));
    }
    while data.len() > 1 && offset < data.len() - 1
        invariant_except_break
            5 <= offset <= data@.len(),
            ie_views(ies@) + q931_ies(d, offset as int) == q931_ies(d, 5),
        invariant
            d == data@,
        ensures
            ie_views(ies@) == q931_ies(d, 5),
        decreases data.len() - offset,
    {
        let ie_id = data[offset];
        let ie_len = data[offset + 1] as usize;
        if ie_len > data.len() - offset - 2 {
            proof {
                assert(q931_ies(d, offset as int) =~= Seq::<IeView>::empty());
                assert(ie_views(ies@) =~= ie_views(ies@) + q931_ies(d, offset as int));
            }
            break;
        }
        let body = copy_bytes(data, offset + 2, offset + 2 + ie_len);
        let decoded = decode_information_element(ie_id, body.as_slice());
        let e = InformationElementDebug { id: ie_id, name: ie_name_text(ie_id), length: ie_len, data: body, decoded_value: decoded };
        let ghost prev = ies@;
        ies.push(e);
        proof {
            assert(ie_views(ies@) =~= ie_views(prev).push(e@));
            assert(q931_ies(d, offset as int) == seq![e@] + q931_ies(d, offset as int + 2 + ie_len as int));
            assert(ie_views(ies@) + q931_ies(d, offset as int + 2 + ie_len as int) =~= ie_views(prev) + q931_ies(d, offset as int));
        }
        offset = offset + 2 + ie_len;
    }
    proof {
        if !(offset + 1 < data.len()) {
        }
    }
    Q931DebugInfo {
        protocol_discriminator,
        call_reference_flag,
        call_reference_value,
        message_type,
        message_name,
        information_elements: ies,
        cause_value: None,
        progress_indicator: None,
    }
}

/// LAPD frame types
#[derive(Clone, Copy, Debug, PartialEq, Eq, Structural)]
pub enum LapdFrameType {
    Information,
    Supervisory,
    Unnumbered,
}

/// LAPD debug information
pub struct LapdDebugInfo {
    pub address_field: u8,
    pub control_field: u8,
    pub frame_type: LapdFrameType,
    pub command_response: bool,
    pub poll_final: bool,
    /// N(S) and N(R)
    pub sequence_numbers: Option<(u8, u8)>,
    pub supervisory_function: Option<String>,
    pub unnumbered_function: Option<String>,
}

/// The name of a supervisory function by its two bits.
pub open spec fn supervisory_name(ss: u8) -> Seq<char> {
    if ss == 0 { "RR (Receiver Ready)"@ }
    else if ss == 1 { "RNR (Receiver Not Ready)"@ }
    else if ss == 2 { "REJ (Reject)"@ }
    else if ss == 3 { "SREJ (Selective Reject)"@ }
    else { "Unknown"@ }
}

/// Whether `f` decodes the LAPD frame `data`: too short a frame is an empty
/// unnumbered one; otherwise the control field tells an I-frame (low bit
/// clear: N(S) and N(R)), an S-frame (low bits 01: N(R) and the supervisory
/// function) or a U-frame.
pub open spec fn lapd_decodes(data: Seq<u8>, f: LapdDebugInfo) -> bool {
    if data.len() < 2 {
        &&& f.address_field == 0
        &&& f.control_field == 0
        &&& f.frame_type == LapdFrameType::Unnumbered
        &&& !f.command_response
        &&& !f.poll_final
        &&& f.sequence_numbers is None
        &&& f.supervisory_function is None
        &&& f.unnumbered_function is None
    } else {
        let a = data[0];
        let c = data[1];
        &&& f.address_field == a
        &&& f.control_field == c
        &&& f.command_response == ((a & 0x02) != 0)
        &&& f.poll_final == ((c & 0x10) != 0)
        &&& if (c & 0x01) == 0 {
            &&& f.frame_type == LapdFrameType::Information
            &&& f.sequence_numbers == Some((((c >> 1u8) & 0x07) as u8, ((c >> 5u8) & 0x07) as u8))
            &&& f.supervisory_function is None
            &&& f.unnumbered_function is None
        } else if (c & 0x03) == 0x01 {
            &&& f.frame_type == LapdFrameType::Supervisory
            &&& f.sequence_numbers == Some((0u8, ((c >> 5u8) & 0x07) as u8))
            &&& f.supervisory_function matches Some(s) && s@ == supervisory_name(((c >> 2u8) & 0x03) as u8)
            &&& f.unnumbered_function is None
        } else {
            &&& f.frame_type == LapdFrameType::Unnumbered
            &&& f.sequence_numbers is None
            &&& f.supervisory_function is None
            &&& f.unnumbered_function matches Some(s) && s@ == "UI (Unnumbered Information)"@
        }
    }
}

/// The decoded fields of a LAPD frame rebuild its control octet: an
/// I-frame's is N(S) in bits 1 to 3, the poll/final bit 4 and N(R) in bits 5
/// to 7; an S-frame's has low bits 01, its function in bits 2 and 3, the
/// poll/final bit and N(R); a U-frame's has low bits 11. The command/response
/// bit is bit 1 of the address.
pub proof fn law_lapd_fields_rebuild_control(data: Seq<u8>, f: LapdDebugInfo)
    requires
        data.len() >= 2,
        lapd_decodes(data, f),
    ensures
        f.address_field == data[0],
        f.control_field == data[1],
        f.command_response == ((data[0] as int / 2) % 2 == 1),
        f.frame_type == LapdFrameType::Information ==> (f.sequence_numbers matches Some((ns, nr)) && ns < 8 && nr < 8
            && data[1] as int == 2 * ns + 32 * nr + if f.poll_final { 16int } else { 0 }),
        f.frame_type == LapdFrameType::Supervisory ==> (f.sequence_numbers matches Some((z, nr)) && z == 0 && nr < 8
            && exists|ss: int| 0 <= ss < 4 && data[1] as int == 1 + 4 * ss + 32 * nr + (if f.poll_final { 16int } else { 0 })
                && (f.supervisory_function matches Some(t) && t@ == #[trigger] supervisory_name(ss as u8))),
        f.frame_type == LapdFrameType::Unnumbered ==> data[1] % 4 == 3 && f.sequence_numbers is None,
{
    let a: u8 = data[0];
    let c: u8 = data[1];
    assert(((a & 0x02) != 0) == ((a / 2) % 2 == 1)) by (bit_vector);
    assert((c & 0x01) == 0 ==> c == 2 * ((c >> 1u8) & 0x07) + 32 * ((c >> 5u8) & 0x07) + (c & 0x10)) by (bit_vector);
    assert((c & 0x10) == 0 || (c & 0x10) == 16) by (bit_vector);
    assert((c & 0x01) != 0 && (c & 0x03) == 0x01 ==> c == 1 + 4 * ((c >> 2u8) & 0x03) + 32 * ((c >> 5u8) & 0x07) + (c
        & 0x10)) by (bit_vector);
    assert((c & 0x01) != 0 && (c & 0x03) != 0x01 ==> c % 4 == 3) by (bit_vector);
    assert(((c >> 1u8) & 0x07) < 8 && ((c >> 5u8) & 0x07) < 8 && ((c >> 2u8) & 0x03) < 4) by (bit_vector);
    if (c & 0x01) != 0 && (c & 0x03) == 0x01 {
        let ss: int = ((c >> 2u8) & 0x03) as int;
        assert(data[1] as int == 1 + 4 * ss + 32 * (((c >> 5u8) & 0x07) as int) + (if f.poll_final { 16int } else { 0 }));
        assert(supervisory_name(ss as u8) == supervisory_name(((c >> 2u8) & 0x03) as u8));
    }
}

/// Decodes a LAPD frame.
pub fn parse_lapd_frame(data: &[u8]) -> (f: LapdDebugInfo)
    ensures
        lapd_decodes(data@, f),
{
    if data.len() < 2 {
        return LapdDebugInfo {
            address_field: 0,
            control_field: 0,
            frame_type: LapdFrameType::Unnumbered,
            command_response: false,
            poll_final: false,
            sequence_numbers: None,
            supervisory_function: None,
            unnumbered_function: None,
        };
    }
    let a = data[0];
    let c = data[1];
    let command_response = (a & 0x02) != 0;
    let pf = (c & 0x10) != 0;
    if (c & 0x01) == 0 {
        let ns = (c >> 1u8) & 0x07;
        let nr = (c >> 5u8) & 0x07;
        LapdDebugInfo {
            address_field: a,
            control_field: c,
            frame_type: LapdFrameType::Information,
            command_response,
            poll_final: pf,
            sequence_numbers: Some((ns, nr)),
            supervisory_function: None,
            unnumbered_function: None,
        }
    } else if (c & 0x03) == 0x01 {
        let nr = (c >> 5u8) & 0x07;
        let ss = (c >> 2u8) & 0x03;
        let function = if ss == 0 {
            String::from_str("RR (Receiver Ready)")
        } else if ss == 1 {
            String::from_str("RNR (Receiver Not Ready)")
        } else if ss == 2 {
            String::from_str("REJ (Reject)")
        } else if ss == 3 {
            String::from_str("SREJ (Selective Reject)")
        } else {
            String::from_str("Unknown")
        };
        LapdDebugInfo {
            address_field: a,
            control_field: c,
            frame_type: LapdFrameType::Supervisory,
            command_response,
            poll_final: pf,
            sequence_numbers: Some((0, nr)),
            supervisory_function: Some(function),
            unnumbered_function: None,
        }
    } else {
        LapdDebugInfo {
            address_field: a,
            control_field: c,
            frame_type: LapdFrameType::Unnumbered,
            command_response,
            poll_final: pf,
            sequence_numbers: None,
            supervisory_function: None,
            unnumbered_function: Some(String::from_str("UI (Unnumbered Information)")),
        }
    }
}

/// Whether a character is white space (Unicode `White_Space`).
pub open spec fn is_ws(c: char) -> bool {
    c == ' ' || ('\t' <= c && c <= '\r') || c == '\u{85}' || c == '\u{a0}' || c == '\u{1680}'
        || ('\u{2000}' <= c && c <= '\u{200a}') || c == '\u{2028}' || c == '\u{2029}' || c == '\u{202f}'
        || c == '\u{205f}' || c == '\u{3000}'
}

fn is_ws_char(c: char) -> (r: bool)
    ensures
        r == is_ws(c),
{
    c == ' ' || ('\t' <= c && c <= '\r') || c == '\u{85}' || c == '\u{a0}' || c == '\u{1680}'
        || ('\u{2000}' <= c && c <= '\u{200a}') || c == '\u{2028}' || c == '\u{2029}' || c == '\u{202f}'
        || c == '\u{205f}' || c == '\u{3000}'
}

/// The lines of a text from position `i`, with `cur` the part of the current
/// line read so far: lines end at `\n`, a `\r` just before it is dropped, and
/// a last line is kept when it is not empty.
pub open spec fn lines_from(s: Seq<char>, i: int, cur: Seq<char>) -> Seq<Seq<char>>
    decreases s.len() - i,
{
    if i >= s.len() || i < 0 {
        if cur.len() > 0 { seq![cur] } else { Seq::empty() }
    } else if s[i] == '\n' {
        seq![if cur.len() > 0 && cur.last() == '\r' { cur.drop_last() } else { cur }] + lines_from(s, i + 1, Seq::empty())
    } else {
        lines_from(s, i + 1, cur.push(s[i]))
    }
}

/// The lines of a text.
pub open spec fn text_lines(s: Seq<char>) -> Seq<Seq<char>> {
    lines_from(s, 0, Seq::empty())
}

/// The words of a text from position `i`, with `cur` the part of the current
/// word read so far: runs of characters that are not white space.
pub open spec fn words_from(s: Seq<char>, i: int, cur: Seq<char>) -> Seq<Seq<char>>
    decreases s.len() - i,
{
    if i >= s.len() || i < 0 {
        if cur.len() > 0 { seq![cur] } else { Seq::empty() }
    } else if is_ws(s[i]) {
        (if cur.len() > 0 { seq![cur] } else { Seq::empty() }) + words_from(s, i + 1, Seq::empty())
    } else {
        words_from(s, i + 1, cur.push(s[i]))
    }
}

/// The words of a text.
pub open spec fn words(s: Seq<char>) -> Seq<Seq<char>> {
    words_from(s, 0, Seq::empty())
}

/// A text without its leading white space.
pub open spec fn trim_start(s: Seq<char>) -> Seq<char>
    decreases s.len(),
{
    if s.len() > 0 && is_ws(s[0]) { trim_start(s.drop_first()) } else { s }
}

/// A text without its trailing white space.
pub open spec fn trim_end(s: Seq<char>) -> Seq<char>
    decreases s.len(),
{
    if s.len() > 0 && is_ws(s.last()) { trim_end(s.drop_last()) } else { s }
}

/// A text without leading or trailing white space.
pub open spec fn trim(s: Seq<char>) -> Seq<char> {
    trim_end(trim_start(s))
}

/// Words joined with single spaces.
pub open spec fn join_words(ws: Seq<Seq<char>>) -> Seq<char>
    decreases ws.len(),
{
    if ws.len() == 0 { Seq::empty() } else if ws.len() == 1 { ws[0] } else { join_words(ws.drop_last()) + " "@ + ws.last() }
}

/// The value of a run of decimal digits.
pub open spec fn digits_value(s: Seq<char>) -> nat
    decreases s.len(),
{
    if s.len() == 0 { 0 } else { digits_value(s.drop_last()) * 10 + ((s.last() as u32) - 48) as nat }
}

/// Whether every character is a decimal digit.
pub open spec fn all_digits(s: Seq<char>) -> bool {
    forall|i: int| 0 <= i < s.len() ==> '0' <= #[trigger] s[i] && s[i] <= '9'
}

/// An unsigned number as std's `FromStr` reads it: an optional `+`, then one
/// or more decimal digits, whose value must not exceed `max`.
pub open spec fn parse_uint(s: Seq<char>, max: nat) -> Option<nat> {
    let d = if s.len() > 0 && s[0] == '+' { s.drop_first() } else { s };
    if d.len() > 0 && all_digits(d) && digits_value(d) <= max { Some(digits_value(d)) } else { None }
}

/// The position of the first `c` in `s` from `i` on, or the length when there is none.
pub open spec fn find_from(s: Seq<char>, c: char, i: int) -> int
    decreases s.len() - i,
{
    if i >= s.len() || i < 0 { s.len() as int } else if s[i] == c { i } else { find_from(s, c, i + 1) }
}

/// RTP header fields as a debug view shows them.
#[derive(Clone, Copy, Debug, PartialEq, Eq, Structural)]
pub struct RtpDebugInfo {
    pub version: u8,
    pub padding: bool,
    pub extension: bool,
    pub csrc_count: u8,
    pub marker: bool,
    pub payload_type: u8,
    pub sequence_number: u16,
    pub timestamp: u32,
    pub ssrc: u32,
    pub payload_size: usize,
}

/// SIP-specific debug information
pub struct SipDebugInfo {
    pub method: Option<String>,
    pub response_code: Option<u16>,
    pub response_phrase: Option<String>,
    pub from_header: Option<String>,
    pub to_header: Option<String>,
    pub via_headers: Vec<String>,
    pub contact_header: Option<String>,
    pub user_agent: Option<String>,
    pub content_type: Option<String>,
    pub content_length: usize,
    pub cseq: Option<String>,
}

/// SIP debug information as a mathematical value.
pub struct SipInfoView {
    pub method: Option<Seq<char>>,
    pub response_code: Option<u16>,
    pub response_phrase: Option<Seq<char>>,
    pub from_header: Option<Seq<char>>,
    pub to_header: Option<Seq<char>>,
    pub via_headers: Seq<Seq<char>>,
    pub contact_header: Option<Seq<char>>,
    pub user_agent: Option<Seq<char>>,
    pub content_type: Option<Seq<char>>,
    pub content_length: nat,
    pub cseq: Option<Seq<char>>,
}

/// The text of an optional string.
pub open spec fn opt_view(o: Option<String>) -> Option<Seq<char>> {
    match o {
        Some(s) => Some(s@),
        None => None,
    }
}

impl View for SipDebugInfo {
    type V = SipInfoView;

    open spec fn view(&self) -> SipInfoView {
        SipInfoView {
            method: opt_view(self.method),
            response_code: self.response_code,
            response_phrase: opt_view(self.response_phrase),
            from_header: opt_view(self.from_header),
            to_header: opt_view(self.to_header),
            via_headers: self.via_headers@.map_values(|v: String| v@),
            contact_header: opt_view(self.contact_header),
            user_agent: opt_view(self.user_agent),
            content_type: opt_view(self.content_type),
            content_length: self.content_length as nat,
            cseq: opt_view(self.cseq),
        }
    }
}

/// What the start line of a SIP message gives: for a response (`SIP/2.0 ...`)
/// with a numeric status code, the code and the reason phrase; for a request,
/// its first word as the method.
pub open spec fn start_line_info(first: Seq<char>) -> SipInfoView {
    let w = words(first);
    let empty = SipInfoView {
        method: None,
        response_code: None,
        response_phrase: None,
        from_header: None,
        to_header: None,
        via_headers: Seq::empty(),
        contact_header: None,
        user_agent: None,
        content_type: None,
        content_length: 0,
        cseq: None,
    };
    if first.len() >= 7 && first.subrange(0, 7) == "SIP/2.0"@ {
        if w.len() >= 3 && parse_uint(w[1], 65535) is Some {
            SipInfoView {
                response_code: Some(parse_uint(w[1], 65535)->0 as u16),
                response_phrase: Some(join_words(w.subrange(2, w.len() as int))),
                ..empty
            }
        } else {
            empty
        }
    } else if w.len() > 0 {
        SipInfoView { method: Some(w[0]), ..empty }
    } else {
        empty
    }
}

/// What one header line sets: the value of a known header (by full or compact
/// name, any case), trimmed; `Via` values are collected; a content length that
/// is not a number counts as zero. Lines without a colon are ignored.
pub open spec fn apply_header(v: SipInfoView, line: Seq<char>) -> SipInfoView {
    let c = find_from(line, ':', 0);
    if c >= line.len() {
        v
    } else {
        let name = trim(line.subrange(0, c));
        let value = trim(line.subrange(c + 1, line.len() as int));
        if equals_ignoring_case(name, "from"@) || equals_ignoring_case(name, "f"@) {
            SipInfoView { from_header: Some(value), ..v }
        } else if equals_ignoring_case(name, "to"@) || equals_ignoring_case(name, "t"@) {
            SipInfoView { to_header: Some(value), ..v }
        } else if equals_ignoring_case(name, "via"@) || equals_ignoring_case(name, "v"@) {
            SipInfoView { via_headers: v.via_headers.push(value), ..v }
        } else if equals_ignoring_case(name, "contact"@) || equals_ignoring_case(name, "m"@) {
            SipInfoView { contact_header: Some(value), ..v }
        } else if equals_ignoring_case(name, "user-agent"@) {
            SipInfoView { user_agent: Some(value), ..v }
        } else if equals_ignoring_case(name, "content-type"@) || equals_ignoring_case(name, "c"@) {
            SipInfoView { content_type: Some(value), ..v }
        } else if equals_ignoring_case(name, "content-length"@) || equals_ignoring_case(name, "l"@) {
            SipInfoView {
                content_length: match parse_uint(value, usize::MAX as nat) {
                    Some(n) => n,
                    None => 0,
                },
                ..v
            }
        } else if equals_ignoring_case(name, "cseq"@) {
            SipInfoView { cseq: Some(value), ..v }
        } else {
            v
        }
    }
}

/// The header lines applied in order.
pub open spec fn apply_headers(v: SipInfoView, hs: Seq<Seq<char>>) -> SipInfoView
    decreases hs.len(),
{
    if hs.len() == 0 { v } else { apply_header(apply_headers(v, hs.drop_last()), hs.last()) }
}

/// Header lines never touch what the start line gave (method, status code
/// and phrase); each adds at most one `Via` value after those already
/// collected; and a line without a colon changes nothing.
pub proof fn law_headers_keep_start_line(v: SipInfoView, hs: Seq<Seq<char>>)
    ensures
        apply_headers(v, hs).method == v.method,
        apply_headers(v, hs).response_code == v.response_code,
        apply_headers(v, hs).response_phrase == v.response_phrase,
        v.via_headers.len() <= apply_headers(v, hs).via_headers.len() <= v.via_headers.len() + hs.len(),
        apply_headers(v, hs).via_headers.subrange(0, v.via_headers.len() as int) == v.via_headers,
        forall|i: int| 0 <= i < hs.len() ==> find_from(#[trigger] hs[i], ':', 0) >= hs[i].len() ==> apply_header(v, hs[i]) == v,
    decreases hs.len(),
{
    if hs.len() > 0 {
        let t = hs.drop_last();
        law_headers_keep_start_line(v, t);
        let u = apply_headers(v, t);
        let w = apply_header(u, hs.last());
        assert(w.via_headers == u.via_headers || w.via_headers == u.via_headers.push(trim(
            hs.last().subrange(find_from(hs.last(), ':', 0) + 1, hs.last().len() as int),
        )));
        assert(w.via_headers.subrange(0, v.via_headers.len() as int) =~= u.via_headers.subrange(0, v.via_headers.len() as int));
    } else {
        assert(v.via_headers.subrange(0, v.via_headers.len() as int) =~= v.via_headers);
    }
}

/// The position of the first empty line from `i` on, or the number of lines.
pub open spec fn first_empty_line(ls: Seq<Seq<char>>, i: int) -> int
    decreases ls.len() - i,
{
    if i >= ls.len() || i < 0 { ls.len() as int } else if ls[i].len() == 0 { i } else { first_empty_line(ls, i + 1) }
}

/// What a SIP message says: its start line, then the headers up to the first empty line.
pub open spec fn sip_info(message: Seq<char>) -> SipInfoView {
    let ls = text_lines(message);
    apply_headers(start_line_info(ls[0]), ls.subrange(1, first_empty_line(ls, 1)))
}

/// The views of a list of character lists.
pub open spec fn char_views(v: Seq<Vec<char>>) -> Seq<Seq<char>> {
    v.map_values(|l: Vec<char>| l@)
}

fn string_of(cs: &[char]) -> (r: String)
    ensures
        r@ == cs@,
{
    let mut r = String::new();
    let mut i: usize = 0;
    while i < cs.len()
        invariant
            i <= cs@.len(),
            r@ == cs@.subrange(0, i as int),
        decreases cs@.len() - i,
    {
        push_char(&mut r, cs[i]);
        i = i + 1;
        proof {
            assert(r@ =~= cs@.subrange(0, i as int));
        }
    }
    proof {
        assert(cs@.subrange(0, cs@.len() as int) =~= cs@);
    }
    r
}

/// The characters of `s` from `a` up to `b`.
pub fn slice_chars_pub(s: &[char], a: usize, b: usize) -> (r: Vec<char>)
    requires
        a <= b <= s@.len(),
    ensures
        r@ == s@.subrange(a as int, b as int),
{
    slice_chars(s, a, b)
}

fn slice_chars(s: &[char], a: usize, b: usize) -> (r: Vec<char>)
    requires
        a <= b <= s@.len(),
    ensures
        r@ == s@.subrange(a as int, b as int),
{
    let mut r: Vec<char> = Vec::new();
    let mut i = a;
    while i < b
        invariant
            a <= i <= b,
            b <= s@.len(),
            r@ == s@.subrange(a as int, i as int),
        decreases b - i,
    {
        r.push(s[i]);
        i = i + 1;
        proof {
            assert(r@ =~= s@.subrange(a as int, i as int));
        }
    }
    r
}

/// Splits a text into lines, as `str::lines` does.
pub fn split_lines(s: &[char]) -> (r: Vec<Vec<char>>)
    ensures
        char_views(r@) == text_lines(s@),
{
    let mut acc: Vec<Vec<char>> = Vec::new();
    let mut cur: Vec<char> = Vec::new();
    let mut i: usize = 0;
    proof {
        assert(char_views(acc@) + lines_from(s@, 0, cur@) =~= text_lines(s@));
    }
    while i < s.len()
        invariant
            i <= s@.len(),
            char_views(acc@) + lines_from(s@, i as int, cur@) == text_lines(s@),
        decreases s@.len() - i,
    {
        let ghost prev = acc@;
        let ghost cv = cur@;
        if s[i] == '\n' {
            let mut line = cur;
            if line.len() > 0 && line[line.len() - 1] == '\r' {
                line.pop();
            }
            let ghost lv = line@;
            proof {
                assert(lv == if cv.len() > 0 && cv.last() == '\r' { cv.drop_last() } else { cv });
            }
            acc.push(line);
            cur = Vec::new();
            proof {
                assert(char_views(acc@) =~= char_views(prev).push(lv));
                assert(char_views(acc@) + lines_from(s@, i as int + 1, cur@) =~= char_views(prev) + lines_from(s@, i as int, cv));
            }
        } else {
            cur.push(s[i]);
        }
        i = i + 1;
    }
    let ghost prev = acc@;
    let ghost cv = cur@;
    if cur.len() > 0 {
        acc.push(cur);
        proof {
            assert(char_views(acc@) =~= char_views(prev).push(cv));
        }
    }
    proof {
        assert(char_views(acc@) =~= text_lines(s@));
    }
    acc
}

/// Splits a text into its words, as `str::split_whitespace` does.
pub fn split_words(s: &[char]) -> (r: Vec<Vec<char>>)
    ensures
        char_views(r@) == words(s@),
{
    let mut acc: Vec<Vec<char>> = Vec::new();
    let mut cur: Vec<char> = Vec::new();
    let mut i: usize = 0;
    proof {
        assert(char_views(acc@) + words_from(s@, 0, cur@) =~= words(s@));
    }
    while i < s.len()
        invariant
            i <= s@.len(),
            char_views(acc@) + words_from(s@, i as int, cur@) == words(s@),
        decreases s@.len() - i,
    {
        let ghost prev = acc@;
        let ghost cv = cur@;
        if is_ws_char(s[i]) {
            if cur.len() > 0 {
                acc.push(cur);
                cur = Vec::new();
                proof {
                    assert(char_views(acc@) =~= char_views(prev).push(cv));
                }
            }
            proof {
                assert(cur@ =~= Seq::<char>::empty());
                assert(char_views(acc@) + words_from(s@, i as int + 1, cur@) =~= char_views(prev) + words_from(s@, i as int, cv));
            }
        } else {
            cur.push(s[i]);
        }
        i = i + 1;
    }
    let ghost prev = acc@;
    let ghost cv = cur@;
    if cur.len() > 0 {
        acc.push(cur);
        proof {
            assert(char_views(acc@) =~= char_views(prev).push(cv));
        }
    }
    proof {
        assert(char_views(acc@) =~= words(s@));
    }
    acc
}

/// A text without leading or trailing white space.
pub fn trim_chars(s: &[char]) -> (r: Vec<char>)
    ensures
        r@ == trim(s@),
{
    let n = s.len();
    let mut a: usize = 0;
    proof {
        assert(s@.subrange(0, n as int) =~= s@);
    }
    while a < n && is_ws_char(s[a])
        invariant
            n == s@.len(),
            a <= n,
            trim_start(s@) == trim_start(s@.subrange(a as int, n as int)),
        decreases n - a,
    {
        proof {
            assert(s@.subrange(a as int, n as int).drop_first() =~= s@.subrange(a as int + 1, n as int));
        }
        a = a + 1;
    }
    let ghost t = s@.subrange(a as int, n as int);
    proof {
        assert(trim_start(t) == t);
    }
    let mut b: usize = n;
    while b > a && is_ws_char(s[b - 1])
        invariant
            n == s@.len(),
            a <= b <= n,
            t == s@.subrange(a as int, n as int),
            trim_end(t) == trim_end(s@.subrange(a as int, b as int)),
        decreases b - a,
    {
        proof {
            assert(s@.subrange(a as int, b as int).drop_last() =~= s@.subrange(a as int, b as int - 1));
        }
        b = b - 1;
    }
    proof {
        assert(trim_end(s@.subrange(a as int, b as int)) == s@.subrange(a as int, b as int));
    }
    slice_chars(s, a, b)
}

proof fn lemma_digits_grow(d: Seq<char>)
    requires
        d.len() > 0,
    ensures
        digits_value(d) >= digits_value(d.drop_last()) * 10,
{
}

/// Reads an unsigned number as std's `FromStr` does, refusing values over `max`.
pub fn parse_uint_chars(s: &[char], max: u64) -> (r: Option<u64>)
    ensures
        match r {
            Some(v) => parse_uint(s@, max as nat) == Some(v as nat),
            None => parse_uint(s@, max as nat) is None,
        },
{
    let n = s.len();
    let start: usize = if n > 0 && s[0] == '+' { 1 } else { 0 };
    let ghost d = if s@.len() > 0 && s@[0] == '+' { s@.drop_first() } else { s@ };
    proof {
        assert(d =~= s@.subrange(start as int, n as int));
    }
    if start >= n {
        return None;
    }
    let mut acc: u64 = 0;
    let mut over = false;
    let mut k: usize = start;
    proof {
        assert(s@.subrange(start as int, start as int) =~= Seq::<char>::empty());
    }
    while k < n
        invariant
            start <= k <= n,
            n == s@.len(),
            d == s@.subrange(start as int, n as int),
            d == (if s@.len() > 0 && s@[0] == '+' { s@.drop_first() } else { s@ }),
            all_digits(s@.subrange(start as int, k as int)),
            !over ==> acc == digits_value(s@.subrange(start as int, k as int)) && acc <= max,
            over ==> digits_value(s@.subrange(start as int, k as int)) > max,
        decreases n - k,
    {
        let c = s[k];
        if !('0' <= c && c <= '9') {
            proof {
                assert(d[k - start] == c);
                assert(!all_digits(d));
                assert(parse_uint(s@, max as nat) is None);
            }
            return None;
        }
        let ghost pre = s@.subrange(start as int, k as int);
        let ghost post = s@.subrange(start as int, k as int + 1);
        proof {
            assert(post.drop_last() =~= pre);
            assert(post.last() == c);
            lemma_digits_grow(post);
        }
        if !over {
            let next: u128 = (acc as u128) * 10 + ((c as u32) - 48) as u128;
            if next > max as u128 {
                over = true;
            } else {
                acc = next as u64;
            }
        }
        k = k + 1;
    }
    proof {
        assert(s@.subrange(start as int, n as int) == d);
    }
    if over {
        None
    } else {
        Some(acc)
    }
}

fn find_char(s: &[char], c: char) -> (r: usize)
    ensures
        r as int == find_from(s@, c, 0),
        r <= s@.len(),
{
    let mut i: usize = 0;
    while i < s.len() && s[i] != c
        invariant
            i <= s@.len(),
            find_from(s@, c, 0) == find_from(s@, c, i as int),
        decreases s@.len() - i,
    {
        i = i + 1;
    }
    i
}

fn join_words_from(ws: &Vec<Vec<char>>, from: usize) -> (r: String)
    requires
        from <= ws@.len(),
    ensures
        r@ == join_words(char_views(ws@).subrange(from as int, ws@.len() as int)),
{
    let mut r = String::new();
    let mut i = from;
    proof {
        assert(char_views(ws@).subrange(from as int, from as int) =~= Seq::<Seq<char>>::empty());
    }
    while i < ws.len()
        invariant
            from <= i <= ws@.len(),
            r@ == join_words(char_views(ws@).subrange(from as int, i as int)),
        decreases ws@.len() - i,
    {
        let ghost sub = char_views(ws@).subrange(from as int, i as int + 1);
        proof {
            assert(sub.drop_last() =~= char_views(ws@).subrange(from as int, i as int));
            reveal_strlit(" ");
        }
        if i > from {
            r.append(" ");
        }
        let w = string_of(ws[i].as_slice());
        r.append(w.as_str());
        proof {
            assert(r@ =~= join_words(sub));
        }
        i = i + 1;
    }
    r
}

fn starts_with_chars(s: &[char], p: &str) -> (r: bool)
    ensures
        r == (s@.len() >= p@.len() && s@.subrange(0, p@.len() as int) == p@),
{
    let pc = chars_of(p);
    if s.len() < pc.len() {
        return false;
    }
    let mut i: usize = 0;
    while i < pc.len()
        invariant
            pc@ == p@,
            s@.len() >= pc@.len(),
            i <= pc@.len(),
            forall|j: int| 0 <= j < i ==> s@[j] == pc@[j],
        decreases pc@.len() - i,
    {
        if s[i] != pc[i] {
            return false;
        }
        i = i + 1;
    }
    proof {
        assert(s@.subrange(0, p@.len() as int) =~= p@);
    }
    true
}

fn is_word(name: &Vec<char>, w: &str) -> (r: bool)
    ensures
        r == equals_ignoring_case(name@, w@),
{
    let wc = chars_of(w);
    matches_word(name.as_slice(), wc.as_slice())
}

/// Applies one header line of a SIP message.
pub fn apply_header_line(info: &mut SipDebugInfo, line: &Vec<char>)
    ensures
        final(info)@ == apply_header(old(info)@, line@),
{
    let c = find_char(line.as_slice(), ':');
    if c >= line.len() {
        return;
    }
    let raw_name = slice_chars(line.as_slice(), 0, c);
    let raw_value = slice_chars(line.as_slice(), c + 1, line.len());
    let name = trim_chars(raw_name.as_slice());
    let value_chars = trim_chars(raw_value.as_slice());
    let value = string_of(value_chars.as_slice());
    if is_word(&name, "from") || is_word(&name, "f") {
        info.from_header = Some(value);
    } else if is_word(&name, "to") || is_word(&name, "t") {
        info.to_header = Some(value);
    } else if is_word(&name, "via") || is_word(&name, "v") {
        let ghost prev = info.via_headers@;
        let ghost vv = value@;
        info.via_headers.push(value);
        proof {
            assert(info.via_headers@.map_values(|v: String| v@) =~= prev.map_values(|v: String| v@).push(vv));
        }
    } else if is_word(&name, "contact") || is_word(&name, "m") {
        info.contact_header = Some(value);
    } else if is_word(&name, "user-agent") {
        info.user_agent = Some(value);
    } else if is_word(&name, "content-type") || is_word(&name, "c") {
        info.content_type = Some(value);
    } else if is_word(&name, "content-length") || is_word(&name, "l") {
        info.content_length = match parse_uint_chars(value_chars.as_slice(), usize::MAX as u64) {
            Some(n) => n as usize,
            None => 0,
        };
    } else if is_word(&name, "cseq") {
        info.cseq = Some(value);
    }
    proof {
        assert(final(info)@ == apply_header(old(info)@, line@)) by {
            assert(info@.via_headers =~= apply_header(old(info)@, line@).via_headers);
        }
    }
}

proof fn lemma_lines_nonempty(s: Seq<char>, i: int, cur: Seq<char>)
    requires
        cur.len() > 0 || 0 <= i < s.len(),
    ensures
        lines_from(s, i, cur).len() > 0,
    decreases s.len() - i,
{
    if i >= s.len() || i < 0 {
    } else if s[i] == '\n' {
    } else {
        lemma_lines_nonempty(s, i + 1, cur.push(s[i]));
    }
}

/// Decodes a SIP message: its start line, then its headers up to the first
/// empty line. An empty message has no start line and is not accepted.
pub fn parse_sip_message(message: &str) -> (r: SipDebugInfo)
    requires
        message@.len() > 0,
    ensures
        r@ == sip_info(message@),
{
    let cs = chars_of(message);
    let ls = split_lines(cs.as_slice());
    proof {
        lemma_lines_nonempty(cs@, 0, Seq::empty());
    }
    let ghost lv = char_views(ls@);
    let first = &ls[0];
    let w = split_words(first.as_slice());
    let mut info = SipDebugInfo {
        method: None,
        response_code: None,
        response_phrase: None,
        from_header: None,
        to_header: None,
        via_headers: Vec::new(),
        contact_header: None,
        user_agent: None,
        content_type: None,
        content_length: 0,
        cseq: None,
    };
    if starts_with_chars(first.as_slice(), "SIP/2.0") {
        if w.len() >= 3 {
            match parse_uint_chars(w[1].as_slice(), 65535) {
                Some(code) => {
                    info.response_code = Some(code as u16);
                    info.response_phrase = Some(join_words_from(&w, 2));
                },
                None => {},
            }
        }
    } else if w.len() > 0 {
        info.method = Some(string_of(w[0].as_slice()));
    }
    proof {
        reveal_strlit("SIP/2.0");
        assert(info@.via_headers =~= Seq::<Seq<char>>::empty());
        assert(info@ == start_line_info(lv[0]));
        assert(lv.subrange(1, 1) =~= Seq::<Seq<char>>::empty());
    }
    let ghost start = info@;
    let mut i: usize = 1;
    while i < ls.len() && ls[i].len() > 0
        invariant
            lv == char_views(ls@),
            1 <= i <= ls@.len(),
            info@ == apply_headers(start, lv.subrange(1, i as int)),
            first_empty_line(lv, 1) == first_empty_line(lv, i as int),
        decreases ls@.len() - i,
    {
        apply_header_line(&mut info, &ls[i]);
        proof {
            assert(lv.subrange(1, i as int + 1).drop_last() =~= lv.subrange(1, i as int));
        }
        i = i + 1;
    }
    info
}

/// Message direction
#[derive(Clone, Copy, Debug, PartialEq, Eq, Structural)]
pub enum MessageDirection {
    Incoming,
    Outgoing,
    Internal,
}

/// Protocol type
#[derive(Clone, Copy, Debug, PartialEq, Eq, Structural)]
pub enum ProtocolType {
    Sip,
    Q931,
    Lapd,
    Rtp,
    Rtcp,
}

/// One decoded field of a captured message.
pub struct FieldEntry {
    pub key: String,
    pub value: String,
}

impl Keyed for FieldEntry {
    open spec fn key(&self) -> Seq<char> {
        self.key@
    }

    fn key_text(&self) -> (r: &String) {
        &self.key
    }
}

/// A captured message; addresses are kept as text.
pub struct DebugMessage {
    pub id: u64,
    pub timestamp_ms: i64,
    pub protocol: ProtocolType,
    pub direction: MessageDirection,
    pub span_id: Option<u32>,
    pub channel_id: Option<u8>,
    pub source: Option<String>,
    pub destination: Option<String>,
    pub call_reference: Option<u16>,
    pub call_id: Option<String>,
    pub message_type: String,
    pub content: Option<String>,
    pub raw_data: Option<Vec<u8>>,
    pub parsed_fields: KeyedList<FieldEntry>,
    pub size: usize,
}

/// Debug configuration
pub struct DebugConfig {
    pub sip_debug_enabled: bool,
    pub tdm_debug_enabled: bool,
    pub rtp_debug_enabled: bool,
    pub max_history_size: usize,
    pub capture_content: bool,
    pub filter_patterns: Vec<String>,
}

impl Default for DebugConfig {
    /// All debugging off, ten thousand messages kept, content captured, no filter.
    fn default() -> (r: Self)
        ensures
            !r.sip_debug_enabled,
            !r.tdm_debug_enabled,
            !r.rtp_debug_enabled,
            r.max_history_size == 10000,
            r.capture_content,
            r.filter_patterns@.len() == 0,
    {
        DebugConfig {
            sip_debug_enabled: false,
            tdm_debug_enabled: false,
            rtp_debug_enabled: false,
            max_history_size: 10000,
            capture_content: true,
            filter_patterns: Vec::new(),
        }
    }
}

/// Whether `p` occurs in `s`.
pub open spec fn contains_text(s: Seq<char>, p: Seq<char>) -> bool {
    exists|i: int| 0 <= i && i + p.len() <= s.len() && #[trigger] s.subrange(i, i + p.len()) == p
}

/// Whether `p` occurs in `s`.
pub fn text_contains(s: &str, p: &str) -> (r: bool)
    ensures
        r == contains_text(s@, p@),
{
    let sc = chars_of(s);
    let pc = chars_of(p);
    if pc.len() > sc.len() {
        return false;
    }
    let mut i: usize = 0;
    while i <= sc.len() - pc.len()
        invariant
            sc@ == s@,
            pc@ == p@,
            pc@.len() <= sc@.len(),
            i <= sc@.len() - pc@.len() + 1,
            forall|k: int| 0 <= k < i ==> #[trigger] sc@.subrange(k, k + pc@.len()) != pc@,
        decreases sc@.len() - i,
    {
        let mut j: usize = 0;
        while j < pc.len()
            invariant_except_break
                sc@ == s@,
                pc@ == p@,
                i + pc@.len() <= sc.len(),
                j <= pc@.len(),
                forall|m: int| 0 <= m < j ==> sc@[i + m] == pc@[m],
            invariant
                j <= pc@.len(),
            ensures
                j <= pc@.len(),
                forall|m: int| 0 <= m < j ==> sc@[i + m] == pc@[m],
                j < pc@.len() ==> sc@[i + j] != pc@[j as int],
            decreases pc@.len() - j,
        {
            let a = i + j;
            if sc[a] != pc[j] {
                break;
            }
            j = j + 1;
        }
        if j == pc.len() {
            proof {
                assert(sc@.subrange(i as int, i + pc@.len()) =~= pc@);
            }
            return true;
        }
        proof {
            assert(sc@.subrange(i as int, i + pc@.len())[j as int] != pc@[j as int]);
        }
        i = i + 1;
    }
    proof {
        assert forall|k: int| 0 <= k && k + p@.len() <= s@.len() implies #[trigger] s@.subrange(k, k + p@.len()) != p@ by {
            assert(k < i);
        }
    }
    false
}

/// The texts of a message that a filter pattern is looked for in: its type,
/// its call id and the values of its decoded fields.
pub open spec fn message_matches(m: DebugMessage, patterns: Seq<String>) -> bool {
    patterns.len() == 0 || exists|i: int| 0 <= i < patterns.len() && {
        let p = #[trigger] patterns[i]@;
        ||| contains_text(m.message_type@, p)
        ||| (m.call_id matches Some(c) && contains_text(c@, p))
        ||| exists|j: int| 0 <= j < m.parsed_fields.seq().len() && contains_text(#[trigger] m.parsed_fields.seq()[j].value@, p)
    }
}

/// Whether a message passes the filter patterns: it does when there are none,
/// or when one of them occurs in its type, its call id or a field value.
pub fn message_matches_filters(message: &DebugMessage, patterns: &Vec<String>) -> (r: bool)
    ensures
        r == message_matches(*message, patterns@),
{
    if patterns.len() == 0 {
        return true;
    }
    let fields = message.parsed_fields.items();
    let mut i: usize = 0;
    while i < patterns.len()
        invariant
            fields@ == message.parsed_fields.seq(),
            i <= patterns@.len(),
            patterns@.len() > 0,
            forall|k: int| 0 <= k < i ==> !({
                let p = #[trigger] patterns@[k]@;
                ||| contains_text(message.message_type@, p)
                ||| (message.call_id matches Some(c) && contains_text(c@, p))
                ||| exists|j: int| 0 <= j < message.parsed_fields.seq().len() && contains_text(#[trigger] message.parsed_fields.seq()[j].value@, p)
            }),
        decreases patterns@.len() - i,
    {
        let p = patterns[i].as_str();
        if text_contains(message.message_type.as_str(), p) {
            return true;
        }
        match &message.call_id {
            Some(c) => {
                if text_contains(c.as_str(), p) {
                    return true;
                }
            },
            None => {},
        }
        let mut j: usize = 0;
        while j < fields.len()
            invariant
                fields@ == message.parsed_fields.seq(),
                j <= fields@.len(),
                i < patterns@.len(),
                p@ == patterns@[i as int]@,
                forall|q: int| 0 <= q < j ==> !contains_text(#[trigger] fields@[q].value@, p@),
            decreases fields@.len() - j,
        {
            if text_contains(fields[j].value.as_str(), p) {
                proof {
                    assert(contains_text(message.parsed_fields.seq()[j as int].value@, patterns@[i as int]@));
                }
                return true;
            }
            j = j + 1;
        }
        i = i + 1;
    }
    false
}

/// B-channel states
#[derive(Clone, Copy, Debug, PartialEq, Eq, Structural)]
pub enum BChannelState {
    Idle,
    Seized,
    Dialing,
    Proceeding,
    Alerting,
    Connected,
    Disconnecting,
    OutOfService,
    Maintenance,
    Blocked,
}

/// Channel quality; loss in thousandths of a percent, times in microseconds,
/// the opinion score in hundredths.
#[derive(Clone, Copy, Debug, PartialEq, Eq, Structural)]
pub struct ChannelQualityMetrics {
    pub packet_loss_milli_percent: u32,
    pub jitter_us: u64,
    pub round_trip_time_us: u64,
    pub mos_score_centi: Option<u32>,
    pub error_count: u32,
}

/// The state of one B-channel.
pub struct BChannelStatus {
    pub span_id: u32,
    pub channel_id: u8,
    pub state: BChannelState,
    pub call_reference: Option<u16>,
    pub call_id: Option<String>,
    pub caller_number: Option<String>,
    pub called_number: Option<String>,
    pub connect_ms: Option<i64>,
    pub disconnect_ms: Option<i64>,
    pub duration_ms: Option<u64>,
    pub codec: Option<String>,
    pub quality_metrics: ChannelQualityMetrics,
    pub last_activity_ms: i64,
}

/// The key of a channel: span and channel number together.
pub open spec fn channel_key(span_id: u32, channel_id: u8) -> u128 {
    ((span_id as int) * 256 + channel_id as int) as u128
}

impl NumKeyed for BChannelStatus {
    open spec fn key(&self) -> u128 {
        channel_key(self.span_id, self.channel_id)
    }

    fn key_num(&self) -> (r: u128) {
        (self.span_id as u128) * 256 + self.channel_id as u128
    }
}

/// The number of messages of `h` with a protocol.
pub open spec fn count_protocol(h: Seq<DebugMessage>, p: ProtocolType) -> nat
    decreases h.len(),
{
    if h.len() == 0 { 0 } else { count_protocol(h.drop_last(), p) + if h.last().protocol == p { 1nat } else { 0nat } }
}

/// The number of channels of `c` in a state.
pub open spec fn count_state(c: Seq<BChannelStatus>, st: BChannelState) -> nat
    decreases c.len(),
{
    if c.len() == 0 { 0 } else { count_state(c.drop_last(), st) + if c.last().state == st { 1nat } else { 0nat } }
}

/// Messages by protocol.
#[derive(Clone, Copy, Debug, PartialEq, Eq, Structural)]
pub struct ProtocolCounts {
    pub sip: u64,
    pub q931: u64,
    pub lapd: u64,
    pub rtp: u64,
    pub rtcp: u64,
}

/// Channels by state.
#[derive(Clone, Copy, Debug, PartialEq, Eq, Structural)]
pub struct StateCounts {
    pub idle: u64,
    pub seized: u64,
    pub dialing: u64,
    pub proceeding: u64,
    pub alerting: u64,
    pub connected: u64,
    pub disconnecting: u64,
    pub out_of_service: u64,
    pub maintenance: u64,
    pub blocked: u64,
}

/// Debug statistics
#[derive(Clone, Copy, Debug, PartialEq, Eq, Structural)]
pub struct DebugStatistics {
    pub total_messages: u64,
    pub messages_by_protocol: ProtocolCounts,
    pub active_channels: u64,
    pub channels_by_state: StateCounts,
    pub oldest_message_ms: Option<i64>,
    pub newest_message_ms: Option<i64>,
}

/// The last `n` elements of `s` (all of them when there are fewer).
pub open spec fn last_n<T>(s: Seq<T>, n: nat) -> Seq<T> {
    if s.len() > n { s.subrange(s.len() - n, s.len() as int) } else { s }
}

fn drop_oldest<T>(h: &mut Vec<T>, max: usize)
    ensures
        final(h)@ == last_n(old(h)@, max as nat),
{
    let ghost full = h@;
    while h.len() > max
        invariant
            h@.len() <= full.len(),
            h@ == full.subrange(full.len() - h@.len(), full.len() as int),
            h@.len() == full.len() || h@.len() >= max,
        decreases h@.len(),
    {
        h.remove(0);
        proof {
            assert(h@ =~= full.subrange(full.len() - h@.len(), full.len() as int));
        }
    }
    proof {
        if full.len() <= max {
            assert(h@ =~= full);
        }
    }
}

/// The history after a captured message: kept when it passes the filters,
/// then cut to the newest `max` messages.
pub open spec fn history_after(h: Seq<DebugMessage>, m: DebugMessage, patterns: Seq<String>, max: nat) -> Seq<DebugMessage> {
    if message_matches(m, patterns) { last_n(h.push(m), max) } else { h }
}

/// The debug service: settings, the history of captured messages (oldest
/// first), the state of each B-channel and the last message id given out.
pub struct DebugService {
    pub config: DebugConfig,
    pub message_history: Vec<DebugMessage>,
    pub channel_status: NumKeyedList<BChannelStatus>,
    pub message_counter: u64,
    pub is_running: bool,
}

impl DebugService {
    /// Channels are distinct and the history within its bound.
    pub open spec fn wf(&self) -> bool {
        &&& self.channel_status.wf()
        &&& self.message_history@.len() <= self.config.max_history_size
    }

    /// A stopped service with no history.
    pub fn new(config: DebugConfig) -> (r: Self)
        ensures
            r.wf(),
            r.config == config,
            r.message_history@.len() == 0,
            r.channel_status.view() == Map::<u128, BChannelStatus>::empty(),
            r.message_counter == 0,
            !r.is_running,
    {
        DebugService { config, message_history: Vec::new(), channel_status: NumKeyedList::new(), message_counter: 0, is_running: false }
    }

    /// Starts the service.
    pub fn start(&mut self) -> (r: GatewayResult<()>)
        ensures
            r is Ok,
            final(self).is_running,
            final(self).config == old(self).config,
            final(self).message_history == old(self).message_history,
            final(self).channel_status == old(self).channel_status,
            final(self).message_counter == old(self).message_counter,
    {
        self.is_running = true;
        Ok(())
    }

    /// Stops the service.
    pub fn stop(&mut self) -> (r: GatewayResult<()>)
        ensures
            r is Ok,
            !final(self).is_running,
            final(self).config == old(self).config,
            final(self).message_history == old(self).message_history,
            final(self).channel_status == old(self).channel_status,
            final(self).message_counter == old(self).message_counter,
    {
        self.is_running = false;
        Ok(())
    }

    /// Whether the service runs.
    pub fn is_running(&self) -> (r: bool)
        ensures
            r == self.is_running,
    {
        self.is_running
    }

    /// Turns SIP debugging on or off.
    pub fn set_sip_debug(&mut self, enabled: bool) -> (r: GatewayResult<()>)
        ensures
            r is Ok,
            final(self).config.sip_debug_enabled == enabled,
            final(self).config.tdm_debug_enabled == old(self).config.tdm_debug_enabled,
            final(self).config.rtp_debug_enabled == old(self).config.rtp_debug_enabled,
            final(self).config.max_history_size == old(self).config.max_history_size,
            final(self).config.capture_content == old(self).config.capture_content,
            final(self).config.filter_patterns == old(self).config.filter_patterns,
            final(self).message_history == old(self).message_history,
            final(self).channel_status == old(self).channel_status,
            final(self).message_counter == old(self).message_counter,
            final(self).is_running == old(self).is_running,
    {
        self.config.sip_debug_enabled = enabled;
        Ok(())
    }

    /// Turns TDM (Q.931 and LAPD) debugging on or off.
    pub fn set_tdm_debug(&mut self, enabled: bool) -> (r: GatewayResult<()>)
        ensures
            r is Ok,
            final(self).config.tdm_debug_enabled == enabled,
            final(self).config.sip_debug_enabled == old(self).config.sip_debug_enabled,
            final(self).config.rtp_debug_enabled == old(self).config.rtp_debug_enabled,
            final(self).config.max_history_size == old(self).config.max_history_size,
            final(self).config.capture_content == old(self).config.capture_content,
            final(self).config.filter_patterns == old(self).config.filter_patterns,
            final(self).message_history == old(self).message_history,
            final(self).channel_status == old(self).channel_status,
            final(self).message_counter == old(self).message_counter,
            final(self).is_running == old(self).is_running,
    {
        self.config.tdm_debug_enabled = enabled;
        Ok(())
    }

    /// Turns RTP debugging on or off.
    pub fn set_rtp_debug(&mut self, enabled: bool) -> (r: GatewayResult<()>)
        ensures
            r is Ok,
            final(self).config.rtp_debug_enabled == enabled,
            final(self).config.sip_debug_enabled == old(self).config.sip_debug_enabled,
            final(self).config.tdm_debug_enabled == old(self).config.tdm_debug_enabled,
            final(self).config.max_history_size == old(self).config.max_history_size,
            final(self).config.capture_content == old(self).config.capture_content,
            final(self).config.filter_patterns == old(self).config.filter_patterns,
            final(self).message_history == old(self).message_history,
            final(self).channel_status == old(self).channel_status,
            final(self).message_counter == old(self).message_counter,
            final(self).is_running == old(self).is_running,
    {
        self.config.rtp_debug_enabled = enabled;
        Ok(())
    }

    /// Adds a captured message to the history when it passes the filters,
    /// dropping the oldest beyond the bound.
    pub fn add_message_to_history(&mut self, message: DebugMessage) -> (r: GatewayResult<()>)
        requires
            old(self).wf(),
        ensures
            r is Ok,
            final(self).wf(),
            final(self).config == old(self).config,
            final(self).channel_status == old(self).channel_status,
            final(self).message_counter == old(self).message_counter,
            final(self).is_running == old(self).is_running,
            final(self).message_history@ == history_after(old(self).message_history@, message,
                old(self).config.filter_patterns@, old(self).config.max_history_size as nat),
    {
        if !message_matches_filters(&message, &self.config.filter_patterns) {
            return Ok(());
        }
        self.message_history.push(message);
        drop_oldest(&mut self.message_history, self.config.max_history_size);
        Ok(())
    }

    /// Records a channel's new state, and the call it carries when given as
    /// (call id, caller, called). Entering `Connected` notes the connect time;
    /// leaving it notes the disconnect time and the call's duration.
    pub fn update_channel_status(
        &mut self,
        span_id: u32,
        channel_id: u8,
        state: BChannelState,
        call_info: Option<(Option<String>, Option<String>, Option<String>)>,
        now_ms: i64,
    ) -> (r: GatewayResult<()>)
        requires
            old(self).wf(),
        ensures
            r is Ok,
            final(self).wf(),
            final(self).config == old(self).config,
            final(self).message_history == old(self).message_history,
            final(self).message_counter == old(self).message_counter,
            ({
                let k = channel_key(span_id, channel_id);
                let before = old(self).channel_status.view();
                let after = final(self).channel_status.view();
                let prev = if before.dom().contains(k) { before[k].state } else { BChannelState::Idle };
                &&& after.dom() == before.dom().insert(k)
                &&& forall|q: u128| q != k && #[trigger] before.dom().contains(q) ==> after[q] == before[q]
                &&& after[k].span_id == span_id
                &&& after[k].channel_id == channel_id
                &&& after[k].state == state
                &&& after[k].last_activity_ms == now_ms
                &&& (call_info matches Some((c, a, b)) ==> after[k].call_id == c && after[k].caller_number == a
                    && after[k].called_number == b)
                &&& (before.dom().contains(k) && call_info is None ==> after[k].call_id == before[k].call_id
                    && after[k].caller_number == before[k].caller_number && after[k].called_number == before[k].called_number)
                &&& (!before.dom().contains(k) && call_info is None ==> after[k].call_id is None
                    && after[k].caller_number is None && after[k].called_number is None)
                &&& (state == BChannelState::Connected && prev != BChannelState::Connected ==> after[k].connect_ms == Some(now_ms))
                &&& (prev == BChannelState::Connected && state != BChannelState::Connected ==> {
                    &&& after[k].disconnect_ms == Some(now_ms)
                    &&& match (if before.dom().contains(k) { before[k].connect_ms } else { None }) {
                        Some(t) => after[k].duration_ms == Some(if now_ms >= t { (now_ms - t) as u64 } else { 0u64 }),
                        None => after[k].duration_ms == (if before.dom().contains(k) { before[k].duration_ms } else { None }),
                    }
                })
            }),
    {
        let key: u128 = (span_id as u128) * 256 + channel_id as u128;
        let mut status = match self.channel_status.remove(key) {
            Some(st) => st,
            None => BChannelStatus {
                span_id,
                channel_id,
                state: BChannelState::Idle,
                call_reference: None,
                call_id: None,
                caller_number: None,
                called_number: None,
                connect_ms: None,
                disconnect_ms: None,
                duration_ms: None,
                codec: None,
                quality_metrics: ChannelQualityMetrics {
                    packet_loss_milli_percent: 0,
                    jitter_us: 0,
                    round_trip_time_us: 0,
                    mos_score_centi: None,
                    error_count: 0,
                },
                last_activity_ms: now_ms,
            },
        };
        proof {
            if old(self).channel_status.view().dom().contains(key) {
                assert(status.span_id == span_id && status.channel_id == channel_id) by {
                    assert(channel_key(status.span_id, status.channel_id) == key);
                    assert(status.span_id as int == key / 256);
                }
            }
        }
        let previous = status.state;
        status.state = state;
        status.last_activity_ms = now_ms;
        match call_info {
            Some((c, a, b)) => {
                status.call_id = c;
                status.caller_number = a;
                status.called_number = b;
            },
            None => {},
        }
        if state == BChannelState::Connected && previous != BChannelState::Connected {
            status.connect_ms = Some(now_ms);
        } else if previous == BChannelState::Connected && state != BChannelState::Connected {
            status.disconnect_ms = Some(now_ms);
            match status.connect_ms {
                Some(t) => {
                    status.duration_ms = Some(if now_ms >= t { ((now_ms as i128) - (t as i128)) as u64 } else { 0 });
                },
                None => {},
            }
        }
        let ghost sv = status;
        self.channel_status.insert(status);
        proof {
            assert(self.channel_status.view() =~= old(self).channel_status.view().insert(key, sv));
        }
        Ok(())
    }
}

/// The upper-case hexadecimal digit of a value below sixteen.
pub open spec fn upper_hex_digit(d: nat) -> char {
    if d < 10 { digit_char(d) } else if d == 10 { 'A' } else if d == 11 { 'B' } else if d == 12 { 'C' }
    else if d == 13 { 'D' } else if d == 14 { 'E' } else { 'F' }
}

/// `0x` and `n` upper-case hexadecimal digits of `v`.
pub open spec fn hex_field(v: nat, n: nat) -> Seq<char> {
    "0x"@ + Seq::new(n, |i: int| upper_hex_digit((v / crate::alarms::pow16((n - 1 - i) as nat)) % 16))
}

fn hex_field_text(v: u16, n: u32) -> (r: String)
    requires
        1 <= n <= 4,
    ensures
        r@ == hex_field(v as nat, n as nat),
{
    let mut r = String::from_str("0x");
    proof {
        reveal_strlit("0x");
        reveal_with_fuel(crate::alarms::pow16, 5);
    }
    let mut i: u32 = 0;
    while i < n
        invariant
            1 <= n <= 4,
            i <= n,
            r@ == "0x"@ + Seq::new(i as nat, |k: int| upper_hex_digit((v as nat / crate::alarms::pow16((n - 1 - k) as nat)) % 16)),
            "0x"@ == seq!['0', 'x'],
        decreases n - i,
    {
        let e = n - 1 - i;
        let div: u32 = if e == 0 { 1 } else if e == 1 { 16 } else if e == 2 { 256 } else { 4096 };
        proof {
            reveal_with_fuel(crate::alarms::pow16, 5);
            assert(div as nat == crate::alarms::pow16(e as nat));
        }
        let d = ((v as u32) / div) % 16;
        let c = if d < 10 {
            let c = ((d as u8) + 48) as char;
            proof {
                assert(c == digit_char(d as nat)) by {
                    assert(d == 0 || d == 1 || d == 2 || d == 3 || d == 4 || d == 5 || d == 6 || d == 7 || d == 8 || d == 9);
                }
            }
            c
        } else if d == 10 { 'A' } else if d == 11 { 'B' } else if d == 12 { 'C' } else if d == 13 { 'D' } else if d == 14 { 'E' } else { 'F' };
        push_char(&mut r, c);
        i = i + 1;
        proof {
            assert(r@ =~= "0x"@ + Seq::new(i as nat, |k: int| upper_hex_digit((v as nat / crate::alarms::pow16((n - 1 - k) as nat)) % 16)));
        }
    }
    r
}

/// The number of bytes of a text in UTF-8.
pub open spec fn utf8_len(s: Seq<char>) -> nat {
    vstd::utf8::encode_utf8(s).len()
}

/// The length of a text in bytes.
pub(crate) fn byte_len(s: &str) -> (r: usize)
    ensures
        r == utf8_len(s@),
{
    s.as_bytes().len()
}

/// The decoded fields of a message as texts by name.
pub open spec fn field_texts(l: KeyedList<FieldEntry>) -> Map<Seq<char>, Seq<char>> {
    l.view().map_values(|e: FieldEntry| e.value@)
}

fn put_field(l: &mut KeyedList<FieldEntry>, key: String, value: String)
    requires
        old(l).wf(),
    ensures
        final(l).wf(),
        field_texts(*final(l)) == field_texts(*old(l)).insert(key@, value@),
{
    let ghost kv = key@;
    let ghost vv = value@;
    l.insert(FieldEntry { key, value });
    proof {
        assert(field_texts(*l) =~= field_texts(*old(l)).insert(kv, vv));
    }
}

/// The fields a SIP capture records: method, response code, From and To.
pub open spec fn sip_fields(info: SipInfoView) -> Map<Seq<char>, Seq<char>> {
    let m0 = Map::<Seq<char>, Seq<char>>::empty();
    let m1 = match info.method { Some(x) => m0.insert("Method"@, x), None => m0 };
    let m2 = match info.response_code { Some(c) => m1.insert("Response-Code"@, decimal(c as nat)), None => m1 };
    let m3 = match info.from_header { Some(x) => m2.insert("From"@, x), None => m2 };
    match info.to_header { Some(x) => m3.insert("To"@, x), None => m3 }
}

/// The type under which a SIP message is filed: its method, else its status
/// code and reason phrase, else `Unknown`.
pub open spec fn sip_message_type(info: SipInfoView) -> Seq<char> {
    match info.method {
        Some(m) => m,
        None => match info.response_code {
            Some(c) => decimal(c as nat) + " "@ + match info.response_phrase { Some(p) => p, None => "Unknown"@ },
            None => "Unknown"@,
        },
    }
}

impl DebugService {
    /// Gives out the next message id.
    fn next_message_id(&mut self) -> (r: u64)
        requires
            old(self).message_counter < u64::MAX,
        ensures
            r == old(self).message_counter + 1,
            final(self).message_counter == r,
            final(self).config == old(self).config,
            final(self).message_history == old(self).message_history,
            final(self).channel_status == old(self).channel_status,
            final(self).is_running == old(self).is_running,
    {
        self.message_counter = self.message_counter + 1;
        self.message_counter
    }

    /// Captures a SIP message when SIP debugging is on: it is decoded, filed
    /// under its method or status, and added to the history (subject to the
    /// filters and the bound).
    pub fn capture_sip_message(
        &mut self,
        direction: MessageDirection,
        source: String,
        destination: String,
        message: &str,
        call_id: Option<String>,
        now_ms: i64,
    ) -> (r: GatewayResult<()>)
        requires
            old(self).wf(),
            old(self).message_counter < u64::MAX,
            old(self).config.sip_debug_enabled ==> message@.len() > 0,
        ensures
            r is Ok,
            final(self).wf(),
            final(self).config == old(self).config,
            final(self).channel_status == old(self).channel_status,
            !old(self).config.sip_debug_enabled ==> final(self).message_history == old(self).message_history
                && final(self).message_counter == old(self).message_counter,
            old(self).config.sip_debug_enabled ==> exists|m: DebugMessage| {
                &&& final(self).message_history@ == #[trigger] history_after(old(self).message_history@, m,
                    old(self).config.filter_patterns@, old(self).config.max_history_size as nat)
                &&& final(self).message_counter == old(self).message_counter + 1
                &&& m.id == old(self).message_counter + 1
                &&& m.timestamp_ms == now_ms
                &&& m.protocol == ProtocolType::Sip
                &&& m.direction == direction
                &&& m.source == Some(source)
                &&& m.destination == Some(destination)
                &&& m.call_id == call_id
                &&& m.message_type@ == sip_message_type(sip_info(message@))
                &&& field_texts(m.parsed_fields) == sip_fields(sip_info(message@))
                &&& (m.content matches Some(c) ==> c@ == message@)
                &&& (m.content is Some <==> old(self).config.capture_content)
                &&& m.size == utf8_len(message@)
            },
    {
        if !self.config.sip_debug_enabled {
            return Ok(());
        }
        let info = parse_sip_message(message);
        let mut fields: KeyedList<FieldEntry> = KeyedList::new();
        proof {
            assert(field_texts(fields) =~= Map::<Seq<char>, Seq<char>>::empty());
        }
        match &info.method {
            Some(m) => put_field(&mut fields, String::from_str("Method"), m.clone()),
            None => {},
        }
        match info.response_code {
            Some(c) => put_field(&mut fields, String::from_str("Response-Code"), u64_text(c as u64)),
            None => {},
        }
        match &info.from_header {
            Some(f) => put_field(&mut fields, String::from_str("From"), f.clone()),
            None => {},
        }
        match &info.to_header {
            Some(t) => put_field(&mut fields, String::from_str("To"), t.clone()),
            None => {},
        }
        let message_type = match &info.method {
            Some(m) => m.clone(),
            None => match info.response_code {
                Some(c) => {
                    let mut t = u64_text(c as u64);
                    t.append(" ");
                    match &info.response_phrase {
                        Some(p) => t.append(p.as_str()),
                        None => t.append("Unknown"),
                    }
                    t
                },
                None => String::from_str("Unknown"),
            },
        };
        let content = if self.config.capture_content { Some(text(message)) } else { None };
        let id = self.next_message_id();
        let m = DebugMessage {
            id,
            timestamp_ms: now_ms,
            protocol: ProtocolType::Sip,
            direction,
            span_id: None,
            channel_id: None,
            source: Some(source),
            destination: Some(destination),
            call_reference: None,
            call_id,
            message_type,
            content,
            raw_data: None,
            parsed_fields: fields,
            size: byte_len(message),
        };
        let ghost mv = m;
        proof {
            assert(field_texts(mv.parsed_fields) =~= sip_fields(sip_info(message@)));
        }
        self.add_message_to_history(m)
    }
}

/// The fields of a decoded Q.931 message's information elements, in order:
/// `IE-<name>` with the decoded value, or `Raw data`.
pub open spec fn ie_fields(m: Map<Seq<char>, Seq<char>>, ies: Seq<IeView>) -> Map<Seq<char>, Seq<char>>
    decreases ies.len(),
{
    if ies.len() == 0 {
        m
    } else {
        ie_fields(m, ies.drop_last()).insert("IE-"@ + ies.last().name, match ies.last().decoded_value {
            Some(d) => d,
            None => "Raw data"@,
        })
    }
}

/// The fields a Q.931 capture records.
pub open spec fn q931_fields(q: Q931DebugInfo) -> Map<Seq<char>, Seq<char>> {
    ie_fields(
        Map::<Seq<char>, Seq<char>>::empty()
            .insert("Protocol-Discriminator"@, hex_field(q.protocol_discriminator as nat, 2))
            .insert("Call-Reference"@, hex_field(q.call_reference_value as nat, 4))
            .insert("Message-Type"@, hex_field(q.message_type as nat, 2)),
        ie_views(q.information_elements@),
    )
}

/// The name of a LAPD frame type.
pub open spec fn frame_type_name(t: LapdFrameType) -> Seq<char> {
    match t {
        LapdFrameType::Information => "Information"@,
        LapdFrameType::Supervisory => "Supervisory"@,
        LapdFrameType::Unnumbered => "Unnumbered"@,
    }
}

/// The type under which a LAPD frame is filed.
pub open spec fn lapd_message_type(t: LapdFrameType) -> Seq<char> {
    match t {
        LapdFrameType::Information => "I-Frame"@,
        LapdFrameType::Supervisory => "S-Frame"@,
        LapdFrameType::Unnumbered => "U-Frame"@,
    }
}

/// The fields a LAPD capture records.
pub open spec fn lapd_fields(f: LapdDebugInfo) -> Map<Seq<char>, Seq<char>> {
    let m = Map::<Seq<char>, Seq<char>>::empty()
        .insert("Address"@, hex_field(f.address_field as nat, 2))
        .insert("Control"@, hex_field(f.control_field as nat, 2))
        .insert("Frame-Type"@, frame_type_name(f.frame_type));
    match f.sequence_numbers {
        Some((ns, nr)) => m.insert("N(S)"@, decimal(ns as nat)).insert("N(R)"@, decimal(nr as nat)),
        None => m,
    }
}

fn copy_all(data: &[u8]) -> (r: Vec<u8>)
    ensures
        r@ == data@,
{
    let r = copy_bytes(data, 0, data.len());
    proof {
        assert(data@.subrange(0, data@.len() as int) =~= data@);
    }
    r
}

impl DebugService {
    /// Captures a Q.931 message when TDM debugging is on.
    pub fn capture_q931_message(&mut self, direction: MessageDirection, span_id: u32, raw_data: &[u8], now_ms: i64) -> (r: GatewayResult<()>)
        requires
            old(self).wf(),
            old(self).message_counter < u64::MAX,
            old(self).config.tdm_debug_enabled ==> raw_data@.len() != 4,
        ensures
            r is Ok,
            final(self).wf(),
            final(self).config == old(self).config,
            final(self).channel_status == old(self).channel_status,
            !old(self).config.tdm_debug_enabled ==> final(self).message_history == old(self).message_history
                && final(self).message_counter == old(self).message_counter,
            old(self).config.tdm_debug_enabled ==> exists|m: DebugMessage, q: Q931DebugInfo| {
                &&& final(self).message_history@ == #[trigger] history_after(old(self).message_history@, m,
                    old(self).config.filter_patterns@, old(self).config.max_history_size as nat)
                &&& #[trigger] q931_decodes(raw_data@, q)
                &&& final(self).message_counter == old(self).message_counter + 1
                &&& m.id == old(self).message_counter + 1
                &&& m.timestamp_ms == now_ms
                &&& m.protocol == ProtocolType::Q931
                &&& m.direction == direction
                &&& m.span_id == Some(span_id)
                &&& m.call_reference == Some(q.call_reference_value)
                &&& m.message_type@ == q.message_name@
                &&& field_texts(m.parsed_fields) == q931_fields(q)
                &&& (m.raw_data matches Some(d) ==> d@ == raw_data@)
                &&& (m.raw_data is Some <==> old(self).config.capture_content)
                &&& m.size == raw_data@.len()
            },
    {
        if !self.config.tdm_debug_enabled {
            return Ok(());
        }
        let q = parse_q931_message(raw_data);
        let mut fields: KeyedList<FieldEntry> = KeyedList::new();
        proof {
            assert(field_texts(fields) =~= Map::<Seq<char>, Seq<char>>::empty());
        }
        put_field(&mut fields, String::from_str("Protocol-Discriminator"), hex_field_text(q.protocol_discriminator as u16, 2));
        put_field(&mut fields, String::from_str("Call-Reference"), hex_field_text(q.call_reference_value, 4));
        put_field(&mut fields, String::from_str("Message-Type"), hex_field_text(q.message_type as u16, 2));
        let ghost base = field_texts(fields);
        let mut i: usize = 0;
        proof {
            assert(ie_views(q.information_elements@).subrange(0, 0) =~= Seq::<IeView>::empty());
        }
        while i < q.information_elements.len()
            invariant
                fields.wf(),
                i <= q.information_elements@.len(),
                field_texts(fields) == ie_fields(base, ie_views(q.information_elements@).subrange(0, i as int)),
            decreases q.information_elements@.len() - i,
        {
            let ie = &q.information_elements[i];
            let key = join2("IE-", ie.name.as_str());
            let value = match &ie.decoded_value {
                Some(d) => d.clone(),
                None => String::from_str("Raw data"),
            };
            put_field(&mut fields, key, value);
            proof {
                assert(ie_views(q.information_elements@).subrange(0, i as int + 1).drop_last()
                    =~= ie_views(q.information_elements@).subrange(0, i as int));
            }
            i = i + 1;
        }
        proof {
            assert(ie_views(q.information_elements@).subrange(0, q.information_elements@.len() as int)
                =~= ie_views(q.information_elements@));
        }
        let raw = if self.config.capture_content { Some(copy_all(raw_data)) } else { None };
        let id = self.next_message_id();
        let m = DebugMessage {
            id,
            timestamp_ms: now_ms,
            protocol: ProtocolType::Q931,
            direction,
            span_id: Some(span_id),
            channel_id: None,
            source: None,
            destination: None,
            call_reference: Some(q.call_reference_value),
            call_id: None,
            message_type: q.message_name.clone(),
            content: None,
            raw_data: raw,
            parsed_fields: fields,
            size: raw_data.len(),
        };
        self.add_message_to_history(m)
    }

    /// Captures a LAPD frame when TDM debugging is on.
    pub fn capture_lapd_frame(&mut self, direction: MessageDirection, span_id: u32, raw_data: &[u8], now_ms: i64) -> (r: GatewayResult<()>)
        requires
            old(self).wf(),
            old(self).message_counter < u64::MAX,
        ensures
            r is Ok,
            final(self).wf(),
            final(self).config == old(self).config,
            final(self).channel_status == old(self).channel_status,
            !old(self).config.tdm_debug_enabled ==> final(self).message_history == old(self).message_history
                && final(self).message_counter == old(self).message_counter,
            old(self).config.tdm_debug_enabled ==> exists|m: DebugMessage, f: LapdDebugInfo| {
                &&& final(self).message_history@ == #[trigger] history_after(old(self).message_history@, m,
                    old(self).config.filter_patterns@, old(self).config.max_history_size as nat)
                &&& #[trigger] lapd_decodes(raw_data@, f)
                &&& final(self).message_counter == old(self).message_counter + 1
                &&& m.id == old(self).message_counter + 1
                &&& m.timestamp_ms == now_ms
                &&& m.protocol == ProtocolType::Lapd
                &&& m.direction == direction
                &&& m.span_id == Some(span_id)
                &&& m.message_type@ == lapd_message_type(f.frame_type)
                &&& field_texts(m.parsed_fields) == lapd_fields(f)
                &&& (m.raw_data matches Some(d) ==> d@ == raw_data@)
                &&& (m.raw_data is Some <==> old(self).config.capture_content)
                &&& m.size == raw_data@.len()
            },
    {
        if !self.config.tdm_debug_enabled {
            return Ok(());
        }
        let f = parse_lapd_frame(raw_data);
        let mut fields: KeyedList<FieldEntry> = KeyedList::new();
        proof {
            assert(field_texts(fields) =~= Map::<Seq<char>, Seq<char>>::empty());
        }
        put_field(&mut fields, String::from_str("Address"), hex_field_text(f.address_field as u16, 2));
        put_field(&mut fields, String::from_str("Control"), hex_field_text(f.control_field as u16, 2));
        let ft = match f.frame_type {
            LapdFrameType::Information => String::from_str("Information"),
            LapdFrameType::Supervisory => String::from_str("Supervisory"),
            LapdFrameType::Unnumbered => String::from_str("Unnumbered"),
        };
        put_field(&mut fields, String::from_str("Frame-Type"), ft);
        match f.sequence_numbers {
            Some((ns, nr)) => {
                put_field(&mut fields, String::from_str("N(S)"), u64_text(ns as u64));
                put_field(&mut fields, String::from_str("N(R)"), u64_text(nr as u64));
            },
            None => {},
        }
        let message_type = match f.frame_type {
            LapdFrameType::Information => String::from_str("I-Frame"),
            LapdFrameType::Supervisory => String::from_str("S-Frame"),
            LapdFrameType::Unnumbered => String::from_str("U-Frame"),
        };
        let raw = if self.config.capture_content { Some(copy_all(raw_data)) } else { None };
        let id = self.next_message_id();
        let m = DebugMessage {
            id,
            timestamp_ms: now_ms,
            protocol: ProtocolType::Lapd,
            direction,
            span_id: Some(span_id),
            channel_id: None,
            source: None,
            destination: None,
            call_reference: None,
            call_id: None,
            message_type,
            content: None,
            raw_data: raw,
            parsed_fields: fields,
            size: raw_data.len(),
        };
        let ghost mv = m;
        proof {
            assert(field_texts(mv.parsed_fields) =~= lapd_fields(f));
        }
        self.add_message_to_history(m)
    }

    /// The channels, of one span or of all.
    pub fn get_channel_status(&self, span_id: Option<u32>) -> (r: Vec<&BChannelStatus>)
        ensures
            r@.map_values(|c: &BChannelStatus| *c) == self.channel_status.seq().filter(|c: BChannelStatus| match span_id {
                Some(sp) => c.span_id == sp,
                None => true,
            }),
    {
        let items = self.channel_status.items();
        let ghost s = items@;
        let ghost pred = |c: BChannelStatus| match span_id {
            Some(sp) => c.span_id == sp,
            None => true,
        };
        let mut r: Vec<&BChannelStatus> = Vec::new();
        let mut i: usize = 0;
        while i < items.len()
            invariant
                s == items@,
                i <= s.len(),
                pred == (|c: BChannelStatus| match span_id {
                    Some(sp) => c.span_id == sp,
                    None => true,
                }),
                r@.map_values(|c: &BChannelStatus| *c) == s.subrange(0, i as int).filter(pred),
            decreases s.len() - i,
        {
            proof {
                assert(s.subrange(0, i as int + 1).drop_last() =~= s.subrange(0, i as int));
                reveal_with_fuel(Seq::filter, 1);
            }
            let keep = match span_id {
                Some(sp) => items[i].span_id == sp,
                None => true,
            };
            let ghost prev = r@;
            if keep {
                r.push(&items[i]);
                proof {
                    assert(r@.map_values(|c: &BChannelStatus| *c) =~= prev.map_values(|c: &BChannelStatus| *c).push(s[i as int]));
                }
            }
            i = i + 1;
        }
        proof {
            assert(s.subrange(0, s.len() as int) =~= s);
        }
        r
    }

    /// The captured messages, newest first, of one protocol or of all, at most `limit` of them.
    pub fn get_message_history(&self, protocol: Option<ProtocolType>, limit: Option<usize>) -> (r: Vec<&DebugMessage>)
        ensures
            ({
                let sel = self.message_history@.reverse().filter(|m: DebugMessage| match protocol {
                    Some(p) => m.protocol == p,
                    None => true,
                });
                let n = match limit { Some(l) => l as int, None => usize::MAX as int };
                r@.map_values(|m: &DebugMessage| *m) == if sel.len() > n { sel.take(n) } else { sel }
            }),
    {
        let h = &self.message_history;
        let ghost rev = h@.reverse();
        let ghost pred = |m: DebugMessage| match protocol {
            Some(p) => m.protocol == p,
            None => true,
        };
        let n: usize = match limit { Some(l) => l, None => usize::MAX };
        let mut r: Vec<&DebugMessage> = Vec::new();
        let mut i: usize = 0;
        while i < h.len() && r.len() < n
            invariant
                rev == h@.reverse(),
                i <= h@.len(),
                r@.len() <= n,
                pred == (|m: DebugMessage| match protocol {
                    Some(p) => m.protocol == p,
                    None => true,
                }),
                r@.map_values(|m: &DebugMessage| *m) == rev.subrange(0, i as int).filter(pred),
            decreases h@.len() - i,
        {
            proof {
                assert(rev.subrange(0, i as int + 1).drop_last() =~= rev.subrange(0, i as int));
                reveal_with_fuel(Seq::filter, 1);
                assert(rev[i as int] == h@[h@.len() - 1 - i]);
            }
            let m = &h[h.len() - 1 - i];
            let keep = match protocol {
                Some(p) => m.protocol == p,
                None => true,
            };
            let ghost prev = r@;
            if keep {
                r.push(m);
                proof {
                    assert(r@.map_values(|x: &DebugMessage| *x) =~= prev.map_values(|x: &DebugMessage| *x).push(rev[i as int]));
                }
            }
            i = i + 1;
        }
        proof {
            let sel = rev.filter(pred);
            lemma_filter_prefix(rev, pred, i as int);
            if i == h@.len() {
                assert(rev.subrange(0, i as int) =~= rev);
            }
        }
        r
    }

    /// Empties the history and returns how many messages it held.
    pub fn clear_history(&mut self) -> (r: GatewayResult<usize>)
        requires
            old(self).wf(),
        ensures
            final(self).wf(),
            r == Ok::<usize, crate::error::GatewayError>(old(self).message_history@.len() as usize),
            final(self).message_history@.len() == 0,
            final(self).config == old(self).config,
            final(self).channel_status == old(self).channel_status,
            final(self).message_counter == old(self).message_counter,
    {
        let count = self.message_history.len();
        self.message_history.clear();
        Ok(count)
    }
}

proof fn lemma_filter_prefix(s: Seq<DebugMessage>, p: spec_fn(DebugMessage) -> bool, i: int)
    requires
        0 <= i <= s.len(),
    ensures
        s.subrange(0, i).filter(p).len() <= s.filter(p).len(),
        s.filter(p).take(s.subrange(0, i).filter(p).len() as int) == s.subrange(0, i).filter(p),
    decreases s.len() - i,
{
    if i == s.len() {
        assert(s.subrange(0, i) =~= s);
        assert(s.filter(p).take(s.filter(p).len() as int) =~= s.filter(p));
    } else {
        lemma_filter_prefix(s, p, i + 1);
        let a = s.subrange(0, i);
        let b = s.subrange(0, i + 1);
        assert(b.drop_last() =~= a);
        reveal_with_fuel(Seq::filter, 1);
        assert(b.filter(p).take(a.filter(p).len() as int) =~= a.filter(p));
        assert(s.filter(p).take(a.filter(p).len() as int) =~= b.filter(p).take(a.filter(p).len() as int));
    }
}

/// Whether `st` holds the counts of a history and of a set of channels.
pub open spec fn stats_of(st: DebugStatistics, h: Seq<DebugMessage>, c: Seq<BChannelStatus>) -> bool {
    &&& st.total_messages == h.len()
    &&& st.messages_by_protocol.sip == count_protocol(h, ProtocolType::Sip)
    &&& st.messages_by_protocol.q931 == count_protocol(h, ProtocolType::Q931)
    &&& st.messages_by_protocol.lapd == count_protocol(h, ProtocolType::Lapd)
    &&& st.messages_by_protocol.rtp == count_protocol(h, ProtocolType::Rtp)
    &&& st.messages_by_protocol.rtcp == count_protocol(h, ProtocolType::Rtcp)
    &&& st.active_channels == c.len() - count_state(c, BChannelState::Idle)
    &&& st.channels_by_state.idle == count_state(c, BChannelState::Idle)
    &&& st.channels_by_state.seized == count_state(c, BChannelState::Seized)
    &&& st.channels_by_state.dialing == count_state(c, BChannelState::Dialing)
    &&& st.channels_by_state.proceeding == count_state(c, BChannelState::Proceeding)
    &&& st.channels_by_state.alerting == count_state(c, BChannelState::Alerting)
    &&& st.channels_by_state.connected == count_state(c, BChannelState::Connected)
    &&& st.channels_by_state.disconnecting == count_state(c, BChannelState::Disconnecting)
    &&& st.channels_by_state.out_of_service == count_state(c, BChannelState::OutOfService)
    &&& st.channels_by_state.maintenance == count_state(c, BChannelState::Maintenance)
    &&& st.channels_by_state.blocked == count_state(c, BChannelState::Blocked)
    &&& st.oldest_message_ms == if h.len() > 0 { Some(h[0].timestamp_ms) } else { None }
    &&& st.newest_message_ms == if h.len() > 0 { Some(h.last().timestamp_ms) } else { None }
}

proof fn lemma_count_protocol_le(h: Seq<DebugMessage>, p: ProtocolType)
    ensures
        count_protocol(h, p) <= h.len(),
    decreases h.len(),
{
    if h.len() > 0 {
        lemma_count_protocol_le(h.drop_last(), p);
    }
}

proof fn lemma_count_state_le(c: Seq<BChannelStatus>, st: BChannelState)
    ensures
        count_state(c, st) <= c.len(),
    decreases c.len(),
{
    if c.len() > 0 {
        lemma_count_state_le(c.drop_last(), st);
    }
}

impl DebugService {
    /// Counts the history by protocol and the channels by state.
    pub fn get_debug_stats(&self) -> (r: DebugStatistics)
        ensures
            stats_of(r, self.message_history@, self.channel_status.seq()),
    {
        let h = &self.message_history;
        let mut pc = ProtocolCounts { sip: 0, q931: 0, lapd: 0, rtp: 0, rtcp: 0 };
        let mut i: usize = 0;
        while i < h.len()
            invariant
                i <= h@.len(),
                pc.sip == count_protocol(h@.subrange(0, i as int), ProtocolType::Sip),
                pc.q931 == count_protocol(h@.subrange(0, i as int), ProtocolType::Q931),
                pc.lapd == count_protocol(h@.subrange(0, i as int), ProtocolType::Lapd),
                pc.rtp == count_protocol(h@.subrange(0, i as int), ProtocolType::Rtp),
                pc.rtcp == count_protocol(h@.subrange(0, i as int), ProtocolType::Rtcp),
            decreases h@.len() - i,
        {
            let ghost pre = h@.subrange(0, i as int);
            proof {
                assert(h@.subrange(0, i as int + 1).drop_last() =~= pre);
                lemma_count_protocol_le(pre, ProtocolType::Sip);
                lemma_count_protocol_le(pre, ProtocolType::Q931);
                lemma_count_protocol_le(pre, ProtocolType::Lapd);
                lemma_count_protocol_le(pre, ProtocolType::Rtp);
                lemma_count_protocol_le(pre, ProtocolType::Rtcp);
            }
            match h[i].protocol {
                ProtocolType::Sip => { pc.sip = pc.sip + 1; },
                ProtocolType::Q931 => { pc.q931 = pc.q931 + 1; },
                ProtocolType::Lapd => { pc.lapd = pc.lapd + 1; },
                ProtocolType::Rtp => { pc.rtp = pc.rtp + 1; },
                ProtocolType::Rtcp => { pc.rtcp = pc.rtcp + 1; },
            }
            i = i + 1;
        }
        proof {
            assert(h@.subrange(0, h@.len() as int) =~= h@);
        }
        let items = self.channel_status.items();
        let ghost c = items@;
        let mut sc = StateCounts {
            idle: 0, seized: 0, dialing: 0, proceeding: 0, alerting: 0, connected: 0, disconnecting: 0,
            out_of_service: 0, maintenance: 0, blocked: 0,
        };
        let mut k: usize = 0;
        while k < items.len()
            invariant
                c == items@,
                k <= c.len(),
                sc.idle == count_state(c.subrange(0, k as int), BChannelState::Idle),
                sc.seized == count_state(c.subrange(0, k as int), BChannelState::Seized),
                sc.dialing == count_state(c.subrange(0, k as int), BChannelState::Dialing),
                sc.proceeding == count_state(c.subrange(0, k as int), BChannelState::Proceeding),
                sc.alerting == count_state(c.subrange(0, k as int), BChannelState::Alerting),
                sc.connected == count_state(c.subrange(0, k as int), BChannelState::Connected),
                sc.disconnecting == count_state(c.subrange(0, k as int), BChannelState::Disconnecting),
                sc.out_of_service == count_state(c.subrange(0, k as int), BChannelState::OutOfService),
                sc.maintenance == count_state(c.subrange(0, k as int), BChannelState::Maintenance),
                sc.blocked == count_state(c.subrange(0, k as int), BChannelState::Blocked),
            decreases c.len() - k,
        {
            let ghost pre = c.subrange(0, k as int);
            proof {
                assert(c.subrange(0, k as int + 1).drop_last() =~= pre);
                lemma_count_state_le(pre, BChannelState::Idle);
                lemma_count_state_le(pre, BChannelState::Seized);
                lemma_count_state_le(pre, BChannelState::Dialing);
                lemma_count_state_le(pre, BChannelState::Proceeding);
                lemma_count_state_le(pre, BChannelState::Alerting);
                lemma_count_state_le(pre, BChannelState::Connected);
                lemma_count_state_le(pre, BChannelState::Disconnecting);
                lemma_count_state_le(pre, BChannelState::OutOfService);
                lemma_count_state_le(pre, BChannelState::Maintenance);
                lemma_count_state_le(pre, BChannelState::Blocked);
            }
            match items[k].state {
                BChannelState::Idle => { sc.idle = sc.idle + 1; },
                BChannelState::Seized => { sc.seized = sc.seized + 1; },
                BChannelState::Dialing => { sc.dialing = sc.dialing + 1; },
                BChannelState::Proceeding => { sc.proceeding = sc.proceeding + 1; },
                BChannelState::Alerting => { sc.alerting = sc.alerting + 1; },
                BChannelState::Connected => { sc.connected = sc.connected + 1; },
                BChannelState::Disconnecting => { sc.disconnecting = sc.disconnecting + 1; },
                BChannelState::OutOfService => { sc.out_of_service = sc.out_of_service + 1; },
                BChannelState::Maintenance => { sc.maintenance = sc.maintenance + 1; },
                BChannelState::Blocked => { sc.blocked = sc.blocked + 1; },
            }
            k = k + 1;
        }
        proof {
            assert(c.subrange(0, c.len() as int) =~= c);
            lemma_count_state_le(c, BChannelState::Idle);
        }
        let n = h.len();
        DebugStatistics {
            total_messages: n as u64,
            messages_by_protocol: pc,
            active_channels: items.len() as u64 - sc.idle,
            channels_by_state: sc,
            oldest_message_ms: if n > 0 { Some(h[0].timestamp_ms) } else { None },
            newest_message_ms: if n > 0 { Some(h[n - 1].timestamp_ms) } else { None },
        }
    }
}

} // verus!
