use redfire_gateway::debug::{parse_lapd_frame, parse_q931_message, parse_sip_message, LapdFrameType};
use redfire_gateway::interface_testing::uuid_text;
use redfire_gateway::media_relay::{MediaRelayService, RtpPacket};
use redfire_gateway::testing::{isqrt, mean_and_jitter};

#[test]
fn q931_setup_is_named_and_its_call_reference_read() {
    let info = parse_q931_message(&[0x08, 0x02, 0x81, 0x23, 0x05]);
    assert_eq!(info.protocol_discriminator, 0x08);
    assert!(info.call_reference_flag);
    assert_eq!(info.call_reference_value, 0x0123);
    assert_eq!(info.message_type, 0x05);
    assert_eq!(info.message_name, "SETUP");
    assert!(info.information_elements.is_empty());
}

#[test]
fn q931_short_messages_are_invalid() {
    let info = parse_q931_message(&[0x08, 0x02]);
    assert_eq!(info.message_name, "Invalid");
    assert_eq!(info.message_type, 0);
    let release = parse_q931_message(&[0x08, 0x02, 0x00, 0x01, 0x4D]);
    assert_eq!(release.message_name, "RELEASE");
    let unknown = parse_q931_message(&[0x08, 0x02, 0x00, 0x01, 0x99]);
    assert_eq!(unknown.message_name, "UNKNOWN");
}

#[test]
fn lapd_frames_are_classified() {
    let i_frame = parse_lapd_frame(&[0x02, 0b0101_0110]);
    assert_eq!(i_frame.frame_type, LapdFrameType::Information);
    assert!(i_frame.command_response);
    assert!(i_frame.poll_final);
    assert_eq!(i_frame.sequence_numbers, Some((3, 2)));
    let s_frame = parse_lapd_frame(&[0x00, 0b0010_0101]);
    assert_eq!(s_frame.frame_type, LapdFrameType::Supervisory);
    assert_eq!(s_frame.supervisory_function, Some("RNR (Receiver Not Ready)".to_string()));
    assert_eq!(s_frame.sequence_numbers, Some((0, 1)));
    let short = parse_lapd_frame(&[0x01]);
    assert_eq!(short.frame_type, LapdFrameType::Unnumbered);
    assert_eq!(short.address_field, 0);
}

#[test]
fn sip_requests_and_responses_are_read() {
    let request = "INVITE sip:bob@example.com SIP/2.0\r\nVia: SIP/2.0/UDP a\r\nv: SIP/2.0/UDP b\r\nFrom: <sip:alice@example.com>\r\nContent-Length: 12\r\nCSeq: 1 INVITE\r\n\r\nTo: ignored";
    let info = parse_sip_message(request);
    assert_eq!(info.method, Some("INVITE".to_string()));
    assert_eq!(info.via_headers, vec!["SIP/2.0/UDP a".to_string(), "SIP/2.0/UDP b".to_string()]);
    assert_eq!(info.from_header, Some("<sip:alice@example.com>".to_string()));
    assert_eq!(info.content_length, 12);
    assert_eq!(info.to_header, None);
    let response = parse_sip_message("SIP/2.0 180 Ringing Now\r\nl: x\r\n");
    assert_eq!(response.response_code, Some(180));
    assert_eq!(response.response_phrase, Some("Ringing Now".to_string()));
    assert_eq!(response.content_length, 0);
    assert_eq!(response.method, None);
}

#[test]
fn uuids_are_written_in_five_groups() {
    assert_eq!(uuid_text(0), "00000000-0000-0000-0000-000000000000");
    assert_eq!(uuid_text(0x0123456789abcdef0123456789abcdef), "01234567-89ab-cdef-0123-456789abcdef");
}

#[test]
fn integer_square_roots_and_jitter() {
    assert_eq!(isqrt(0), 0);
    assert_eq!(isqrt(15), 3);
    assert_eq!(isqrt(16), 4);
    assert_eq!(isqrt(u64::MAX), 4_294_967_295);
    let (mean, jitter) = mean_and_jitter(&vec![10, 20, 30]);
    assert_eq!(mean, 20);
    assert_eq!(jitter, 8);
}

#[test]
fn silence_and_gain() {
    let mut quiet = RtpPacket::new(0, 1, 0, 1);
    quiet.payload = vec![1; 160];
    assert!(MediaRelayService::is_silence(&quiet));
    let mut loud = RtpPacket::new(0, 1, 0, 1);
    loud.payload = vec![200; 160];
    assert!(!MediaRelayService::is_silence(&loud));
    let mut short = RtpPacket::new(0, 1, 0, 1);
    short.payload = vec![255; 5];
    assert!(MediaRelayService::is_silence(&short));
}

#[test]
fn dtmf_needs_the_event_payload_type() {
    let mut packet = RtpPacket::new(0, 1000, 8000, 12345);
    packet.payload = vec![1, 10, 0, 160];
    assert_eq!(MediaRelayService::detect_dtmf(&packet), None);
    let mut star = RtpPacket::new(101, 1000, 8000, 12345);
    star.payload = vec![10, 10, 1, 0];
    assert_eq!(MediaRelayService::detect_dtmf(&star), Some(('*', 256)));
}
