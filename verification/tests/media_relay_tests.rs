use redfire_gateway::media_relay::{JitterBuffer, MediaRelayService, MediaRelayStats, RtpPacket};
use redfire_gateway::transcoding::CodecType;

#[test]
fn test_dtmf_detection() {
    let mut packet = RtpPacket::new(101, 1000, 8000, 12345);
    packet.payload = vec![1, 10, 0, 160];
    let result = MediaRelayService::detect_dtmf(&packet);
    assert_eq!(result, Some(('1', 160)));
}

#[test]
fn test_media_relay_stats() {
    let mut stats = MediaRelayStats::new(CodecType::G711u, CodecType::G711a);
    stats.packets_relayed_a_to_b = 100;
    stats.packets_relayed_b_to_a = 50;
    stats.bytes_relayed_a_to_b = 8000;
    stats.bytes_relayed_b_to_a = 4000;
    assert_eq!(stats.total_packets(), 150);
    assert_eq!(stats.total_bytes(), 12000);
}

#[test]
fn test_jitter_buffer() {
    let mut buffer = JitterBuffer::new(10, 20);
    let packet1 = RtpPacket::new(0, 100, 8000, 12345);
    let packet2 = RtpPacket::new(0, 102, 8160, 12345);
    let packet3 = RtpPacket::new(0, 101, 8080, 12345);
    buffer.add_packet(packet1, 0);
    buffer.add_packet(packet2, 0);
    let ready = buffer.add_packet(packet3, 0);
    assert!(ready.len() > 0);
    assert_eq!(ready[0].sequence_number, 100);
}

#[test]
fn jitter_buffer_plays_in_sequence_across_calls() {
    let mut buffer = JitterBuffer::new(10, 20);
    let mut played = Vec::new();
    for (seq, t) in [(7u16, 0u64), (9, 5), (8, 10), (10, 12)] {
        played.extend(buffer.add_packet(RtpPacket::new(0, seq, 0, 1), t).into_iter().map(|p| p.sequence_number));
    }
    played.extend(buffer.add_packet(RtpPacket::new(0, 11, 0, 1), 35).into_iter().map(|p| p.sequence_number));
    assert_eq!(played, vec![7, 8, 9, 10]);
    assert_eq!(buffer.get_buffer_size(), 1);
}

#[test]
fn jitter_buffer_holds_at_most_its_size() {
    let mut buffer = JitterBuffer::new(2, 20);
    for seq in 1..=5u16 {
        buffer.add_packet(RtpPacket::new(0, seq * 2, 0, 1), u64::from(seq));
        assert!(buffer.get_buffer_size() <= 2);
    }
}

#[test]
fn a_lone_packet_waits_the_target_delay() {
    let mut buffer = JitterBuffer::new(10, 20);
    assert!(buffer.add_packet(RtpPacket::new(0, 5, 0, 1), 0).is_empty());
    assert!(buffer.add_packet(RtpPacket::new(0, 7, 0, 1), 19).is_empty());
    let ready = buffer.add_packet(RtpPacket::new(0, 9, 0, 1), 20);
    assert_eq!(ready.len(), 1);
    assert_eq!(ready[0].sequence_number, 5);
}
