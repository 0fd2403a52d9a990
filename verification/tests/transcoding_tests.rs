use redfire_gateway::transcoding::{CodecType, TranscodingBackend, TranscodingService};

#[test]
fn test_transcoding_service_creation() {
    let service = TranscodingService::new(TranscodingBackend::Auto);
    assert!(!service.is_running);
}

#[test]
fn test_stub_transcoding_session() {
    let mut service = TranscodingService::new(TranscodingBackend::Auto);
    service.start().unwrap();
    let session_id = service
        .create_transcoding_session("test-call", CodecType::G711u, CodecType::G722, 8000, 16000, 0)
        .unwrap();
    let input_data: Vec<u8> = vec![1, 2, 3, 4, 5];
    let output_data = service.transcode_packet(&session_id, &input_data, 0).unwrap();
    assert_eq!(input_data, output_data);
    let session = service.sessions.sessions.get(&session_id).unwrap();
    assert_eq!(session.stats.packets_processed, 1);
    assert_eq!(session.stats.bytes_processed, 5);
    drop(session);
    service.destroy_transcoding_session(&session_id).unwrap();
    assert!(service.sessions.sessions.get(&session_id).is_none());
    service.stop().unwrap();
    assert!(!service.is_running);
}
