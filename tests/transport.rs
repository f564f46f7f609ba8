use ktls_uring::{
    classify_read_error, headers_complete, next_connect_state, split_response, transport_for,
    ConnectEvent, ConnectState, ReadAction, ReadFailure, ResponseReader, TransportKind,
};

#[test]
fn offload_failure_routes_to_fallback() {
    let s = next_connect_state(ConnectState::Handshaking, ConnectEvent::HandshakeSucceeded);
    assert_eq!(s, ConnectState::Installing);
    let s = next_connect_state(s, ConnectEvent::OffloadFailed);
    assert_eq!(s, ConnectState::Fallback);
    assert_eq!(next_connect_state(s, ConnectEvent::OffloadInstalled), ConnectState::Fallback);
    assert_eq!(transport_for(s), Some(TransportKind::Software));
}

#[test]
fn offload_success_uses_kernel_path() {
    let s = next_connect_state(ConnectState::Handshaking, ConnectEvent::HandshakeSucceeded);
    let s = next_connect_state(s, ConnectEvent::OffloadInstalled);
    assert_eq!(s, ConnectState::Offloaded);
    assert_eq!(transport_for(s), Some(TransportKind::KernelOffload));
    assert_eq!(transport_for(ConnectState::Installing), None);
}

#[test]
fn handshake_failure_routes_to_fallback() {
    let s = next_connect_state(ConnectState::Handshaking, ConnectEvent::HandshakeFailed);
    assert_eq!(s, ConnectState::Fallback);
}

#[test]
fn zero_length_read_ends_with_accumulated_bytes() {
    let mut reader = ResponseReader::new();
    assert_eq!(reader.on_chunk(b"HTTP/1.1 200 OK\r\n"), ReadAction::ReadMore);
    assert_eq!(reader.on_chunk(b"\r\nbody"), ReadAction::ReadMore);
    assert_eq!(reader.on_chunk(b""), ReadAction::Finished);
    assert_eq!(reader.into_bytes(), b"HTTP/1.1 200 OK\r\n\r\nbody".to_vec());
}

#[test]
fn abrupt_close_after_data_finishes() {
    let mut reader = ResponseReader::new();
    assert_eq!(reader.on_failure(ReadFailure::AbruptClose), ReadAction::Abort);
    reader.on_chunk(b"x");
    assert_eq!(reader.on_failure(ReadFailure::AbruptClose), ReadAction::Finished);
    assert_eq!(reader.on_failure(ReadFailure::Other), ReadAction::Abort);
    assert_eq!(reader.received(), &b"x".to_vec());
}

#[test]
fn read_error_classes() {
    assert_eq!(classify_read_error(TransportKind::KernelOffload, false, Some(5)), ReadFailure::AbruptClose);
    assert_eq!(classify_read_error(TransportKind::Software, false, Some(5)), ReadFailure::Other);
    assert_eq!(classify_read_error(TransportKind::Software, true, None), ReadFailure::AbruptClose);
    assert_eq!(classify_read_error(TransportKind::KernelOffload, false, Some(104)), ReadFailure::Other);
}

#[test]
fn response_split_at_blank_line() {
    assert_eq!(split_response("H: 1\r\n\r\nbody\r\n\r\nmore"), ("H: 1", "body\r\n\r\nmore"));
    assert_eq!(split_response("no body"), ("no body", ""));
    assert_eq!(split_response("é\r\n\r\nü"), ("é", "ü"));
}

#[test]
fn header_block_detection() {
    assert!(!headers_complete(b"HTTP/1.1 101\r\n"));
    assert!(headers_complete(b"HTTP/1.1 101\r\n\r\n"));
    assert!(!headers_complete(b""));
}
