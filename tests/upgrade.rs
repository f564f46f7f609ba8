use ktls_uring::{
    build_handshake_request, compute_accept_key, generate_sec_key, sec_key_from_clock,
    validate_handshake_response, UpgradeError,
};

const KEY: &str = "dGhlIHNhbXBsZSBub25jZQ==";
const ACCEPT: &str = "s3pPLMBiTxaQ9kYGzzhZRbK+xOo=";

fn response(upgrade: &str, connection: &str, accept: &str) -> String {
    format!("HTTP/1.1 101 Switching Protocols\r\n{upgrade}{connection}{accept}\r\n")
}

#[test]
fn rfc_accept_vector() {
    assert_eq!(compute_accept_key(KEY), ACCEPT);
}

#[test]
fn valid_response_is_accepted() {
    let r = response(
        "Upgrade: websocket\r\n",
        "Connection: Upgrade\r\n",
        &format!("Sec-WebSocket-Accept: {ACCEPT}\r\n"),
    );
    assert_eq!(validate_handshake_response(&r, KEY), Ok(()));
}

#[test]
fn header_case_and_spacing_are_ignored() {
    let r = response(
        "UPGRADE: WebSocket\r\n",
        "connection: upgrade\r\n",
        &format!("sec-websocket-accept:   {ACCEPT}  \r\n"),
    );
    assert_eq!(validate_handshake_response(&r, KEY), Ok(()));
}

#[test]
fn missing_connection_header_is_rejected() {
    let r = response("Upgrade: websocket\r\n", "", &format!("Sec-WebSocket-Accept: {ACCEPT}\r\n"));
    assert_eq!(validate_handshake_response(&r, KEY), Err(UpgradeError::MissingConnectionHeader));
}

#[test]
fn missing_upgrade_header_is_rejected() {
    let r = response("", "Connection: Upgrade\r\n", &format!("Sec-WebSocket-Accept: {ACCEPT}\r\n"));
    assert_eq!(validate_handshake_response(&r, KEY), Err(UpgradeError::MissingUpgradeHeader));
}

#[test]
fn wrong_status_is_rejected() {
    let r = "HTTP/1.1 200 OK\r\nUpgrade: websocket\r\nConnection: Upgrade\r\n\r\n";
    assert_eq!(validate_handshake_response(r, KEY), Err(UpgradeError::NotSwitchingProtocols));
    assert_eq!(validate_handshake_response("", KEY), Err(UpgradeError::NotSwitchingProtocols));
}

#[test]
fn missing_accept_header_is_rejected() {
    let r = response("Upgrade: websocket\r\n", "Connection: Upgrade\r\n", "");
    assert_eq!(validate_handshake_response(&r, KEY), Err(UpgradeError::MissingAcceptHeader));
}

#[test]
fn wrong_accept_value_is_rejected() {
    let r = response(
        "Upgrade: websocket\r\n",
        "Connection: Upgrade\r\n",
        "Sec-WebSocket-Accept: AAAAAAAAAAAAAAAAAAAAAAAAAAA=\r\n",
    );
    assert_eq!(validate_handshake_response(&r, KEY), Err(UpgradeError::AcceptMismatch));
}

#[test]
fn handshake_request_text() {
    assert_eq!(
        build_handshake_request("ws.example.com", "/raw", KEY),
        "GET /raw HTTP/1.1\r\nHost: ws.example.com\r\nUpgrade: websocket\r\nConnection: Upgrade\r\nSec-WebSocket-Key: dGhlIHNhbXBsZSBub25jZQ==\r\nSec-WebSocket-Version: 13\r\n\r\n"
    );
}

#[test]
fn sec_key_is_base64_of_sixteen_bytes() {
    assert_eq!(sec_key_from_clock(0), "AAAAAAAAAAAAAAAAAAAAAA==");
    let key = generate_sec_key();
    assert_eq!(key.len(), 24);
    assert!(key.ends_with("=="));
}
