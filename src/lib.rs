//! A WebSocket client core for TLS transports with kernel offload.
//!
//! The frame codec, the upgrade handshake checks and the decisions of the
//! transport loops are verified; sockets and TLS sessions live in the
//! application around this library.
pub mod codec;
mod external;
pub mod offload;
pub mod transport;
pub mod upgrade;

pub use codec::{decode_frame, encode_close_frame, encode_frame, encode_frame_with_key, encode_text_frame, generate_mask_key, mask_key_from_clock, parse_frame_header, FrameHeader, Message, Opcode};
pub use upgrade::{build_handshake_request, compute_accept_key, generate_sec_key, sec_key_from_clock, validate_handshake_response, UpgradeError};
pub use transport::{classify_read_error, headers_complete, next_connect_state, split_response, transport_for, ConnectEvent, ConnectState, ReadAction, ReadFailure, ResponseReader, TransportKind};
pub use offload::{offload_config, CipherSuite, OffloadConfig, TlsVersion};
