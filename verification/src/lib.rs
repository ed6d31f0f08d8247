//! Framing and error resilience for messages sent through a one-bit visual
//! channel: a bit buffer, a Hamming(7,4) codec, and a preamble / length /
//! checksum package format whose decoder survives misaligned input.

pub mod bits;
pub mod checksum;
pub mod error;
pub mod guarantees;
pub mod hamming;
pub mod link;
pub mod message;
pub mod signal;
pub mod video;

pub use bits::{from_bytes, slice, to_bytes};
pub use error::SignalError;
pub use hamming::{from_hamming, hamming_decode, hamming_encode, to_hamming};
pub use link::{prepare_signal, recover_payload, LinkConfig, Reception};
pub use message::Message;
pub use signal::{
    decode_package, encode_package, get_preamble, scan_package, FieldWidth, FrameConfig, Rejection,
    Scan,
};
