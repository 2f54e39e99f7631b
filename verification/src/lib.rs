//! Length-prefixed framing of `nwd1` frames over a reliable, ordered byte stream.
//!
//! Every frame travels as an 8-byte header (4 magic bytes and a big-endian
//! 32-bit body length) followed by the body. The crate holds the wire layout,
//! the reader's state machine, which a transport drives read by read, and an
//! in-memory stream on which whole frames are sent and received.

pub mod codec;
pub mod endian;
pub mod frame;
pub mod framing;
pub mod reader;
pub mod stream;
pub mod wire;

pub use frame::Frame;
pub use framing::{encode_frame, recv_frame, send_frame};
pub use reader::{FrameReader, ReadOutcome, RecvError, RecvResult, Step};
pub use stream::{MemoryStream, StreamReset};
pub use wire::{parse_header, HeaderError, HEADER_LEN, MAGIC, MAX_FRAME_LEN};
