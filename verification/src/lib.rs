//! Core of a FIX session-layer engine: the tag-value codec, the sequence
//! number tracker, the message verifier, the timer bookkeeping of the low
//! level event loop, and the session state machine that dispatches inbound
//! messages and builds the administrative replies.
//!
//! Everything that decides or computes is here, with contracts; the async
//! transport plumbing around it lives outside the library.

pub mod checksum;
pub mod codec;
pub mod dictionary;
pub mod event_loop;
pub mod laws;
pub mod digits;
pub mod message;
pub mod seqnum;
pub mod session;
pub mod timestamp;
pub mod validation;

pub use checksum::ChecksumAlgo;
pub use checksum::ChecksumAlgoLazy;
pub use checksum::ChecksumAlgoStd;
pub use codec::Body;
pub use codec::Codec;
pub use codec::EncoderHandle;
pub use codec::Error;
pub use codec::InvalidChecksum;
pub use codec::TransCaret;
pub use codec::TransStd;
pub use codec::TransVerticalSlash;
pub use codec::Transmuter;
pub use dictionary::Dictionary;
pub use dictionary::TagLookup;
pub use dictionary::TagLookupPredetermined;
pub use dictionary::TagLookupPredeterminedError;
pub use dictionary::TypeInfo;
pub use event_loop::LlEvent;
pub use event_loop::LlEventLoop;
pub use message::encode_field;
pub use message::field_value;
pub use message::FieldValue;
pub use message::Message;
pub use seqnum::SeqNumberError;
pub use seqnum::SeqNumbers;
pub use session::Backend;
pub use session::FixConnection;
pub use session::FixConnectionError;
pub use session::Response;
pub use timestamp::utc_now_parts;
pub use timestamp::Timestamp;
pub use validation::Config;
pub use validation::Environment;
pub use validation::Verifier;
pub use validation::Verify;
