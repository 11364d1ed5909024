//! Streams that arrive as AS2 messages. One message is one stream, the
//! partner ids and the message id kept beside it.
//!
//! AS2 is EDI over HTTP, RFC 4130: a POST carrying the payload as its body
//! and the partners in `AS2-From` and `AS2-To`, answered with a Message
//! Disposition Notification that carries the MIC of what arrived: the
//! receipt a partner keeps as proof of delivery. A receiver answers each
//! message with its receipt; a sender posts to a partner and reads the
//! receipt back on the same connection, refusing the send where the receipt
//! is missing, says anything but processed, or names a MIC other than the one
//! computed here.
//!
//! S/MIME signing and encryption need a certificate. The envelope and the
//! receipt are here; whoever holds the certificate implements [`Signer`], and
//! without one the exchange is [`Unsigned`].
//!
//! What is here decides and computes; the sockets are the caller's, and so is
//! keeping the one [`Numbers`] that a process tells its messages apart by.
pub mod base64;
pub mod calls;
pub mod error;
pub mod exchange;
pub mod http;
pub mod lemmas;
pub mod loopback;
pub mod mdn;
pub mod message;
pub mod mime;
pub mod multipart;
pub mod numbers;
pub mod signer;
pub mod text;
pub mod transport;

pub use error::TransportError;
pub use mdn::Mdn;
pub use message::Message;
pub use numbers::Numbers;
pub use signer::{Entity, Signer, Unsigned};
pub use transport::As2Transport;
