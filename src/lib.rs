//! A streaming client core for a market-data gateway: the WebSocket frame
//! codec over a raw byte stream, the vendor's `~m~<len>~m~` message envelopes,
//! the classification of server messages, and the session engine that answers
//! them.
pub mod envelope;
pub mod frame;
pub mod json;
pub mod protocol;
pub mod session;

pub use frame::{DecodeOutcome, WebSocket, WebsocketError};
pub use protocol::{JsonShape, MessageType, MethodField, TradingviewError};
pub use session::{SessionState, TradingviewApi};
