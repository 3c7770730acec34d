//! A binary codec for a simplified Bitcoin-style transaction format.
//!
//! Every wire form is described by a spec function (`*_bytes`) and every
//! reader by a spec parser (`parse_*`) over byte sequences; the executable
//! encoders and decoders are proved to compute exactly those.
pub mod error;
pub mod le;
pub mod varint;
pub mod outpoint;
pub mod script;
pub mod input;
pub mod transaction;
pub mod text;

pub use error::BitcoinError;
pub use input::TransactionInput;
pub use outpoint::{OutPoint, Txid};
pub use script::Script;
pub use transaction::BitcoinTransaction;
pub use varint::CompactSize;
pub mod report;
