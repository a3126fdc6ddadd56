//! A ledger block: its data model, canonical encoding, digests and validity rule.

pub mod block;
pub mod codec;
pub mod digest;
pub mod integer;

pub use block::{Block, BlockError, BlockModel, BLOCK_FIELDS};
pub use integer::Int;
