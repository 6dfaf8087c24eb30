//! Reconciliation of a block cache against the chain's upstream source.
//!
//! The library decides; it performs no I/O. An invocation resolves a
//! selector (a hash, a block number or a range of numbers) into cached
//! blocks, compares them with the same blocks as upstream sends them, and
//! evicts the cached blocks that differ. Every step that needs the store,
//! the upstream client or the operator is an [`Action`] that the caller
//! performs; what came of it is handed back as an [`Event`].
//!
//! - [`by_hash`], [`by_number`] and [`by_range`] start a [`Session`];
//!   [`Session::step`] carries it on.
//! - [`truncate`] and [`answered`] decide about the truncation of the whole
//!   cache.
//! - [`Range`] reads range expressions, [`BlockHash`] reads hashes, and
//!   [`Json`] holds the payload of a block.

pub mod block;
pub mod delta;
pub mod failure;
pub mod hash;
pub mod json;
pub mod order;
pub mod range;
pub mod session;
pub mod single;
pub mod text;
pub mod truncate;
pub mod upstream;

pub use block::{CachedBlock, DivergenceReport, ProviderBlock};
pub use delta::{
    compare_blocks, compare_documents, diff_blocks, is_renderable, report_delta, Unrenderable,
};
pub use failure::{Failure, InputError, Lookup, ResolutionError, UpstreamError};
pub use hash::{BlockHash, HashError};
pub use json::{Json, JsonNumber};
pub use range::{Range, RangeError};
pub use session::{by_hash, by_number, by_range, Action, Event, Session, Stage};
pub use single::{get_single_item, single, Single};
pub use truncate::{answered, prompt_for_confirmation, truncate, Truncation};
pub use upstream::{check_provider_block, fetch_provider_blocks};
