//! Blocks as the cache holds them and as upstream sends them.

use crate::hash::BlockHash;
use crate::json::Json;
use vstd::prelude::*;

verus! {

/// A block of the cache: the hash under which it is kept, and its payload.
#[derive(Debug)]
pub struct CachedBlock {
    pub hash: BlockHash,
    pub payload: Json,
}

/// A block as upstream sent it: the hash that upstream reports for it,
/// where it reports one, and its payload.
#[derive(Debug)]
pub struct ProviderBlock {
    pub hash: Option<BlockHash>,
    pub payload: Json,
}

/// What the comparison of one cached block with upstream found: `diff` is
/// `None` where the two are structurally equal, and else the text that
/// shows the delta to the operator.
#[derive(Debug)]
pub struct DivergenceReport {
    pub hash: BlockHash,
    pub diff: Option<String>,
}

/// The characters of a text that may be absent.
pub open spec fn text_of(diff: Option<String>) -> Option<Seq<char>> {
    match diff {
        Some(text) => Some(text@),
        None => None,
    }
}

/// A report, with its text as characters.
#[verifier::ext_equal]
pub ghost struct ReportView {
    pub hash: BlockHash,
    pub diff: Option<Seq<char>>,
}

impl View for DivergenceReport {
    type V = ReportView;

    open spec fn view(&self) -> ReportView {
        ReportView { hash: self.hash, diff: text_of(self.diff) }
    }
}

/// The views of reports, in their order.
pub open spec fn report_views(reports: Seq<DivergenceReport>) -> Seq<ReportView> {
    reports.map_values(|r: DivergenceReport| r@)
}

/// The hashes of cached blocks, in their order.
pub open spec fn hashes_of(blocks: Seq<CachedBlock>) -> Seq<BlockHash> {
    blocks.map_values(|b: CachedBlock| b.hash)
}

} // verus!
