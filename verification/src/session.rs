//! One invocation, step by step.
//!
//! The library decides and the caller acts. A session hands out one
//! [`Action`] at a time; the caller performs it against the store, the
//! upstream client or the operator's terminal, and hands back what came of
//! it as an [`Event`]. [`next`] says which state and which action follow
//! from each state and event.
//!
//! A session resolves the selected block numbers one after the other, each
//! to the one hash recorded under it and that hash to the one payload cached
//! under it. It then asks for the canonical blocks of all those hashes at
//! once, compares, and has each block that differs shown to the operator
//! and then deleted.

use crate::block::{
    hashes_of, report_views, CachedBlock, DivergenceReport, ProviderBlock, ReportView,
};
use crate::delta::{compare_blocks, comparison, divergence, lemma_comparison};
use crate::failure::{Failure, InputError, Lookup, ResolutionError, UpstreamError};
use crate::hash::{parse_hash, BlockHash};
use crate::json::Json;
use crate::range::{parse_range, Range};
use crate::single::{get_single_item, single_item};
use crate::upstream::provider_payloads;
use vstd::prelude::*;

verus! {

/// What is looked for under a block number.
pub const BLOCK_HASH: &'static str = "block hash";

/// What is looked for under a hash.
pub const BLOCK: &'static str = "block";

/// What a session waits for.
#[derive(Debug, Clone, Copy)]
pub enum Stage {
    /// The number of the chain head, for a range that starts at `first`.
    ChainHead { first: i32 },
    /// The hashes recorded under `number`; the numbers up to `last` follow.
    Hashes { number: i32, last: i32 },
    /// The payloads cached under `hash`; then the numbers from `then.0` to
    /// `then.1`, where there are any left.
    Blocks { hash: BlockHash, then: Option<(i32, i32)> },
    /// The canonical blocks of all the cached blocks.
    Provider,
    /// The word that report `index` was shown.
    Displayed { index: usize },
    /// The word that the block of report `index` was deleted.
    Deleted { index: usize },
    /// Nothing: the invocation is over.
    Done,
}

/// What the caller is asked to do next.
#[derive(Debug)]
pub enum Action {
    /// Ask the store for the number of its chain head.
    ReadChainHead,
    /// Ask the store for the hashes recorded under a block number.
    LookupHashes { number: i32 },
    /// Ask the store for the payloads cached under a hash.
    LookupBlocks { hash: BlockHash },
    /// Ask upstream for the blocks of these hashes. The answers are handed
    /// back in the order of the hashes, in whatever order they were asked.
    FetchBlocks { hashes: Vec<BlockHash> },
    /// Show the operator that the block of this hash differs, and how.
    Display { hash: BlockHash, diff: String },
    /// Delete the rows of this hash from the cache.
    DeleteBlock { hash: BlockHash },
    /// Stop: the invocation has succeeded.
    Finish,
    /// Stop: the invocation has failed.
    Fail(Failure),
}

/// What came of the action that the caller performed.
#[derive(Debug)]
pub enum Event {
    ChainHead(Option<i32>),
    Hashes(Vec<BlockHash>),
    Blocks(Vec<Json>),
    Fetched(Vec<Option<ProviderBlock>>),
    Displayed,
    Deleted,
}

#[verifier::ext_equal]
pub ghost enum ActionView {
    ReadChainHead,
    LookupHashes { number: i32 },
    LookupBlocks { hash: BlockHash },
    FetchBlocks { hashes: Seq<BlockHash> },
    Display { hash: BlockHash, diff: Seq<char> },
    DeleteBlock { hash: BlockHash },
    Finish,
    Fail(Failure),
}

#[verifier::ext_equal]
pub ghost enum EventView {
    ChainHead(Option<i32>),
    Hashes(Seq<BlockHash>),
    Blocks(Seq<Json>),
    Fetched(Seq<Option<ProviderBlock>>),
    Displayed,
    Deleted,
}

impl View for Action {
    type V = ActionView;

    open spec fn view(&self) -> ActionView {
        match *self {
            Action::ReadChainHead => ActionView::ReadChainHead,
            Action::LookupHashes { number } => ActionView::LookupHashes { number },
            Action::LookupBlocks { hash } => ActionView::LookupBlocks { hash },
            Action::FetchBlocks { hashes } => ActionView::FetchBlocks { hashes: hashes@ },
            Action::Display { hash, diff } => ActionView::Display { hash, diff: diff@ },
            Action::DeleteBlock { hash } => ActionView::DeleteBlock { hash },
            Action::Finish => ActionView::Finish,
            Action::Fail(failure) => ActionView::Fail(failure),
        }
    }
}

impl View for Event {
    type V = EventView;

    open spec fn view(&self) -> EventView {
        match *self {
            Event::ChainHead(head) => EventView::ChainHead(head),
            Event::Hashes(hashes) => EventView::Hashes(hashes@),
            Event::Blocks(blocks) => EventView::Blocks(blocks@),
            Event::Fetched(responses) => EventView::Fetched(responses@),
            Event::Displayed => EventView::Displayed,
            Event::Deleted => EventView::Deleted,
        }
    }
}

/// The state of a session: what it waits for, the blocks it has resolved
/// from the cache so far and, once the comparison is made, what upstream
/// sent for them and the reports.
#[verifier::ext_equal]
pub ghost struct SessionView {
    pub stage: Stage,
    pub cached: Seq<CachedBlock>,
    pub responses: Seq<Option<ProviderBlock>>,
    pub reports: Seq<ReportView>,
}

impl SessionView {
    /// The resolved blocks can be counted. While blocks are shown and
    /// deleted, the reports are those of the comparison of the cached blocks
    /// with what upstream sent, and the report in hand is one that found a
    /// difference.
    pub open spec fn wf(self) -> bool {
        &&& self.cached.len() <= usize::MAX
        &&& match self.stage {
            Stage::Displayed { index } => self.remediates(index as int),
            Stage::Deleted { index } => self.remediates(index as int),
            _ => true,
        }
    }

    pub open spec fn remediates(self, index: int) -> bool {
        &&& comparison(self.cached, self.responses) == Ok::<Seq<ReportView>, Failure>(
            self.reports,
        )
        &&& 0 <= index < self.reports.len()
        &&& self.reports[index].diff is Some
    }
}

/// The state of a session that is over.
pub open spec fn over() -> SessionView {
    SessionView {
        stage: Stage::Done,
        cached: Seq::empty(),
        responses: Seq::empty(),
        reports: Seq::empty(),
    }
}

pub open spec fn fail(failure: Failure) -> (SessionView, ActionView) {
    (over(), ActionView::Fail(failure))
}

pub open spec fn finish() -> (SessionView, ActionView) {
    (over(), ActionView::Finish)
}

/// With `cached` resolved so far, go on with the block numbers from
/// `number` to `last`: look up the first of them, or, where none is left,
/// fetch.
pub open spec fn resolve(cached: Seq<CachedBlock>, number: int, last: int) -> (
    SessionView,
    ActionView,
) {
    if number > last {
        fetch(cached)
    } else {
        (
            SessionView {
                stage: Stage::Hashes { number: number as i32, last: last as i32 },
                cached,
                responses: Seq::empty(),
                reports: Seq::empty(),
            },
            ActionView::LookupHashes { number: number as i32 },
        )
    }
}

/// With every selected block resolved, ask upstream for all of them; where
/// the selection is empty there is nothing to compare.
pub open spec fn fetch(cached: Seq<CachedBlock>) -> (SessionView, ActionView) {
    if cached.len() == 0 {
        finish()
    } else {
        (
            SessionView {
                stage: Stage::Provider,
                cached,
                responses: Seq::empty(),
                reports: Seq::empty(),
            },
            ActionView::FetchBlocks { hashes: hashes_of(cached) },
        )
    }
}

/// The first report from `from` on that found a difference.
pub open spec fn next_divergent(reports: Seq<ReportView>, from: int) -> Option<int>
    decreases reports.len() - from,
{
    if from < 0 || from >= reports.len() {
        None
    } else if reports[from].diff is Some {
        Some(from)
    } else {
        next_divergent(reports, from + 1)
    }
}

/// Go on with the reports from `from` on: show the first that found a
/// difference, or, where none is left, finish.
pub open spec fn remediate(s: SessionView, from: int) -> (SessionView, ActionView) {
    match next_divergent(s.reports, from) {
        None => finish(),
        Some(k) => (
            SessionView { stage: Stage::Displayed { index: k as usize }, ..s },
            ActionView::Display { hash: s.reports[k].hash, diff: s.reports[k].diff->0 },
        ),
    }
}

/// The state and the action that follow from a state and an event.
///
/// - A chain head starts the resolution of an open range; a store that
///   knows none fails it.
/// - Under a block number exactly one hash must be recorded, and under a
///   hash exactly one payload must be cached.
/// - What upstream sent is checked and compared as `comparison` says, and
///   any failure there ends the invocation before anything is deleted.
/// - A block is deleted once its report has been shown.
/// - An event that does not answer the pending action fails the
///   invocation.
pub open spec fn next(s: SessionView, e: EventView) -> (SessionView, ActionView) {
    match (s.stage, e) {
        (Stage::ChainHead { first }, EventView::ChainHead(head)) => match head {
            None => fail(Failure::NoChainHead),
            Some(last) => resolve(Seq::empty(), first as int, last as int),
        },
        (Stage::Hashes { number, last }, EventView::Hashes(hashes)) => match single_item(
            BLOCK_HASH,
            hashes,
        ) {
            Err(error) => fail(Failure::Resolution { lookup: Lookup::Number(number), error }),
            Ok(hash) => (
                SessionView {
                    stage: Stage::Blocks {
                        hash,
                        then: if number < last {
                            Some(((number + 1) as i32, last))
                        } else {
                            None
                        },
                    },
                    cached: s.cached,
                    responses: Seq::empty(),
                    reports: Seq::empty(),
                },
                ActionView::LookupBlocks { hash },
            ),
        },
        (Stage::Blocks { hash, then }, EventView::Blocks(blocks)) => match single_item(
            BLOCK,
            blocks,
        ) {
            Err(error) => fail(Failure::Resolution { lookup: Lookup::Hash(hash), error }),
            Ok(payload) => {
                let cached = s.cached.push(CachedBlock { hash, payload });
                match then {
                    Some((number, last)) => resolve(cached, number as int, last as int),
                    None => fetch(cached),
                }
            },
        },
        (Stage::Provider, EventView::Fetched(responses)) => match comparison(
            s.cached,
            responses,
        ) {
            Err(failure) => fail(failure),
            Ok(reports) => remediate(
                SessionView { stage: s.stage, cached: s.cached, responses, reports },
                0,
            ),
        },
        (Stage::Displayed { index }, EventView::Displayed) => (
            SessionView { stage: Stage::Deleted { index }, ..s },
            ActionView::DeleteBlock { hash: s.reports[index as int].hash },
        ),
        (Stage::Deleted { index }, EventView::Deleted) => remediate(s, index + 1),
        _ => fail(Failure::UnexpectedEvent),
    }
}

/// How the inspection of one block starts, given its hash.
pub open spec fn hash_selected(hash: BlockHash) -> (SessionView, ActionView) {
    (
        SessionView {
            stage: Stage::Blocks { hash, then: None },
            cached: Seq::empty(),
            responses: Seq::empty(),
            reports: Seq::empty(),
        },
        ActionView::LookupBlocks { hash },
    )
}

/// How the inspection of one block starts, given its number.
pub open spec fn number_selected(number: i32) -> (SessionView, ActionView) {
    if number < 0 {
        fail(Failure::Input(InputError::NegativeBlockNumber(number)))
    } else {
        resolve(Seq::empty(), number as int, number as int)
    }
}

/// How the inspection of a range of blocks starts. A range that is closed
/// above is resolved up to the number before its exclusive bound; for one
/// that is open above the chain head is read first.
pub open spec fn range_selected(text: Seq<char>) -> (SessionView, ActionView) {
    match parse_range(text) {
        Err(error) => fail(Failure::Input(InputError::Range(error))),
        Ok(range) => match range.bounds() {
            Err(error) => fail(Failure::Input(InputError::Range(error))),
            Ok((first, None)) => (
                SessionView {
                    stage: Stage::ChainHead { first },
                    cached: Seq::empty(),
                    responses: Seq::empty(),
                    reports: Seq::empty(),
                },
                ActionView::ReadChainHead,
            ),
            Ok((first, Some(end))) => resolve(Seq::empty(), first as int, end - 1),
        },
    }
}

/// An invocation under way.
pub struct Session {
    stage: Stage,
    cached: Vec<CachedBlock>,
    responses: Ghost<Seq<Option<ProviderBlock>>>,
    reports: Vec<DivergenceReport>,
}

impl View for Session {
    type V = SessionView;

    closed spec fn view(&self) -> SessionView {
        SessionView {
            stage: self.stage,
            cached: self.cached@,
            responses: self.responses@,
            reports: report_views(self.reports@),
        }
    }
}

impl Session {
    #[verifier::type_invariant]
    spec fn well_formed(self) -> bool {
        self@.wf()
    }

    /// What the session waits for.
    pub fn stage(&self) -> (r: Stage)
        ensures
            r == self@.stage,
    {
        self.stage
    }

    /// Takes in what came of the pending action, and says what to do next.
    pub fn step(self, event: Event) -> (r: (Session, Action))
        ensures
            (r.0@, r.1@) == next(self@, event@),
            r.0@.wf(),
    {
        proof {
            use_type_invariant(&self);
        }
        let ghost pre = self@;
        let ghost ev = event@;
        let Session { stage, cached, responses, reports } = self;
        assert(pre.reports.len() == reports.len());
        let r = match (stage, event) {
            (Stage::ChainHead { first }, Event::ChainHead(head)) => match head {
                None => failed(Failure::NoChainHead),
                Some(last) => resolving(Vec::new(), first, last),
            },
            (Stage::Hashes { number, last }, Event::Hashes(hashes)) => match get_single_item(
                BLOCK_HASH,
                hashes,
            ) {
                Err(error) => failed(
                    Failure::Resolution { lookup: Lookup::Number(number), error },
                ),
                Ok(hash) => {
                    let then = if number < last {
                        Some((number + 1, last))
                    } else {
                        None
                    };
                    (awaiting(Stage::Blocks { hash, then }, cached), Action::LookupBlocks { hash })
                },
            },
            (Stage::Blocks { hash, then }, Event::Blocks(blocks)) => match get_single_item(
                BLOCK,
                blocks,
            ) {
                Err(error) => failed(Failure::Resolution { lookup: Lookup::Hash(hash), error }),
                Ok(payload) => {
                    let mut cached = cached;
                    cached.push(CachedBlock { hash, payload });
                    match then {
                        Some((number, last)) => resolving(cached, number, last),
                        None => fetching(cached),
                    }
                },
            },
            (Stage::Provider, Event::Fetched(responses)) => {
                let ghost sent = responses@;
                match compare_blocks(&cached, responses) {
                    Err(failure) => failed(failure),
                    Ok(reports) => remediating(Ghost(stage), cached, Ghost(sent), reports, 0),
                }
            },
            (Stage::Displayed { index }, Event::Displayed) => {
                let hash = reports[index].hash;
                (
                    Session { stage: Stage::Deleted { index }, cached, responses, reports },
                    Action::DeleteBlock { hash },
                )
            },
            (Stage::Deleted { index }, Event::Deleted) => remediating(
                Ghost(stage),
                cached,
                responses,
                reports,
                index + 1,
            ),
            _ => failed(Failure::UnexpectedEvent),
        };
        assert((r.0@, r.1@) =~~= next(pre, ev));
        r
    }
}

/// A session that waits at `stage` with `cached` resolved and nothing yet
/// compared.
fn awaiting(stage: Stage, cached: Vec<CachedBlock>) -> (r: Session)
    requires
        !(stage is Displayed),
        !(stage is Deleted),
    ensures
        r@ == (SessionView {
            stage,
            cached: cached@,
            responses: Seq::empty(),
            reports: Seq::empty(),
        }),
        r@.wf(),
{
    let ghost before = cached@;
    assert(before.len() <= usize::MAX) by {
        assert(before.len() == cached.len());
    }
    let r = Session { stage, cached, responses: Ghost(Seq::empty()), reports: Vec::new() };
    assert(r@ =~~= SessionView {
        stage,
        cached: before,
        responses: Seq::empty(),
        reports: Seq::empty(),
    });
    r
}

fn failed(failure: Failure) -> (r: (Session, Action))
    ensures
        (r.0@, r.1@) == fail(failure),
        r.0@.wf(),
{
    (awaiting(Stage::Done, Vec::new()), Action::Fail(failure))
}

fn finished() -> (r: (Session, Action))
    ensures
        (r.0@, r.1@) == finish(),
        r.0@.wf(),
{
    (awaiting(Stage::Done, Vec::new()), Action::Finish)
}

fn resolving(cached: Vec<CachedBlock>, number: i32, last: i32) -> (r: (Session, Action))
    ensures
        (r.0@, r.1@) == resolve(cached@, number as int, last as int),
        r.0@.wf(),
{
    if number > last {
        fetching(cached)
    } else {
        (awaiting(Stage::Hashes { number, last }, cached), Action::LookupHashes { number })
    }
}

fn fetching(cached: Vec<CachedBlock>) -> (r: (Session, Action))
    ensures
        (r.0@, r.1@) == fetch(cached@),
        r.0@.wf(),
{
    if cached.len() == 0 {
        return finished();
    }
    let mut hashes: Vec<BlockHash> = Vec::new();
    let mut i: usize = 0;
    while i < cached.len()
        invariant
            i <= cached.len(),
            hashes@ == hashes_of(cached@.subrange(0, i as int)),
        decreases cached.len() - i,
    {
        hashes.push(cached[i].hash);
        assert(hashes@ =~= hashes_of(cached@.subrange(0, i + 1)));
        i += 1;
    }
    assert(cached@.subrange(0, cached.len() as int) =~= cached@);
    (awaiting(Stage::Provider, cached), Action::FetchBlocks { hashes })
}

fn remediating(
    stage: Ghost<Stage>,
    cached: Vec<CachedBlock>,
    responses: Ghost<Seq<Option<ProviderBlock>>>,
    reports: Vec<DivergenceReport>,
    from: usize,
) -> (r: (Session, Action))
    requires
        from <= reports.len(),
        comparison(cached@, responses@) == Ok::<Seq<ReportView>, Failure>(report_views(reports@)),
    ensures
        (r.0@, r.1@) == remediate(
            SessionView {
                stage: stage@,
                cached: cached@,
                responses: responses@,
                reports: report_views(reports@),
            },
            from as int,
        ),
        r.0@.wf(),
{
    let ghost all = report_views(reports@);
    let ghost before = SessionView {
        stage: stage@,
        cached: cached@,
        responses: responses@,
        reports: all,
    };
    let mut k: usize = from;
    while k < reports.len()
        invariant
            from <= k <= reports.len(),
            all == report_views(reports@),
            comparison(cached@, responses@) == Ok::<Seq<ReportView>, Failure>(all),
            before == (SessionView {
                stage: stage@,
                cached: cached@,
                responses: responses@,
                reports: all,
            }),
            next_divergent(all, from as int) == next_divergent(all, k as int),
        decreases reports.len() - k,
    {
        match &reports[k].diff {
            Some(text) => {
                let hash = reports[k].hash;
                let diff = text.clone();
                assert(all[k as int].diff == Some(diff@));
                let r = (
                    Session { stage: Stage::Displayed { index: k }, cached, responses, reports },
                    Action::Display { hash, diff },
                );
                assert((r.0@, r.1@) =~~= remediate(before, from as int));
                return r;
            },
            None => {},
        }
        k += 1;
    }
    finished()
}

/// Starts the inspection of the block of a hash, given as hexadecimal text
/// with or without the prefix `0x`.
pub fn by_hash(hash: &str) -> (r: (Session, Action))
    ensures
        match parse_hash(hash@) {
            Err(error) => (r.0@, r.1@) == fail(Failure::Input(InputError::Hash(error))),
            Ok(bytes) => exists|h: BlockHash| h@ == bytes && (r.0@, r.1@) == hash_selected(h),
        },
        r.0@.wf(),
{
    match BlockHash::parse(hash) {
        Err(error) => failed(Failure::Input(InputError::Hash(error))),
        Ok(hash) => {
            let r = (
                awaiting(Stage::Blocks { hash, then: None }, Vec::new()),
                Action::LookupBlocks { hash },
            );
            assert((r.0@, r.1@) =~~= hash_selected(hash));
            r
        },
    }
}

/// Starts the inspection of the block of a number.
pub fn by_number(number: i32) -> (r: (Session, Action))
    ensures
        (r.0@, r.1@) == number_selected(number),
        r.0@.wf(),
{
    if number < 0 {
        failed(Failure::Input(InputError::NegativeBlockNumber(number)))
    } else {
        resolving(Vec::new(), number, number)
    }
}

/// Starts the inspection of the blocks of a range of numbers.
pub fn by_range(range: &str) -> (r: (Session, Action))
    ensures
        (r.0@, r.1@) == range_selected(range@),
        r.0@.wf(),
{
    let range = match Range::from_str(range) {
        Err(error) => {
            return failed(Failure::Input(InputError::Range(error)));
        },
        Ok(range) => range,
    };
    match range.min_max() {
        Err(error) => failed(Failure::Input(InputError::Range(error))),
        Ok((first, None)) => {
            (awaiting(Stage::ChainHead { first }, Vec::new()), Action::ReadChainHead)
        },
        Ok((first, Some(end))) => {
            if end <= first {
                finished()
            } else {
                resolving(Vec::new(), first, end - 1)
            }
        },
    }
}

/// The report that `next_divergent` finds is one that found a difference,
/// and no report between `from` and it did.
pub proof fn lemma_next_divergent(reports: Seq<ReportView>, from: int)
    requires
        0 <= from,
    ensures
        match next_divergent(reports, from) {
            Some(k) => from <= k < reports.len() && reports[k].diff is Some && forall|j: int|
                from <= j < k ==> (#[trigger] reports[j]).diff is None,
            None => forall|j: int| from <= j < reports.len() ==> (#[trigger] reports[j]).diff
                is None,
        },
    decreases reports.len() - from,
{
    if from < reports.len() && reports[from].diff is None {
        lemma_next_divergent(reports, from + 1);
    }
}

/// Every step leaves the session well formed, as long as one more block
/// can be counted.
pub proof fn lemma_next_keeps_wf(s: SessionView, e: EventView)
    requires
        s.wf(),
        s.cached.len() < usize::MAX,
    ensures
        next(s, e).0.wf(),
        next(s, e).0.cached.len() <= s.cached.len() + 1,
{
    match (s.stage, e) {
        (Stage::Provider, EventView::Fetched(responses)) => {
            lemma_comparison(s.cached, responses);
            if comparison(s.cached, responses) is Ok {
                lemma_next_divergent(comparison(s.cached, responses)->Ok_0, 0);
            }
        },
        (Stage::Deleted { index }, EventView::Deleted) => {
            lemma_comparison(s.cached, s.responses);
            lemma_next_divergent(s.reports, index + 1);
        },
        _ => {},
    }
}

/// Under a block number exactly one hash must be recorded: where there is
/// none the hash is not found, where there are several it is ambiguous, and
/// either ends the invocation.
pub proof fn lemma_one_hash_per_number(s: SessionView, hashes: Seq<BlockHash>)
    requires
        s.stage is Hashes,
    ensures
        hashes.len() == 0 ==> next(s, EventView::Hashes(hashes)) == fail(
            Failure::Resolution {
                lookup: Lookup::Number(s.stage->number),
                error: ResolutionError::NotFound { name: BLOCK_HASH },
            },
        ),
        hashes.len() >= 2 ==> next(s, EventView::Hashes(hashes)) == fail(
            Failure::Resolution {
                lookup: Lookup::Number(s.stage->number),
                error: ResolutionError::Ambiguous {
                    name: BLOCK_HASH,
                    count: hashes.len() as usize,
                },
            },
        ),
        hashes.len() == 1 ==> next(s, EventView::Hashes(hashes)).1 == (ActionView::LookupBlocks {
            hash: hashes[0],
        }),
{
}

/// Under a hash exactly one payload must be cached: where there is none the
/// block is not found, where there are several it is ambiguous, and either
/// ends the invocation.
pub proof fn lemma_one_block_per_hash(s: SessionView, blocks: Seq<Json>)
    requires
        s.stage is Blocks,
    ensures
        blocks.len() == 0 ==> next(s, EventView::Blocks(blocks)) == fail(
            Failure::Resolution {
                lookup: Lookup::Hash(s.stage->hash),
                error: ResolutionError::NotFound { name: BLOCK },
            },
        ),
        blocks.len() >= 2 ==> next(s, EventView::Blocks(blocks)) == fail(
            Failure::Resolution {
                lookup: Lookup::Hash(s.stage->hash),
                error: ResolutionError::Ambiguous { name: BLOCK, count: blocks.len() as usize },
            },
        ),
        blocks.len() == 1 ==> !(next(s, EventView::Blocks(blocks)).1 is Fail),
{
}

/// What upstream sent is taken as a whole or not at all: a batch of another
/// length than the request, a missing block, a block that reports another
/// hash than the one requested, and a delta that cannot be shown each end
/// the invocation with nothing deleted.
pub proof fn lemma_bad_batch_ends_the_session(s: SessionView, responses: Seq<Option<ProviderBlock>>)
    requires
        s.stage is Provider,
    ensures
        s.cached.len() != responses.len() ==> next(s, EventView::Fetched(responses)) == fail(
            Failure::Upstream(
                UpstreamError::ShortBatch {
                    expected: s.cached.len() as usize,
                    received: responses.len() as usize,
                },
            ),
        ),
        provider_payloads(s.cached, responses) matches Err(error) ==> next(
            s,
            EventView::Fetched(responses),
        ) == fail(Failure::Upstream(error)),
        comparison(s.cached, responses) matches Err(failure) ==> next(
            s,
            EventView::Fetched(responses),
        ) == fail(failure),
{
}

/// A failure is final: the session is over, and whatever is handed to a
/// session that is over, it asks for nothing more.
pub proof fn lemma_failure_is_final(s: SessionView, e: EventView, later: EventView)
    ensures
        next(s, e).1 is Fail ==> next(s, e).0 == over(),
        next(s, e).1 is Finish ==> next(s, e).0 == over(),
        next(over(), later) == fail(Failure::UnexpectedEvent),
{
}

/// A session comes to wait for word that a report was shown only by asking
/// to show that report.
pub proof fn lemma_display_is_asked_for(s: SessionView, e: EventView)
    requires
        s.wf(),
    ensures
        next(s, e).0.stage matches Stage::Displayed { index } ==> next(s, e).1 == (
        ActionView::Display {
            hash: next(s, e).0.reports[index as int].hash,
            diff: next(s, e).0.reports[index as int].diff->0,
        }),
{
    match (s.stage, e) {
        (Stage::Provider, EventView::Fetched(responses)) => {
            lemma_comparison(s.cached, responses);
            if comparison(s.cached, responses) is Ok {
                lemma_next_divergent(comparison(s.cached, responses)->Ok_0, 0);
            }
        },
        (Stage::Deleted { index }, EventView::Deleted) => {
            lemma_comparison(s.cached, s.responses);
            lemma_next_divergent(s.reports, index + 1);
        },
        _ => {},
    }
}

/// A block is deleted only once its report was shown, and only where the
/// comparison found that it differs: its cached payload and the payload
/// that upstream sent under the same hash diverge.
pub proof fn lemma_deleted_block_diverges(s: SessionView, e: EventView)
    requires
        s.wf(),
    ensures
        next(s, e).1 matches ActionView::DeleteBlock { hash } ==> {
            &&& e == EventView::Displayed
            &&& s.stage matches Stage::Displayed { index }
            &&& index < s.cached.len()
            &&& index < s.responses.len()
            &&& s.cached[index as int].hash == hash
            &&& s.responses[index as int] matches Some(block)
            &&& block.hash matches Some(reported)
            &&& reported@ == hash@
            &&& divergence(s.cached[index as int].payload, block.payload) matches Ok(Some(_))
        },
{
    if next(s, e).1 is DeleteBlock {
        lemma_comparison(s.cached, s.responses);
        let index = s.stage->Displayed_index;
        assert(s.reports[index as int].diff is Some);
    }
}

/// The actions that a session asks for as events come in, one after each.
pub open spec fn run(s: SessionView, events: Seq<EventView>) -> Seq<ActionView>
    decreases events.len(),
{
    if events.len() == 0 {
        Seq::empty()
    } else {
        seq![next(s, events[0]).1] + run(next(s, events[0]).0, events.drop_first())
    }
}

/// However a session runs, deletion comes after display: the action before
/// each request to delete a block is the request to show the report on
/// that block.
pub proof fn lemma_delete_follows_display(s: SessionView, events: Seq<EventView>, n: int)
    requires
        s.wf(),
        s.cached.len() + events.len() <= usize::MAX,
        1 <= n < events.len(),
    ensures
        run(s, events).len() == events.len(),
        run(s, events)[n] matches ActionView::DeleteBlock { hash } ==> run(s, events)[n - 1]
            matches ActionView::Display { hash: shown, .. } && shown == hash,
    decreases events.len(),
{
    let t = next(s, events[0]).0;
    let rest = events.drop_first();
    lemma_run_length(s, events);
    lemma_run_length(t, rest);
    lemma_next_keeps_wf(s, events[0]);
    assert(run(s, events)[n] == run(t, rest)[n - 1]);
    if n == 1 {
        assert(run(t, rest)[0] == next(t, rest[0]).1);
        assert(run(s, events)[0] == next(s, events[0]).1);
        lemma_display_is_asked_for(s, events[0]);
    } else {
        lemma_delete_follows_display(t, rest, n - 1);
        assert(run(s, events)[n - 1] == run(t, rest)[n - 2]);
    }
}

/// A session asks for one action after each event.
pub proof fn lemma_run_length(s: SessionView, events: Seq<EventView>)
    ensures
        run(s, events).len() == events.len(),
    decreases events.len(),
{
    if events.len() > 0 {
        lemma_run_length(next(s, events[0]).0, events.drop_first());
    }
}

/// A session that is over asks for nothing, whatever it is handed.
pub proof fn lemma_over_stays_over(events: Seq<EventView>, n: int)
    requires
        0 <= n < events.len(),
    ensures
        run(over(), events)[n] == ActionView::Fail(Failure::UnexpectedEvent),
    decreases events.len(),
{
    let rest = events.drop_first();
    lemma_run_length(over(), rest);
    if n > 0 {
        lemma_over_stays_over(rest, n - 1);
        assert(run(over(), events)[n] == run(over(), rest)[n - 1]);
    }
}

/// However a session runs, nothing follows its end: once it has failed or
/// finished it asks for no lookup, no fetch and no deletion any more.
pub proof fn lemma_nothing_follows_the_end(
    s: SessionView,
    events: Seq<EventView>,
    end: int,
    n: int,
)
    requires
        0 <= end < n < events.len(),
        run(s, events)[end] is Fail || run(s, events)[end] is Finish,
    ensures
        run(s, events)[n] == ActionView::Fail(Failure::UnexpectedEvent),
    decreases events.len(),
{
    let t = next(s, events[0]).0;
    let rest = events.drop_first();
    lemma_run_length(t, rest);
    assert(run(s, events)[n] == run(t, rest)[n - 1]);
    if end == 0 {
        assert(run(s, events)[0] == next(s, events[0]).1);
        lemma_over_stays_over(rest, n - 1);
    } else {
        assert(run(s, events)[end] == run(t, rest)[end - 1]);
        lemma_nothing_follows_the_end(t, rest, end - 1, n - 1);
    }
}

} // verus!
