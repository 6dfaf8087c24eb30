//! The divergence engine: whether a cached document and its canonical
//! counterpart differ, and the text that shows how.

use crate::block::{
    report_views, text_of, CachedBlock, DivergenceReport, ProviderBlock, ReportView,
};
use crate::failure::Failure;
use crate::json::{from_value, to_value, Json};
use crate::order::{least, lemma_least, lemma_least_is, lemma_least_none};
use crate::upstream::{fetch_provider_blocks, lemma_provider_payloads, provider_payloads};
use vstd::prelude::*;

verus! {

/// The structural delta of two documents, as the diff library computes it:
/// `None` where it finds them identical.
pub uninterp spec fn delta_of(cached: Json, fresh: Json) -> Option<Json>;

/// The text that the diff library writes for a delta, without colours.
pub uninterp spec fn rendering_of(delta: Json) -> Seq<char>;

/// Calls `json_structural_diff::JsonDiff::diff` on the two documents, keys
/// and values both compared, and hands back the `diff` field of what it
/// returns. The library walks no hash map whose order could reach the
/// result, so the delta depends on the two documents alone.
#[verifier::external_body]
fn structural_delta(cached: &Json, fresh: &Json) -> (r: Option<Json>)
    ensures
        r == delta_of(*cached, *fresh),
{
    let found = json_structural_diff::JsonDiff::diff(&to_value(cached), &to_value(fresh), false);
    found.diff.map(|delta| from_value(&delta))
}

/// Calls `json_structural_diff::colorize` without colours. On an array it
/// takes for the delta of an array, the library indexes into each item and
/// unwraps what it finds there: `renderable` leaves out the deltas on which
/// that fails.
#[verifier::external_body]
fn render_delta(delta: &Json) -> (r: String)
    requires
        renderable(*delta),
    ensures
        r@ == rendering_of(*delta),
{
    json_structural_diff::colorize(&to_value(delta), false)
}

/// The mark of an item that was kept: one blank.
pub open spec fn blank() -> Seq<char> {
    seq![' ']
}

/// Whether a text is one of the four marks that open an entry of an array's
/// delta: kept, removed, added, changed.
pub open spec fn is_mark(text: Seq<char>) -> bool {
    text == blank() || text == seq!['-'] || text == seq!['+'] || text == seq!['~']
}

/// Whether the renderer takes `item` for an entry of an array's delta: a
/// mark with a document, or the blank alone.
pub open spec fn looks_like_entry(item: Json) -> bool {
    match item {
        Json::Array(e) => e.len() >= 1 && match e[0] {
            Json::String(mark) => is_mark(mark@) && (e.len() == 2 || (e.len() == 1 && mark@
                == blank())),
            _ => false,
        },
        _ => false,
    }
}

/// Whether the renderer can walk `item` as an entry of an array's delta. It
/// passes over what is no array. Of an array it wants a text in the first
/// place: the blank alone, or a mark followed by a delta it can render.
pub open spec fn entry_renderable(item: Json) -> bool
    decreases item, 0nat,
{
    match item {
        Json::Array(e) => marked_renderable(e@),
        _ => true,
    }
}

/// Whether the renderer can walk the items of an entry.
pub open spec fn marked_renderable(e: Seq<Json>) -> bool
    decreases e, 0nat,
{
    e.len() >= 1 && match e[0] {
        Json::String(mark) => (e.len() == 1 && mark@ == blank()) || (e.len() >= 2 && is_mark(
            mark@,
        ) && renderable(e[1])),
        _ => false,
    }
}

/// Whether the renderer can write `delta` out. It decides by the last item
/// of an array whether the array is the delta of an array, and then walks
/// every item as an entry of one.
pub open spec fn renderable(delta: Json) -> bool
    decreases delta, 1nat,
{
    match delta {
        Json::Object(entries) => values_renderable(entries@),
        Json::Array(items) => items_renderable(items@),
        _ => true,
    }
}

/// Whether the renderer can write out the document of every entry of a map.
pub open spec fn values_renderable(entries: Seq<(String, Json)>) -> bool
    decreases entries, 0nat,
{
    forall|i: int| 0 <= i < entries.len() ==> renderable((#[trigger] entries[i]).1)
}

/// Whether the renderer can write out the items of an array.
pub open spec fn items_renderable(items: Seq<Json>) -> bool
    decreases items, 2nat,
{
    if items.len() == 0 || looks_like_entry(items.last()) {
        forall|i: int| 0 <= i < items.len() ==> entry_renderable(#[trigger] items[i])
    } else {
        forall|i: int| 0 <= i < items.len() ==> renderable(#[trigger] items[i])
    }
}

fn is_blank_text(text: &String) -> (r: bool)
    ensures
        r == (text@ == blank()),
{
    let s = text.as_str();
    let r = s.unicode_len() == 1 && s.get_char(0) == ' ';
    assert(r ==> text@ =~= blank());
    r
}

fn is_mark_text(text: &String) -> (r: bool)
    ensures
        r == is_mark(text@),
{
    let s = text.as_str();
    if s.unicode_len() != 1 {
        return false;
    }
    let c = s.get_char(0);
    assert(text@ =~= seq![c]);
    assert(seq![c][0] == c);
    assert(blank()[0] == ' ' && seq!['-'][0] == '-' && seq!['+'][0] == '+' && seq!['~'][0] == '~');
    c == ' ' || c == '-' || c == '+' || c == '~'
}

fn is_entry_like(item: &Json) -> (r: bool)
    ensures
        r == looks_like_entry(*item),
{
    match item {
        Json::Array(e) => {
            if e.len() == 0 {
                return false;
            }
            match &e[0] {
                Json::String(mark) => is_mark_text(mark) && (e.len() == 2 || (e.len() == 1
                    && is_blank_text(mark))),
                _ => false,
            }
        },
        _ => false,
    }
}

/// Whether the renderer can write `delta` out.
pub fn is_renderable(delta: &Json) -> (r: bool)
    ensures
        r == renderable(*delta),
    decreases delta, 1nat,
{
    match delta {
        Json::Object(entries) => are_values_renderable(entries),
        Json::Array(items) => are_items_renderable(items),
        _ => true,
    }
}

fn are_values_renderable(entries: &Vec<(String, Json)>) -> (r: bool)
    ensures
        r == values_renderable(entries@),
    decreases entries, 0nat,
{
    let mut i: usize = 0;
    while i < entries.len()
        invariant
            i <= entries.len(),
            forall|k: int| 0 <= k < i ==> renderable((#[trigger] entries@[k]).1),
        decreases entries.len() - i,
    {
        if !is_renderable(&entries[i].1) {
            return false;
        }
        i += 1;
    }
    true
}

fn are_items_renderable(items: &Vec<Json>) -> (r: bool)
    ensures
        r == items_renderable(items@),
    decreases items, 2nat,
{
    let as_entries = items.len() == 0 || is_entry_like(&items[items.len() - 1]);
    let mut i: usize = 0;
    while i < items.len()
        invariant
            i <= items.len(),
            as_entries == (items.len() == 0 || looks_like_entry(items@.last())),
            as_entries ==> forall|k: int| 0 <= k < i ==> entry_renderable(#[trigger] items@[k]),
            !as_entries ==> forall|k: int| 0 <= k < i ==> renderable(#[trigger] items@[k]),
        decreases items.len() - i,
    {
        let fine = if as_entries {
            is_entry_renderable(&items[i])
        } else {
            is_renderable(&items[i])
        };
        if !fine {
            return false;
        }
        i += 1;
    }
    true
}

fn is_entry_renderable(item: &Json) -> (r: bool)
    ensures
        r == entry_renderable(*item),
    decreases item, 0nat,
{
    match item {
        Json::Array(e) => is_marked_renderable(e),
        _ => true,
    }
}

fn is_marked_renderable(e: &Vec<Json>) -> (r: bool)
    ensures
        r == marked_renderable(e@),
    decreases e, 0nat,
{
    if e.len() == 0 {
        return false;
    }
    match &e[0] {
        Json::String(mark) => (e.len() == 1 && is_blank_text(mark)) || (e.len() >= 2
            && is_mark_text(mark) && is_renderable(&e[1])),
        _ => false,
    }
}

/// A delta that the renderer cannot write out.
#[derive(Debug, Clone, Copy, PartialEq, Eq, Structural)]
pub struct Unrenderable;

/// What a delta means for the report. No delta, and a delta that is null,
/// both mean that nothing differs. Any other delta is shown as the text
/// that the renderer writes for it.
pub open spec fn judged(delta: Option<Json>) -> Result<Option<Seq<char>>, Unrenderable> {
    match delta {
        None => Ok(None),
        Some(Json::Null) => Ok(None),
        Some(d) => if renderable(d) {
            Ok(Some(rendering_of(d)))
        } else {
            Err(Unrenderable)
        },
    }
}

/// What the comparison of a cached document with its canonical counterpart
/// finds. Documents that are structurally equal do not differ; for others
/// the delta decides.
pub open spec fn divergence(cached: Json, fresh: Json) -> Result<Option<Seq<char>>, Unrenderable> {
    if cached.same(fresh) {
        Ok(None)
    } else {
        judged(delta_of(cached, fresh))
    }
}

/// Turns the delta of two documents into the text of a report.
pub fn report_delta(delta: Option<Json>) -> (r: Result<Option<String>, Unrenderable>)
    ensures
        match r {
            Ok(diff) => judged(delta) == Ok::<Option<Seq<char>>, Unrenderable>(text_of(diff)),
            Err(e) => judged(delta) == Err::<Option<Seq<char>>, Unrenderable>(e),
        },
{
    match delta {
        None => Ok(None),
        Some(Json::Null) => Ok(None),
        Some(d) => {
            if is_renderable(&d) {
                Ok(Some(render_delta(&d)))
            } else {
                Err(Unrenderable)
            }
        },
    }
}

/// Compares a cached document with its canonical counterpart.
pub fn compare_documents(cached: &Json, fresh: &Json) -> (r: Result<Option<String>, Unrenderable>)
    ensures
        match r {
            Ok(diff) => divergence(*cached, *fresh) == Ok::<Option<Seq<char>>, Unrenderable>(
                text_of(diff),
            ),
            Err(e) => divergence(*cached, *fresh) == Err::<Option<Seq<char>>, Unrenderable>(e),
        },
{
    if cached.equals(fresh) {
        Ok(None)
    } else {
        report_delta(structural_delta(cached, fresh))
    }
}

/// The number of pairs that two sequences make, item by item.
pub open spec fn pairs(cached: Seq<CachedBlock>, provider: Seq<Json>) -> int {
    if cached.len() <= provider.len() {
        cached.len() as int
    } else {
        provider.len() as int
    }
}

/// The reports of cached blocks against the canonical payloads at the same
/// places: one for each pair, in the order of the pairs. The first pair
/// whose delta cannot be written out fails the whole comparison.
pub open spec fn reports_of(cached: Seq<CachedBlock>, provider: Seq<Json>) -> Result<
    Seq<ReportView>,
    Failure,
> {
    let n = pairs(cached, provider);
    match least(n, |i: int| divergence(cached[i].payload, provider[i]) is Err) {
        Some(k) => Err(Failure::Unrenderable { hash: cached[k].hash }),
        None => Ok(
            Seq::new(
                n as nat,
                |i: int|
                    ReportView {
                        hash: cached[i].hash,
                        diff: divergence(cached[i].payload, provider[i])->Ok_0,
                    },
            ),
        ),
    }
}

/// There is one report for each pair, in the order of the pairs, and each
/// report says of its own pair whether the two documents differ.
pub proof fn lemma_reports_of(cached: Seq<CachedBlock>, provider: Seq<Json>)
    ensures
        reports_of(cached, provider) matches Ok(reports) ==> reports.len() == pairs(
            cached,
            provider,
        ) && forall|i: int|
            0 <= i < reports.len() ==> (#[trigger] reports[i]).hash == cached[i].hash
                && divergence(cached[i].payload, provider[i]) == Ok::<
                Option<Seq<char>>,
                Unrenderable,
            >(reports[i].diff),
{
    let n = pairs(cached, provider);
    let unrenderable = |i: int| divergence(cached[i].payload, provider[i]) is Err;
    lemma_least(n, unrenderable);
    if reports_of(cached, provider) is Ok {
        let reports = reports_of(cached, provider)->Ok_0;
        assert forall|i: int| 0 <= i < reports.len() implies (#[trigger] reports[i]).hash
            == cached[i].hash && divergence(cached[i].payload, provider[i]) == Ok::<
            Option<Seq<char>>,
            Unrenderable,
        >(reports[i].diff) by {
            assert(!unrenderable(i));
        }
    }
}

/// Documents that are structurally equal do not diverge, whatever the diff
/// library would say of them.
pub proof fn lemma_same_never_diverges(cached: Json, fresh: Json)
    requires
        cached.same(fresh),
    ensures
        divergence(cached, fresh) == Ok::<Option<Seq<char>>, Unrenderable>(None),
{
}

/// A delta that holds nothing, because there is none or because it is
/// null, is no divergence.
pub proof fn lemma_empty_delta_never_diverges(cached: Json, fresh: Json)
    requires
        delta_of(cached, fresh) is None || delta_of(cached, fresh) == Some(Json::Null),
    ensures
        divergence(cached, fresh) == Ok::<Option<Seq<char>>, Unrenderable>(None),
{
}

/// Compares each cached block with the canonical payload at the same place.
pub fn diff_blocks(cached: &Vec<CachedBlock>, provider: &Vec<Json>) -> (r: Result<
    Vec<DivergenceReport>,
    Failure,
>)
    ensures
        match r {
            Ok(reports) => reports_of(cached@, provider@) == Ok::<Seq<ReportView>, Failure>(
                report_views(reports@),
            ),
            Err(failure) => reports_of(cached@, provider@) == Err::<Seq<ReportView>, Failure>(
                failure,
            ),
        },
{
    let n = if cached.len() <= provider.len() { cached.len() } else { provider.len() };
    let ghost unrenderable = |i: int| divergence(cached@[i].payload, provider@[i]) is Err;
    let mut reports: Vec<DivergenceReport> = Vec::new();
    let mut i: usize = 0;
    while i < n
        invariant
            i <= n,
            n == pairs(cached@, provider@),
            unrenderable == |i: int| divergence(cached@[i].payload, provider@[i]) is Err,
            reports.len() == i,
            forall|j: int|
                0 <= j < i ==> (#[trigger] reports[j]).hash == cached[j].hash && divergence(
                    cached[j].payload,
                    provider[j],
                ) == Ok::<Option<Seq<char>>, Unrenderable>(text_of(reports[j].diff)),
            forall|j: int| 0 <= j < i ==> !(#[trigger] unrenderable(j)),
        decreases n - i,
    {
        match compare_documents(&cached[i].payload, &provider[i]) {
            Ok(diff) => {
                reports.push(DivergenceReport { hash: cached[i].hash, diff });
            },
            Err(_) => {
                proof {
                    assert(unrenderable(i as int));
                    lemma_least_is(n as int, unrenderable, i as int);
                }
                return Err(Failure::Unrenderable { hash: cached[i].hash });
            },
        }
        i += 1;
    }
    proof {
        lemma_least_none(n as int, unrenderable);
        assert(report_views(reports@) =~= Seq::new(
            n as nat,
            |i: int|
                ReportView {
                    hash: cached@[i].hash,
                    diff: divergence(cached@[i].payload, provider@[i])->Ok_0,
                },
        ));
    }
    Ok(reports)
}

/// What the comparison of cached blocks with a batch of answers finds: the
/// batch is checked first, then each block is compared.
pub open spec fn comparison(
    cached: Seq<CachedBlock>,
    responses: Seq<Option<ProviderBlock>>,
) -> Result<Seq<ReportView>, Failure> {
    match provider_payloads(cached, responses) {
        Err(e) => Err(Failure::Upstream(e)),
        Ok(payloads) => reports_of(cached, payloads),
    }
}

/// Where the comparison succeeds, every request was answered with the
/// block of the requested hash, and there is one report for each cached
/// block, in their order, on that block and the payload that upstream sent
/// for it.
pub proof fn lemma_comparison(cached: Seq<CachedBlock>, responses: Seq<Option<ProviderBlock>>)
    ensures
        comparison(cached, responses) matches Ok(reports) ==> reports.len() == cached.len()
            && responses.len() == cached.len() && forall|i: int|
            0 <= i < reports.len() ==> (#[trigger] reports[i]).hash == cached[i].hash
                && responses[i] is Some && responses[i]->0.hash is Some
                && responses[i]->0.hash->0@ == cached[i].hash@ && divergence(
                cached[i].payload,
                responses[i]->0.payload,
            ) == Ok::<Option<Seq<char>>, Unrenderable>(reports[i].diff),
{
    lemma_provider_payloads(cached, responses);
    if provider_payloads(cached, responses) is Ok {
        lemma_reports_of(cached, provider_payloads(cached, responses)->Ok_0);
    }
}

/// Compares cached blocks with what upstream sent for their hashes.
pub fn compare_blocks(
    cached_blocks: &Vec<CachedBlock>,
    responses: Vec<Option<ProviderBlock>>,
) -> (r: Result<Vec<DivergenceReport>, Failure>)
    ensures
        match r {
            Ok(reports) => comparison(cached_blocks@, responses@) == Ok::<
                Seq<ReportView>,
                Failure,
            >(report_views(reports@)),
            Err(failure) => comparison(cached_blocks@, responses@) == Err::<
                Seq<ReportView>,
                Failure,
            >(failure),
        },
{
    match fetch_provider_blocks(cached_blocks, responses) {
        Err(e) => Err(Failure::Upstream(e)),
        Ok(provider_blocks) => diff_blocks(cached_blocks, &provider_blocks),
    }
}

} // verus!
