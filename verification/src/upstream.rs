//! The upstream fetcher's rules: what upstream sent is taken only where it
//! answers every request with the block that was asked for.

use crate::block::{CachedBlock, ProviderBlock};
use crate::failure::UpstreamError;
use crate::hash::BlockHash;
use crate::json::Json;
use crate::order::{least, lemma_least, lemma_least_is, lemma_least_none};
use vstd::prelude::*;

verus! {

/// What the answer to the request for one hash is worth: the payload,
/// where upstream sent a block that reports the requested hash.
pub open spec fn accepted(requested: BlockHash, response: Option<ProviderBlock>) -> Result<
    Json,
    UpstreamError,
> {
    match response {
        None => Err(UpstreamError::NotFound { requested }),
        Some(block) => if block.hash is Some && block.hash->0@ == requested@ {
            Ok(block.payload)
        } else {
            Err(UpstreamError::HashMismatch { requested, reported: block.hash })
        },
    }
}

/// Checks the answer to the request for one hash.
pub fn check_provider_block(requested: BlockHash, response: Option<ProviderBlock>) -> (r: Result<
    Json,
    UpstreamError,
>)
    ensures
        r == accepted(requested, response),
{
    match response {
        None => Err(UpstreamError::NotFound { requested }),
        Some(block) => {
            let matches = match block.hash {
                Some(reported) => reported == requested,
                None => false,
            };
            if matches {
                Ok(block.payload)
            } else {
                Err(UpstreamError::HashMismatch { requested, reported: block.hash })
            }
        },
    }
}

/// What a batch of answers is worth: the canonical payloads, in the order
/// of the requests.
///
/// A batch of another length than the request is refused as a whole. Else
/// the first answer that is missing, or that reports another hash than the
/// one requested, fails the batch.
pub open spec fn provider_payloads(
    cached: Seq<CachedBlock>,
    responses: Seq<Option<ProviderBlock>>,
) -> Result<Seq<Json>, UpstreamError> {
    if cached.len() != responses.len() {
        Err(
            UpstreamError::ShortBatch {
                expected: cached.len() as usize,
                received: responses.len() as usize,
            },
        )
    } else {
        match least(cached.len() as int, |i: int| accepted(cached[i].hash, responses[i]) is Err) {
            Some(k) => Err(accepted(cached[k].hash, responses[k])->Err_0),
            None => Ok(
                Seq::new(cached.len(), |i: int| accepted(cached[i].hash, responses[i])->Ok_0),
            ),
        }
    }
}

/// A batch is taken only where it answers each request with a block that
/// reports the requested hash; the payloads then stand in the order of the
/// requests. A batch that is shorter or longer than the request, a missing
/// block and a block of another hash each fail it.
pub proof fn lemma_provider_payloads(
    cached: Seq<CachedBlock>,
    responses: Seq<Option<ProviderBlock>>,
)
    ensures
        provider_payloads(cached, responses) is Ok <==> cached.len() == responses.len() && forall|
            i: int,
        |
            0 <= i < cached.len() ==> (#[trigger] responses[i]) is Some && responses[i]->0.hash
                is Some && responses[i]->0.hash->0@ == cached[i].hash@,
        provider_payloads(cached, responses) matches Ok(payloads) ==> payloads.len()
            == cached.len() && forall|i: int|
            0 <= i < cached.len() ==> (#[trigger] payloads[i]) == responses[i]->0.payload,
{
    let rejected = |i: int| accepted(cached[i].hash, responses[i]) is Err;
    if cached.len() == responses.len() {
        lemma_least(cached.len() as int, rejected);
        if provider_payloads(cached, responses) is Ok {
            assert forall|i: int| 0 <= i < cached.len() implies (#[trigger] responses[i]) is Some
                && responses[i]->0.hash is Some && responses[i]->0.hash->0@ == cached[i].hash@ by {
                assert(!rejected(i));
            }
        } else {
            let k = least(cached.len() as int, rejected)->0;
            assert(rejected(k));
        }
    }
}

/// Checks what upstream sent for the hashes of `cached_blocks`, in their
/// order, and hands back the canonical payloads in the same order.
pub fn fetch_provider_blocks(
    cached_blocks: &Vec<CachedBlock>,
    responses: Vec<Option<ProviderBlock>>,
) -> (r: Result<Vec<Json>, UpstreamError>)
    ensures
        match r {
            Ok(payloads) => provider_payloads(cached_blocks@, responses@) == Ok::<
                Seq<Json>,
                UpstreamError,
            >(payloads@),
            Err(e) => provider_payloads(cached_blocks@, responses@) == Err::<
                Seq<Json>,
                UpstreamError,
            >(e),
        },
{
    let expected = cached_blocks.len();
    if expected != responses.len() {
        return Err(UpstreamError::ShortBatch { expected, received: responses.len() });
    }
    let ghost all = responses@;
    let ghost rejected = |i: int| accepted(cached_blocks@[i].hash, all[i]) is Err;
    let mut payloads: Vec<Json> = Vec::new();
    for response in it: responses.into_iter()
        invariant
            it.seq() == all,
            all.len() == cached_blocks.len(),
            rejected == |i: int| accepted(cached_blocks@[i].hash, all[i]) is Err,
            payloads.len() == it.index(),
            forall|i: int|
                0 <= i < it.index() ==> accepted(cached_blocks@[i].hash, all[i]) == Ok::<
                    Json,
                    UpstreamError,
                >(#[trigger] payloads[i]),
            forall|i: int| 0 <= i < it.index() ==> !(#[trigger] rejected(i)),
    {
        let at: usize = payloads.len();
        match check_provider_block(cached_blocks[at].hash, response) {
            Ok(payload) => {
                payloads.push(payload);
            },
            Err(e) => {
                proof {
                    assert(rejected(at as int));
                    lemma_least_is(all.len() as int, rejected, at as int);
                }
                return Err(e);
            },
        }
    }
    proof {
        lemma_least_none(all.len() as int, rejected);
        assert(payloads@ =~= Seq::new(
            all.len(),
            |i: int| accepted(cached_blocks@[i].hash, all[i])->Ok_0,
        ));
    }
    Ok(payloads)
}

} // verus!
