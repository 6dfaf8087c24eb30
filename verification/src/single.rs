//! Collections that are expected to hold exactly one item.

use crate::failure::ResolutionError;
use vstd::prelude::*;

verus! {

/// What a collection that should hold one item held.
#[derive(Debug)]
pub enum Single<T> {
    Exactly(T),
    Empty,
    /// The number of items, where there are two or more.
    Multiple(usize),
}

/// Sorts a collection by the number of its items.
pub fn single<T>(collection: Vec<T>) -> (r: Single<T>)
    ensures
        collection.len() == 0 ==> r == Single::<T>::Empty,
        collection.len() == 1 ==> r == Single::Exactly(collection[0]),
        collection.len() >= 2 ==> r == Single::<T>::Multiple(collection.len()),
{
    let mut collection = collection;
    let count = collection.len();
    if count == 0 {
        Single::Empty
    } else if count == 1 {
        match collection.pop() {
            Some(item) => Single::Exactly(item),
            None => Single::Empty,
        }
    } else {
        Single::Multiple(count)
    }
}

/// What `get_single_item` returns for a collection.
pub open spec fn single_item<T>(name: &'static str, collection: Seq<T>) -> Result<
    T,
    ResolutionError,
> {
    if collection.len() == 0 {
        Err(ResolutionError::NotFound { name })
    } else if collection.len() == 1 {
        Ok(collection[0])
    } else {
        Err(ResolutionError::Ambiguous { name, count: collection.len() as usize })
    }
}

/// The one item of a collection. A collection without items is `NotFound`,
/// one with several is `Ambiguous`; `name` says in the error what was
/// looked for.
pub fn get_single_item<T>(name: &'static str, collection: Vec<T>) -> (r: Result<
    T,
    ResolutionError,
>)
    ensures
        r == single_item(name, collection@),
{
    match single(collection) {
        Single::Exactly(item) => Ok(item),
        Single::Empty => Err(ResolutionError::NotFound { name }),
        Single::Multiple(count) => Err(ResolutionError::Ambiguous { name, count }),
    }
}

} // verus!
