//! Ranges of block numbers: `A..B`, `A..=B`, `A..`, `..B`, `..=B`, `..`.

use crate::text::{
    chars_of, contains, find_from, first_occurrence, lemma_first_occurrence, occurs_at, parse_i32,
    read_i32,
};
use vstd::prelude::*;

verus! {

/// Why a range expression, or a range, was refused.
#[derive(Debug, Clone, Copy, PartialEq, Eq, Structural)]
pub enum RangeError {
    /// The text holds no `..` separator.
    Malformed,
    /// A bound is not a decimal number that fits in an `i32`.
    InvalidNumber,
    /// The text holds more than one separator, or its lower bound lies above
    /// its upper bound.
    InvalidRange,
    /// The lower bound is below zero.
    NegativeBlockNumber,
    /// The upper bound is inclusive and is the largest `i32`, so that no
    /// exclusive bound stands for it.
    UpperBoundTooLarge,
}

/// A range of block numbers as it was written: each bound may be absent.
///
/// An absent upper bound stands for the chain head and is always inclusive.
#[derive(Debug, Clone, Copy, PartialEq, Eq, Structural)]
pub struct Range {
    pub lower_bound: Option<i32>,
    pub upper_bound: Option<i32>,
    pub inclusive: bool,
}

/// The separator of an exclusive range.
pub open spec fn exclusive_separator() -> Seq<char> {
    seq!['.', '.']
}

/// The separator of an inclusive range.
pub open spec fn inclusive_separator() -> Seq<char> {
    seq!['.', '.', '=']
}

/// What a range expression means.
///
/// The text must hold a separator: `..=` where that stands anywhere in it,
/// else `..`. What stands left of the leftmost separator is the lower
/// bound, what stands right of it the upper bound, and no second separator
/// may follow. Each bound is empty or a decimal `i32`. A range that is open
/// above is inclusive whichever separator was written. A lower bound may
/// not lie above the upper bound, nor below zero.
pub open spec fn parse_range(s: Seq<char>) -> Result<Range, RangeError> {
    if !contains(s, exclusive_separator()) {
        Err(RangeError::Malformed)
    } else {
        let inclusive = contains(s, inclusive_separator());
        let sep = if inclusive { inclusive_separator() } else { exclusive_separator() };
        let at = first_occurrence(s, sep);
        let left = s.subrange(0, at);
        let right = s.subrange(at + sep.len(), s.len() as int);
        if contains(right, sep) {
            Err(RangeError::InvalidRange)
        } else if left.len() == 0 && right.len() == 0 {
            Ok(Range { lower_bound: None, upper_bound: None, inclusive: true })
        } else if right.len() == 0 {
            match parse_i32(left) {
                None => Err(RangeError::InvalidNumber),
                Some(a) => if a < 0 {
                    Err(RangeError::NegativeBlockNumber)
                } else {
                    Ok(Range { lower_bound: Some(a), upper_bound: None, inclusive: true })
                },
            }
        } else if left.len() == 0 {
            match parse_i32(right) {
                None => Err(RangeError::InvalidNumber),
                Some(b) => Ok(Range { lower_bound: None, upper_bound: Some(b), inclusive }),
            }
        } else {
            match (parse_i32(left), parse_i32(right)) {
                (Some(a), Some(b)) => if a > b {
                    Err(RangeError::InvalidRange)
                } else if a < 0 {
                    Err(RangeError::NegativeBlockNumber)
                } else {
                    Ok(Range { lower_bound: Some(a), upper_bound: Some(b), inclusive })
                },
                _ => Err(RangeError::InvalidNumber),
            }
        }
    }
}

/// An occurrence in the rest of a text is an occurrence in the text, moved.
proof fn lemma_occurs_in_rest(s: Seq<char>, pat: Seq<char>, from: int, j: int)
    requires
        0 <= from <= s.len(),
        0 <= j,
    ensures
        occurs_at(s.subrange(from, s.len() as int), pat, j) == occurs_at(s, pat, from + j),
{
    let rest = s.subrange(from, s.len() as int);
    if j + pat.len() <= rest.len() {
        assert(rest.subrange(j, j + pat.len()) =~= s.subrange(from + j, from + j + pat.len()));
    }
}

impl Range {
    /// The first block number of the range: block numbers start at 1, so an
    /// absent lower bound and a lower bound of 0 both stand for 1.
    pub open spec fn first(self) -> int {
        match self.lower_bound {
            None => 1,
            Some(x) => if x == 0 { 1 } else { x as int },
        }
    }

    /// The upper bound in exclusive form: the first number past the range.
    /// `None` when the range is open above.
    pub open spec fn end(self) -> Option<int> {
        match self.upper_bound {
            None => None,
            Some(x) => Some(if self.inclusive { x + 1 } else { x as int }),
        }
    }

    /// Whether block number `n` lies in the range, for a chain whose head is
    /// block `head`. An inclusive bound `N` includes block `N`, an exclusive
    /// bound `N` excludes it, and an open range ends with the chain head.
    pub open spec fn covers(self, head: int, n: int) -> bool {
        &&& self.first() <= n
        &&& match self.upper_bound {
            None => n <= head,
            Some(x) => if self.inclusive { n <= x } else { n < x },
        }
    }

    pub fn new(lower_bound: Option<i32>, upper_bound: Option<i32>, inclusive: bool) -> (r: Self)
        ensures
            r.lower_bound == lower_bound,
            r.upper_bound == upper_bound,
            r.inclusive == inclusive,
    {
        Range { lower_bound, upper_bound, inclusive }
    }

    /// Reads a range expression.
    pub fn from_str(s: &str) -> (r: Result<Range, RangeError>)
        ensures
            r == parse_range(s@),
    {
        let text = chars_of(s);
        let dots: Vec<char> = vec!['.', '.'];
        let dots_eq: Vec<char> = vec!['.', '.', '='];
        assert(dots@ =~= exclusive_separator());
        assert(dots_eq@ =~= inclusive_separator());
        if find_from(&text, &dots, 0).is_none() {
            return Err(RangeError::Malformed);
        }
        let inclusive = find_from(&text, &dots_eq, 0).is_some();
        let sep = if inclusive { dots_eq } else { dots };
        let at: usize = match find_from(&text, &sep, 0) {
            Some(at) => at,
            None => {
                return Err(RangeError::Malformed);
            },
        };
        proof {
            lemma_first_occurrence(text@, sep@, at as int);
        }
        let rest: usize = at + sep.len();
        let ghost right = text@.subrange(rest as int, text@.len() as int);
        let again = find_from(&text, &sep, rest);
        proof {
            match again {
                Some(k) => {
                    lemma_occurs_in_rest(text@, sep@, rest as int, k - rest);
                },
                None => {
                    assert forall|j: int| !occurs_at(right, sep@, j) by {
                        if 0 <= j {
                            lemma_occurs_in_rest(text@, sep@, rest as int, j);
                        }
                    }
                },
            }
        }
        if again.is_some() {
            return Err(RangeError::InvalidRange);
        }
        let end: usize = text.len();
        if at == 0 && rest == end {
            Ok(Range::new(None, None, true))
        } else if rest == end {
            match read_i32(&text, 0, at) {
                None => Err(RangeError::InvalidNumber),
                Some(a) => {
                    if a < 0 {
                        Err(RangeError::NegativeBlockNumber)
                    } else {
                        Ok(Range::new(Some(a), None, true))
                    }
                },
            }
        } else if at == 0 {
            match read_i32(&text, rest, end) {
                None => Err(RangeError::InvalidNumber),
                Some(b) => Ok(Range::new(None, Some(b), inclusive)),
            }
        } else {
            let start = match read_i32(&text, 0, at) {
                None => {
                    return Err(RangeError::InvalidNumber);
                },
                Some(a) => a,
            };
            let stop = match read_i32(&text, rest, end) {
                None => {
                    return Err(RangeError::InvalidNumber);
                },
                Some(b) => b,
            };
            if start > stop {
                Err(RangeError::InvalidRange)
            } else if start < 0 {
                Err(RangeError::NegativeBlockNumber)
            } else {
                Ok(Range::new(Some(start), Some(stop), inclusive))
            }
        }
    }

    /// The concrete bounds of the range: its first block number, and the
    /// first number past it where the range is closed above. A lower bound
    /// below zero is refused, and so is an inclusive upper bound whose
    /// successor is no `i32`.
    pub open spec fn bounds(self) -> Result<(i32, Option<i32>), RangeError> {
        if self.first() < 0 {
            Err(RangeError::NegativeBlockNumber)
        } else {
            match self.end() {
                None => Ok((self.first() as i32, None)),
                Some(e) => if e > i32::MAX {
                    Err(RangeError::UpperBoundTooLarge)
                } else {
                    Ok((self.first() as i32, Some(e as i32)))
                },
            }
        }
    }

    /// The concrete bounds of the range.
    pub fn min_max(&self) -> (r: Result<(i32, Option<i32>), RangeError>)
        ensures
            r == self.bounds(),
    {
        let min: i32 = match self.lower_bound {
            None => 1,
            Some(x) => {
                if x < 0 {
                    return Err(RangeError::NegativeBlockNumber);
                }
                if x == 0 {
                    1
                } else {
                    x
                }
            },
        };
        let max: Option<i32> = match self.upper_bound {
            None => None,
            Some(x) => {
                if self.inclusive {
                    match x.checked_add(1) {
                        None => {
                            return Err(RangeError::UpperBoundTooLarge);
                        },
                        Some(e) => Some(e),
                    }
                } else {
                    Some(x)
                }
            },
        };
        Ok((min, max))
    }
}

/// What a range expression is read as keeps the rules of ranges: a range
/// that is open above is inclusive, a lower bound is not below zero, and
/// a lower bound does not lie above the upper bound.
pub proof fn lemma_parsed_range(s: Seq<char>)
    requires
        parse_range(s) is Ok,
    ensures
        ({
            let range = parse_range(s)->Ok_0;
            &&& range.upper_bound is None ==> range.inclusive
            &&& range.lower_bound matches Some(a) ==> a >= 0
            &&& range.lower_bound matches Some(a) ==> range.upper_bound matches Some(b) ==> a <= b
        }),
{
}

/// The bounds of a range say which blocks it covers: those from the first
/// bound on that lie below the second, or, where there is no second, up to
/// the chain head. So an inclusive upper bound `N` includes block `N`, and
/// an exclusive one excludes it.
pub proof fn lemma_bounds_cover(range: Range, head: int, n: int)
    requires
        range.bounds() is Ok,
    ensures
        range.covers(head, n) <==> {
            let (first, end) = range.bounds()->Ok_0;
            &&& first <= n
            &&& match end {
                None => n <= head,
                Some(e) => n < e,
            }
        },
{
}

} // verus!
