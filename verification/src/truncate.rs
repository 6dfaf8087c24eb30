//! Truncation of the whole cache, and the confirmation that guards it.

use crate::text::chars_of;
use vstd::prelude::*;

verus! {

/// White space, as the standard library's `char::is_whitespace` has it.
pub open spec fn is_space(c: char) -> bool {
    ||| '\u{9}' <= c && c <= '\u{d}'
    ||| c == ' '
    ||| c == '\u{85}'
    ||| c == '\u{a0}'
    ||| c == '\u{1680}'
    ||| '\u{2000}' <= c && c <= '\u{200a}'
    ||| c == '\u{2028}'
    ||| c == '\u{2029}'
    ||| c == '\u{202f}'
    ||| c == '\u{205f}'
    ||| c == '\u{3000}'
}

pub open spec fn all_space(s: Seq<char>) -> bool {
    forall|i: int| 0 <= i < s.len() ==> is_space(#[trigger] s[i])
}

/// Whether a word is `y` or `yes`, in letters of either case.
pub open spec fn is_yes(word: Seq<char>) -> bool {
    ||| word.len() == 1 && (word[0] == 'y' || word[0] == 'Y')
    ||| word.len() == 3 && (word[0] == 'y' || word[0] == 'Y') && (word[1] == 'e' || word[1] == 'E')
        && (word[2] == 's' || word[2] == 'S')
}

/// Whether an answer consents: white space at its ends aside, it is `y` or
/// `yes`. Anything else declines, the empty answer too.
pub open spec fn is_affirmative(answer: Seq<char>) -> bool {
    exists|i: int, j: int|
        0 <= i <= j <= answer.len() && all_space(answer.subrange(0, i)) && all_space(
            answer.subrange(j, answer.len() as int),
        ) && is_yes(#[trigger] answer.subrange(i, j))
}

fn is_space_char(c: char) -> (r: bool)
    ensures
        r == is_space(c),
{
    (c >= '\u{9}' && c <= '\u{d}') || c == ' ' || c == '\u{85}' || c == '\u{a0}' || c
        == '\u{1680}' || (c >= '\u{2000}' && c <= '\u{200a}') || c == '\u{2028}' || c
        == '\u{2029}' || c == '\u{202f}' || c == '\u{205f}' || c == '\u{3000}'
}

/// Reads the operator's answer to the question whether to proceed.
pub fn prompt_for_confirmation(answer: &str) -> (r: bool)
    ensures
        r == is_affirmative(answer@),
{
    let text = chars_of(answer);
    let n = text.len();
    let mut i: usize = 0;
    while i < n && is_space_char(text[i])
        invariant
            i <= n,
            n == text.len(),
            all_space(text@.subrange(0, i as int)),
        decreases n - i,
    {
        i += 1;
    }
    let mut j: usize = n;
    while j > i && is_space_char(text[j - 1])
        invariant
            i <= j <= n,
            n == text.len(),
            all_space(text@.subrange(j as int, n as int)),
        decreases j,
    {
        j -= 1;
        proof {
            let wider = text@.subrange(j as int, n as int);
            let narrower = text@.subrange(j + 1, n as int);
            assert forall|k: int| 0 <= k < wider.len() implies is_space(#[trigger] wider[k]) by {
                if k > 0 {
                    assert(wider[k] == narrower[k - 1]);
                }
            }
        }
    }
    let ghost word = text@.subrange(i as int, j as int);
    let r = if j - i == 1 {
        text[i] == 'y' || text[i] == 'Y'
    } else if j - i == 3 {
        (text[i] == 'y' || text[i] == 'Y') && (text[i + 1] == 'e' || text[i + 1] == 'E') && (text[i
            + 2] == 's' || text[i + 2] == 'S')
    } else {
        false
    };
    proof {
        assert(r == is_yes(word));
        if !r {
            assert forall|a: int, b: int|
                0 <= a <= b <= n && all_space(text@.subrange(0, a)) && all_space(
                    text@.subrange(b, n as int),
                ) implies !is_yes(#[trigger] text@.subrange(a, b)) by {
                let other = text@.subrange(a, b);
                if is_yes(other) {
                    // A word that says yes begins and ends with a letter, so
                    // it begins at the first character that is no white
                    // space and ends with the last.
                    assert(other[0] == text@[a] && !is_space(text@[a]));
                    assert(other[other.len() - 1] == text@[b - 1] && !is_space(text@[b - 1]));
                    if a < i {
                        assert(text@.subrange(0, i as int)[a] == text@[a]);
                    }
                    if i < a {
                        assert(text@.subrange(0, a)[i as int] == text@[i as int]);
                    }
                    if b > j {
                        assert(text@.subrange(j as int, n as int)[b - 1 - j] == text@[b - 1]);
                    }
                    if b < j {
                        assert(text@.subrange(b, n as int)[j - 1 - b] == text@[j - 1]);
                    }
                    assert(other =~= word);
                }
            }
        }
    }
    r
}

/// What to do about a request to truncate the cache.
#[derive(Debug, Clone, Copy, PartialEq, Eq, Structural)]
pub enum Truncation {
    /// Ask the operator whether to proceed, and hand the answer to
    /// `answered`.
    Ask,
    /// Delete every cached block.
    Truncate,
    /// Tell the operator that nothing was deleted, and end with success.
    Abort,
}

/// The first step of a truncation: with the confirmation skipped the cache
/// is truncated without a question; else the operator is asked.
pub fn truncate(skip_confirmation: bool) -> (r: Truncation)
    ensures
        r == if skip_confirmation {
            Truncation::Truncate
        } else {
            Truncation::Ask
        },
{
    if skip_confirmation {
        Truncation::Truncate
    } else {
        Truncation::Ask
    }
}

/// The step after the operator's answer: truncate on consent, else abort.
pub fn answered(answer: &str) -> (r: Truncation)
    ensures
        r == if is_affirmative(answer@) {
            Truncation::Truncate
        } else {
            Truncation::Abort
        },
{
    if prompt_for_confirmation(answer) {
        Truncation::Truncate
    } else {
        Truncation::Abort
    }
}

} // verus!
