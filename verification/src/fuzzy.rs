//! Fuzzy matching of a text against what the user typed.

use skim::fuzzy_matcher::FuzzyMatcher;
use vstd::prelude::*;

verus! {

/// The score that skim's Arinae matcher gives `choice` for `pattern`, with smart
/// case and typos allowed; `None` where it finds no match.
pub uninterp spec fn arinae_score(choice: Seq<char>, pattern: Seq<char>) -> Option<i64>;

/// Calls `fuzzy_match` of skim's `ArinaeMatcher`, made with
/// `ArinaeMatcher::new(CaseMatching::Smart, true)`.
///
/// Claimed of it: the score depends on the two texts alone; everything matches
/// the empty pattern, with the score 0; nothing else matches the empty text; a
/// pattern of more than 64 characters matches nothing, because half of those behind
/// the first have to be in the text and only 31 of them are looked for; a score is
/// a non-negative 16-bit number. The matcher adds up at most 72 for the first
/// character of a pattern and 45 for each further one, which 16 bits can hold for
/// the patterns that match.
#[verifier::external_body]
fn arinae_match(choice: &str, pattern: &str) -> (r: Option<i64>)
    ensures
        r == arinae_score(choice@, pattern@),
        pattern@.len() == 0 ==> r == Some(0i64),
        pattern@.len() > 0 && choice@.len() == 0 ==> r is None,
        pattern@.len() > 64 ==> r is None,
        r matches Some(score) ==> 0 <= score <= 32767,
{
    skim::fuzzy_matcher::arinae::ArinaeMatcher::new(skim::CaseMatching::Smart, true).fuzzy_match(
        choice,
        pattern,
    )
}

/// How good a match must be.
#[derive(Clone, Copy, Debug, PartialEq, Eq, Structural)]
pub enum FuzzyMatchThreshold {
    Medium,
    High,
}

/// The lowest scores that pass each threshold.
#[derive(Clone, Copy, Debug, PartialEq, Eq)]
pub struct FuzzyCutoffs {
    pub medium: i64,
    pub high: i64,
}

impl FuzzyCutoffs {
    /// The lowest score that passes `threshold`.
    pub open spec fn at(self, threshold: FuzzyMatchThreshold) -> i64 {
        match threshold {
            FuzzyMatchThreshold::Medium => self.medium,
            FuzzyMatchThreshold::High => self.high,
        }
    }

    pub fn cutoff(&self, threshold: FuzzyMatchThreshold) -> (r: i64)
        ensures
            r == self.at(threshold),
    {
        match threshold {
            FuzzyMatchThreshold::Medium => self.medium,
            FuzzyMatchThreshold::High => self.high,
        }
    }
}

/// A score that reaches `cutoff`, and no other.
pub open spec fn passing(score: Option<i64>, cutoff: i64) -> Option<i64> {
    match score {
        Some(s) => if s >= cutoff {
            Some(s)
        } else {
            None
        },
        None => None,
    }
}

/// Lets a score through that reaches `cutoff`.
pub fn passing_score(score: Option<i64>, cutoff: i64) -> (r: Option<i64>)
    ensures
        r == passing(score, cutoff),
{
    match score {
        Some(s) => if s >= cutoff {
            Some(s)
        } else {
            None
        },
        None => None,
    }
}

/// The score of `choice` for `pattern`, where it passes.
pub open spec fn match_score(choice: Seq<char>, pattern: Seq<char>, cutoff: i64) -> Option<i64> {
    passing(arinae_score(choice, pattern), cutoff)
}

/// Matches `choice` against `pattern` and lets a score through that passes
/// `threshold`.
pub fn fuzzy_match_with_threshold(
    choice: &str,
    pattern: &str,
    threshold: FuzzyMatchThreshold,
    cutoffs: &FuzzyCutoffs,
) -> (r: Option<i64>)
    ensures
        r == match_score(choice@, pattern@, cutoffs.at(threshold)),
        r matches Some(score) ==> 0 <= score <= 32767,
        pattern@.len() == 0 ==> r == passing(Some(0i64), cutoffs.at(threshold)),
        pattern@.len() > 0 && choice@.len() == 0 ==> r is None,
        pattern@.len() > 64 ==> r is None,
{
    passing_score(arinae_match(choice, pattern), cutoffs.cutoff(threshold))
}

/// A text matches where the matcher gives it a score that reaches the cutoff, and it has
/// that score; a lower cutoff lets through no less.
pub proof fn lemma_match_reaches_the_cutoff(
    choice: Seq<char>,
    pattern: Seq<char>,
    cutoff: i64,
    lower: i64,
    score: i64,
)
    requires
        lower <= cutoff,
    ensures
        match_score(choice, pattern, cutoff) == Some(score) <==> arinae_score(choice, pattern)
            == Some(score) && score >= cutoff,
        match_score(choice, pattern, cutoff) == Some(score) ==> match_score(choice, pattern, lower)
            == Some(score),
{
}

} // verus!
