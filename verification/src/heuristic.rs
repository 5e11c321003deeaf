//! Punctuation heuristic.
//!
//! Sequence-labeling models are occasionally unstable on punctuation
//! tokens. After aggregation, a word made only of ASCII punctuation
//! whose aggregated confidence is unreliable (below 0.5, or not a
//! number) has its label overridden with the generic punctuation tag
//! `.` and its score forced to full confidence. Confidently predicted
//! words are never touched.

use vstd::prelude::*;
use vstd::string::StrSliceExecFns;

use crate::aggregation::{AggregatedTag, WordModel};
use crate::score::{Score, SCORE_ONE};

verus! {

/// An ASCII punctuation character: a printable ASCII symbol that is
/// neither a letter, a digit nor a space.
pub open spec fn is_punct_char(c: char) -> bool {
    ||| 0x21 <= c as u32 <= 0x2f
    ||| 0x3a <= c as u32 <= 0x40
    ||| 0x5b <= c as u32 <= 0x60
    ||| 0x7b <= c as u32 <= 0x7e
}

/// A word is punctuation-only when it is non-empty and every one of
/// its characters is an ASCII punctuation character.
pub open spec fn spec_punctuation_only(w: Seq<char>) -> bool {
    w.len() > 0 && forall|i: int| 0 <= i < w.len() ==> is_punct_char(#[trigger] w[i])
}

/// Whether `word` consists of ASCII punctuation only (an empty word
/// does not).
pub fn is_punctuation(word: &str) -> (r: bool)
    ensures
        r == spec_punctuation_only(word@),
{
    let n = word.unicode_len();
    if n == 0 {
        return false;
    }
    let mut k: usize = 0;
    while k < n
        invariant
            n == word@.len(),
            k <= n,
            forall|i: int| 0 <= i < k ==> is_punct_char(#[trigger] word@[i]),
        decreases n - k,
    {
        let c = word.get_char(k);
        let u = c as u32;
        if !((0x21 <= u && u <= 0x2f) || (0x3a <= u && u <= 0x40) || (0x5b <= u && u <= 0x60) || (
        0x7b <= u && u <= 0x7e)) {
            return false;
        }
        k = k + 1;
    }
    true
}

/// The punctuation override on one aggregated prediction: a
/// punctuation-only word with an unreliable score is relabeled `.`
/// with full confidence; everything else is left unchanged.
pub open spec fn heuristic_model(w: WordModel) -> WordModel {
    if spec_punctuation_only(w.word) && w.score.spec_low_confidence() {
        WordModel { word: w.word, label: "."@, score: Score { is_nan: false, micros: SCORE_ONE } }
    } else {
        w
    }
}

/// Apply the punctuation override to one aggregated prediction.
pub fn apply_heuristic(t: &AggregatedTag) -> (r: AggregatedTag)
    ensures
        r.model() == heuristic_model(t.model()),
{
    if is_punctuation(t.word.as_str()) && t.score.low_confidence() {
        AggregatedTag { word: t.word.clone(), label: ".".to_owned(), score: Score::certain() }
    } else {
        AggregatedTag { word: t.word.clone(), label: t.label.clone(), score: t.score }
    }
}

/// Re-running the heuristic on its own output changes nothing: an
/// overridden word carries full confidence, which the heuristic never
/// touches, and an untouched word is untouched again.
pub proof fn lemma_heuristic_idempotent(w: WordModel)
    ensures
        heuristic_model(heuristic_model(w)) == heuristic_model(w),
{
}

} // verus!
