//! Sub-word label aggregation.
//!
//! The tokenizer splits a text into sub-word fragments; the first
//! fragment of each word carries `is_continuation == false` and every
//! further fragment of the same word carries `is_continuation == true`.
//! Aggregation reduces each such group to a single prediction per word:
//! the word is the concatenation of the group's fragments, and the
//! label and score are chosen by the configured [`LabelAggregation`]
//! policy.

use vstd::prelude::*;
use vstd::arithmetic::div_mod::{lemma_div_is_ordered, lemma_div_multiples_vanish};
use vstd::string::StringExecFns;

use crate::score::{Score, SCORE_ONE};

verus! {

/// One sub-word prediction handed over by the tokenizer / inference
/// collaborators, in sequence order. The sub-word continuation marker
/// is already stripped from `text_fragment`.
pub struct RawPrediction {
    pub text_fragment: String,
    pub label: String,
    pub score: Score,
    pub is_continuation: bool,
}

/// Mathematical image of a [`RawPrediction`].
pub ghost struct RawModel {
    pub fragment: Seq<char>,
    pub label: Seq<char>,
    pub score: Score,
    pub cont: bool,
}

impl RawPrediction {
    pub open spec fn model(self) -> RawModel {
        RawModel {
            fragment: self.text_fragment@,
            label: self.label@,
            score: self.score,
            cont: self.is_continuation,
        }
    }
}

/// Mathematical image of a sequence of raw predictions.
pub open spec fn raws_model(s: Seq<RawPrediction>) -> Seq<RawModel> {
    Seq::new(s.len(), |i: int| s[i].model())
}

/// One aggregated prediction per word, before the punctuation
/// heuristic has been applied.
pub struct AggregatedTag {
    pub word: String,
    pub label: String,
    pub score: Score,
}

/// Mathematical image of an [`AggregatedTag`].
pub ghost struct WordModel {
    pub word: Seq<char>,
    pub label: Seq<char>,
    pub score: Score,
}

impl AggregatedTag {
    pub open spec fn model(self) -> WordModel {
        WordModel { word: self.word@, label: self.label@, score: self.score }
    }
}

/// Mathematical image of a sequence of aggregated predictions.
pub open spec fn atags_model(s: Seq<AggregatedTag>) -> Seq<WordModel> {
    Seq::new(s.len(), |i: int| s[i].model())
}

/// The recognized ways of reducing a group of sub-word predictions to
/// one label and score per word.
#[derive(Clone, Copy, Debug, PartialEq, Eq, Structural)]
pub enum LabelAggregation {
    /// Label and score of the group's first fragment.
    First,
    /// Label and score of the group's final fragment.
    Last,
    /// Most frequent label among the group's fragments, ties broken by
    /// first occurrence; score taken from the first fragment bearing
    /// that label.
    Mode,
    /// Label as under `Mode`; score is the mean of the scores of the
    /// fragments bearing that label (not a number as soon as one of
    /// them is).
    Average,
}

/// A raw sequence is well-formed when its first entry, if any, starts a
/// group, and every score is a valid confidence.
pub open spec fn seq_well_formed(s: Seq<RawModel>) -> bool {
    &&& s.len() > 0 ==> !s[0].cont
    &&& forall|i: int| 0 <= i < s.len() ==> (#[trigger] s[i]).score.valid()
}

/// Number of leading continuation fragments of `s`.
pub open spec fn cont_run(s: Seq<RawModel>) -> nat
    decreases s.len(),
{
    if s.len() == 0 {
        0
    } else if s[0].cont {
        1 + cont_run(s.skip(1))
    } else {
        0
    }
}

/// Length of the first group of a non-empty raw sequence: the leading
/// fragment together with the continuation fragments that follow it.
pub open spec fn first_group_len(s: Seq<RawModel>) -> nat {
    1 + cont_run(s.skip(1))
}

/// Number of group-starting (non-continuation) fragments of `s`.
pub open spec fn start_count(s: Seq<RawModel>) -> nat
    decreases s.len(),
{
    if s.len() == 0 {
        0
    } else {
        (if s[0].cont {
            0nat
        } else {
            1nat
        }) + start_count(s.skip(1))
    }
}

/// Concatenation of the fragment texts of a group.
pub open spec fn concat_fragments(g: Seq<RawModel>) -> Seq<char>
    decreases g.len(),
{
    if g.len() == 0 {
        Seq::empty()
    } else {
        concat_fragments(g.drop_last()) + g.last().fragment
    }
}

/// How many fragments of `g` carry the label `l`.
pub open spec fn label_count(g: Seq<RawModel>, l: Seq<char>) -> nat
    decreases g.len(),
{
    if g.len() == 0 {
        0
    } else {
        label_count(g.drop_last(), l) + (if g.last().label == l {
            1nat
        } else {
            0nat
        })
    }
}

/// Sum, in millionths, of the scores of the fragments of `g` that
/// carry the label `l`.
pub open spec fn label_sum(g: Seq<RawModel>, l: Seq<char>) -> nat
    decreases g.len(),
{
    if g.len() == 0 {
        0
    } else {
        label_sum(g.drop_last(), l) + (if g.last().label == l {
            g.last().score.micros as nat
        } else {
            0nat
        })
    }
}

/// Whether some fragment of `g` carrying the label `l` has a score
/// that is not a number.
pub open spec fn label_has_nan(g: Seq<RawModel>, l: Seq<char>) -> bool
    decreases g.len(),
{
    if g.len() == 0 {
        false
    } else {
        label_has_nan(g.drop_last(), l) || (g.last().label == l && g.last().score.is_nan)
    }
}

/// Index of the mode label's first bearer among the first `n` entries
/// of `g`: the earliest index whose label's count over all of `g` is
/// maximal.
pub open spec fn mode_index_upto(g: Seq<RawModel>, n: int) -> int
    decreases n,
{
    if n <= 1 {
        0
    } else {
        let b = mode_index_upto(g, n - 1);
        if label_count(g, g[n - 1].label) > label_count(g, g[b].label) {
            n - 1
        } else {
            b
        }
    }
}

/// Index of the first fragment bearing the group's most frequent
/// label, ties between labels broken by first occurrence.
pub open spec fn mode_index(g: Seq<RawModel>) -> int {
    mode_index_upto(g, g.len() as int)
}

/// Mean score of the fragments of `g` carrying label `l`: not a number
/// as soon as one of them is, otherwise the floor of the mean of the
/// fixed-point scores.
pub open spec fn average_score(g: Seq<RawModel>, l: Seq<char>) -> Score {
    if label_has_nan(g, l) {
        Score { is_nan: true, micros: 0 }
    } else {
        Score { is_nan: false, micros: (label_sum(g, l) / label_count(g, l)) as u64 }
    }
}

/// Reduction of one non-empty group to a single word-level prediction.
pub open spec fn reduce_group(policy: LabelAggregation, g: Seq<RawModel>) -> WordModel {
    let word = concat_fragments(g);
    match policy {
        LabelAggregation::First => WordModel { word, label: g[0].label, score: g[0].score },
        LabelAggregation::Last => WordModel {
            word,
            label: g.last().label,
            score: g.last().score,
        },
        LabelAggregation::Mode => WordModel {
            word,
            label: g[mode_index(g)].label,
            score: g[mode_index(g)].score,
        },
        LabelAggregation::Average => WordModel {
            word,
            label: g[mode_index(g)].label,
            score: average_score(g, g[mode_index(g)].label),
        },
    }
}

pub proof fn lemma_cont_run_le(s: Seq<RawModel>)
    ensures
        cont_run(s) <= s.len(),
    decreases s.len(),
{
    if s.len() > 0 && s[0].cont {
        lemma_cont_run_le(s.skip(1));
    }
}

/// `cont_run` is pinned by its characteristic property: `m` leading
/// continuations followed by the end or by a group start.
pub proof fn lemma_cont_run_is(s: Seq<RawModel>, m: nat)
    requires
        m <= s.len(),
        forall|i: int| 0 <= i < m ==> (#[trigger] s[i]).cont,
        m == s.len() || !s[m as int].cont,
    ensures
        cont_run(s) == m,
    decreases s.len(),
{
    if m == 0 {
    } else {
        assert(s[0].cont);
        let t = s.skip(1);
        assert forall|i: int| 0 <= i < m - 1 implies (#[trigger] t[i]).cont by {
            assert(t[i] == s[i + 1]);
        }
        lemma_cont_run_is(t, (m - 1) as nat);
    }
}

/// One word-level prediction per group of a well-formed raw sequence,
/// in group order.
pub open spec fn aggregate_model(policy: LabelAggregation, s: Seq<RawModel>) -> Seq<WordModel>
    decreases s.len(),
    via aggregate_model_decreases
{
    if s.len() == 0 {
        Seq::empty()
    } else {
        let k = first_group_len(s) as int;
        seq![reduce_group(policy, s.take(k))] + aggregate_model(policy, s.skip(k))
    }
}

#[via_fn]
proof fn aggregate_model_decreases(policy: LabelAggregation, s: Seq<RawModel>) {
    if s.len() > 0 {
        lemma_cont_run_le(s.skip(1));
    }
}

/// The characteristic property holds of `cont_run` itself.
pub proof fn lemma_cont_run_chars(s: Seq<RawModel>)
    ensures
        cont_run(s) <= s.len(),
        forall|i: int| 0 <= i < cont_run(s) ==> (#[trigger] s[i]).cont,
        cont_run(s) == s.len() || !s[cont_run(s) as int].cont,
    decreases s.len(),
{
    lemma_cont_run_le(s);
    if s.len() > 0 && s[0].cont {
        let t = s.skip(1);
        lemma_cont_run_chars(t);
        assert forall|i: int| 0 <= i < cont_run(s) implies (#[trigger] s[i]).cont by {
            if i > 0 {
                assert(t[i - 1] == s[i]);
                assert(t[i - 1].cont);
            }
        }
        if cont_run(s) < s.len() {
            assert(s[cont_run(s) as int] == t[cont_run(t) as int]);
        }
    }
}

/// Dropping a whole leading group removes exactly one group start.
proof fn lemma_start_count_group(s: Seq<RawModel>, k: int)
    requires
        1 <= k <= s.len(),
        !s[0].cont,
        forall|t: int| 1 <= t < k ==> (#[trigger] s[t]).cont,
    ensures
        start_count(s) == 1 + start_count(s.skip(k)),
    decreases k,
{
    if k == 1 {
    } else {
        lemma_start_count_group(s, k - 1);
        let t = s.skip(k - 1);
        assert(t[0] == s[k - 1]);
        assert(t[0].cont);
        assert(t.skip(1) =~= s.skip(k));
        assert(start_count(t) == start_count(s.skip(k)));
    }
}

/// The number of aggregated predictions equals the number of
/// group-starting fragments of the raw sequence, whatever the policy.
pub proof fn lemma_aggregate_count(policy: LabelAggregation, s: Seq<RawModel>)
    requires
        seq_well_formed(s),
    ensures
        aggregate_model(policy, s).len() == start_count(s),
    decreases s.len(),
{
    if s.len() > 0 {
        let k = first_group_len(s) as int;
        lemma_cont_run_chars(s.skip(1));
        assert forall|t: int| 1 <= t < k implies (#[trigger] s[t]).cont by {
            assert(s.skip(1)[t - 1] == s[t]);
        }
        lemma_start_count_group(s, k);
        let rest = s.skip(k);
        assert(seq_well_formed(rest)) by {
            if rest.len() > 0 {
                assert(rest[0] == s[k]);
                if k < s.len() {
                    assert(s.skip(1)[k - 1] == s[k]);
                }
            }
            assert forall|i: int| 0 <= i < rest.len() implies (#[trigger] rest[i]).score.valid()
                by {
                assert(rest[i] == s[k + i]);
            }
        }
        lemma_aggregate_count(policy, rest);
    }
}

/// A group of a single fragment reduces to that fragment's label and
/// score under every policy.
pub proof fn lemma_single_fragment_policy_agnostic(
    p1: LabelAggregation,
    p2: LabelAggregation,
    g: Seq<RawModel>,
)
    requires
        g.len() == 1,
        g[0].score.valid(),
    ensures
        reduce_group(p1, g) == reduce_group(p2, g),
        reduce_group(p1, g) == (WordModel {
            word: g[0].fragment,
            label: g[0].label,
            score: g[0].score,
        }),
{
    assert(g.last() == g[0]);
    let e = g.drop_last();
    assert(e.len() == 0);
    assert(concat_fragments(e) == Seq::<char>::empty());
    assert(label_count(e, g[0].label) == 0);
    assert(label_sum(e, g[0].label) == 0);
    assert(!label_has_nan(e, g[0].label));
    assert(concat_fragments(g) =~= g[0].fragment);
    assert(mode_index(g) == 0);
    assert(label_count(g, g[0].label) == 1);
    assert(label_sum(g, g[0].label) == g[0].score.micros);
    assert(label_has_nan(g, g[0].label) == g[0].score.is_nan);
    if g[0].score.is_nan {
        assert(g[0].score.micros == 0);
        assert(average_score(g, g[0].label) == g[0].score);
    } else {
        assert(g[0].score.micros as nat / 1nat == g[0].score.micros as nat);
        assert(average_score(g, g[0].label) == g[0].score);
    }
}

/// Every fragment's label occurs at least once in its group.
proof fn lemma_label_count_member(g: Seq<RawModel>, m: int)
    requires
        0 <= m < g.len(),
    ensures
        label_count(g, g[m].label) >= 1,
    decreases g.len(),
{
    if m == g.len() - 1 {
        assert(g.last() == g[m]);
    } else {
        lemma_label_count_member(g.drop_last(), m);
        assert(g.drop_last()[m] == g[m]);
    }
}

/// How many entries of `raw[i..j]` carry the label `l`.
fn count_label(raw: &Vec<RawPrediction>, i: usize, j: usize, l: &String) -> (c: usize)
    requires
        i <= j <= raw@.len(),
    ensures
        c == label_count(raws_model(raw@).subrange(i as int, j as int), l@),
        c <= j - i,
{
    let ghost g = raws_model(raw@).subrange(i as int, j as int);
    let mut c: usize = 0;
    let mut k: usize = i;
    proof {
        assert(g.take(0) =~= Seq::<RawModel>::empty());
    }
    while k < j
        invariant
            i <= k <= j <= raw@.len(),
            g == raws_model(raw@).subrange(i as int, j as int),
            c == label_count(g.take((k - i) as int), l@),
            c <= k - i,
        decreases j - k,
    {
        proof {
            let m = (k - i) as int;
            assert(g.take(m + 1).drop_last() =~= g.take(m));
            assert(g.take(m + 1).last() == g[m]);
            assert(g[m] == raw@[k as int].model());
        }
        if raw[k].label == *l {
            c = c + 1;
        }
        k = k + 1;
    }
    proof {
        assert(g.take((j - i) as int) =~= g);
    }
    c
}

/// Index into `raw` of the first entry of `raw[i..j]` bearing the
/// group's most frequent label.
fn mode_select(raw: &Vec<RawPrediction>, i: usize, j: usize) -> (b: usize)
    requires
        i < j <= raw@.len(),
    ensures
        i <= b < j,
        b - i == mode_index(raws_model(raw@).subrange(i as int, j as int)),
{
    let ghost g = raws_model(raw@).subrange(i as int, j as int);
    let mut best: usize = i;
    let mut t: usize = i + 1;
    while t < j
        invariant
            i <= best < t <= j,
            i < j <= raw@.len(),
            g == raws_model(raw@).subrange(i as int, j as int),
            best - i == mode_index_upto(g, (t - i) as int),
        decreases j - t,
    {
        let ct = count_label(raw, i, j, &raw[t].label);
        let cb = count_label(raw, i, j, &raw[best].label);
        proof {
            assert(g[(t - i) as int] == raw@[t as int].model());
            assert(g[(best - i) as int] == raw@[best as int].model());
        }
        if ct > cb {
            best = t;
        }
        t = t + 1;
    }
    best
}

/// Mean score of the entries of `raw[i..j]` bearing the label `l`.
fn label_average(raw: &Vec<RawPrediction>, i: usize, j: usize, l: &String) -> (s: Score)
    requires
        i < j <= raw@.len(),
        forall|t: int| i <= t < j ==> (#[trigger] raws_model(raw@)[t]).score.valid(),
        label_count(raws_model(raw@).subrange(i as int, j as int), l@) >= 1,
    ensures
        s == average_score(raws_model(raw@).subrange(i as int, j as int), l@),
        s.valid(),
{
    let ghost g = raws_model(raw@).subrange(i as int, j as int);
    let mut has_nan = false;
    let mut sum: u128 = 0;
    let mut cnt: usize = 0;
    let mut k: usize = i;
    proof {
        assert(g.take(0) =~= Seq::<RawModel>::empty());
    }
    while k < j
        invariant
            i <= k <= j <= raw@.len(),
            g == raws_model(raw@).subrange(i as int, j as int),
            forall|t: int| i <= t < j ==> (#[trigger] raws_model(raw@)[t]).score.valid(),
            has_nan == label_has_nan(g.take((k - i) as int), l@),
            sum == label_sum(g.take((k - i) as int), l@),
            cnt == label_count(g.take((k - i) as int), l@),
            cnt <= k - i,
            sum <= (cnt as int) * (SCORE_ONE as int),
        decreases j - k,
    {
        proof {
            let m = (k - i) as int;
            assert(g.take(m + 1).drop_last() =~= g.take(m));
            assert(g.take(m + 1).last() == g[m]);
            assert(g[m] == raw@[k as int].model());
            assert(raws_model(raw@)[k as int] == raw@[k as int].model());
        }
        if raw[k].label == *l {
            if raw[k].score.is_nan {
                has_nan = true;
            }
            sum = sum + raw[k].score.micros as u128;
            cnt = cnt + 1;
        }
        k = k + 1;
    }
    proof {
        assert(g.take((j - i) as int) =~= g);
    }
    if has_nan {
        Score { is_nan: true, micros: 0 }
    } else {
        proof {
            lemma_div_is_ordered(sum as int, (cnt as int) * (SCORE_ONE as int), cnt as int);
            lemma_div_multiples_vanish(SCORE_ONE as int, cnt as int);
            assert((cnt as int) * (SCORE_ONE as int) == (SCORE_ONE as int) * (cnt as int));
        }
        let micros = (sum / (cnt as u128)) as u64;
        Score { is_nan: false, micros }
    }
}

/// Reduce the group `raw[i..j]` to one aggregated prediction under
/// `policy`.
fn reduce_slice(policy: LabelAggregation, raw: &Vec<RawPrediction>, i: usize, j: usize) -> (t:
    AggregatedTag)
    requires
        i < j <= raw@.len(),
        forall|t: int| i <= t < j ==> (#[trigger] raws_model(raw@)[t]).score.valid(),
    ensures
        t.model() == reduce_group(policy, raws_model(raw@).subrange(i as int, j as int)),
{
    let ghost g = raws_model(raw@).subrange(i as int, j as int);
    let mut word = String::new();
    let mut k: usize = i;
    proof {
        assert(g.take(0) =~= Seq::<RawModel>::empty());
        assert(concat_fragments(g.take(0)) == Seq::<char>::empty());
    }
    while k < j
        invariant
            i <= k <= j <= raw@.len(),
            g == raws_model(raw@).subrange(i as int, j as int),
            word@ == concat_fragments(g.take((k - i) as int)),
        decreases j - k,
    {
        proof {
            let m = (k - i) as int;
            assert(g.take(m + 1).drop_last() =~= g.take(m));
            assert(g.take(m + 1).last() == g[m]);
            assert(g[m] == raw@[k as int].model());
        }
        word.append(raw[k].text_fragment.as_str());
        k = k + 1;
    }
    proof {
        assert(g.take((j - i) as int) =~= g);
        assert(g[0] == raw@[i as int].model());
        assert(g.last() == raw@[j - 1].model());
    }
    match policy {
        LabelAggregation::First => AggregatedTag {
            word,
            label: raw[i].label.clone(),
            score: raw[i].score,
        },
        LabelAggregation::Last => AggregatedTag {
            word,
            label: raw[j - 1].label.clone(),
            score: raw[j - 1].score,
        },
        LabelAggregation::Mode => {
            let b = mode_select(raw, i, j);
            proof {
                assert(g[(b - i) as int] == raw@[b as int].model());
            }
            AggregatedTag { word, label: raw[b].label.clone(), score: raw[b].score }
        },
        LabelAggregation::Average => {
            let b = mode_select(raw, i, j);
            proof {
                assert(g[(b - i) as int] == raw@[b as int].model());
                lemma_label_count_member(g, (b - i) as int);
            }
            let score = label_average(raw, i, j, &raw[b].label);
            AggregatedTag { word, label: raw[b].label.clone(), score }
        },
    }
}

/// Whether a raw sequence is well-formed: its first entry, if any,
/// starts a group, and every score is a valid confidence.
pub fn sequence_ok(raw: &Vec<RawPrediction>) -> (r: bool)
    ensures
        r == seq_well_formed(raws_model(raw@)),
{
    let ghost s = raws_model(raw@);
    if raw.len() > 0 && raw[0].is_continuation {
        proof {
            assert(s[0] == raw@[0].model());
        }
        return false;
    }
    let mut k: usize = 0;
    while k < raw.len()
        invariant
            k <= raw@.len(),
            s == raws_model(raw@),
            raw@.len() > 0 ==> !s[0].cont,
            forall|i: int| 0 <= i < k ==> (#[trigger] s[i]).score.valid(),
        decreases raw@.len() - k,
    {
        proof {
            assert(s[k as int] == raw@[k as int].model());
        }
        let sc = raw[k].score;
        if sc.micros > SCORE_ONE || (sc.is_nan && sc.micros != 0) {
            return false;
        }
        k = k + 1;
    }
    true
}

/// Merge a well-formed raw sequence into one aggregated prediction per
/// word, in input order.
pub fn aggregate(policy: LabelAggregation, raw: &Vec<RawPrediction>) -> (out: Vec<AggregatedTag>)
    requires
        seq_well_formed(raws_model(raw@)),
    ensures
        atags_model(out@) == aggregate_model(policy, raws_model(raw@)),
{
    let ghost s = raws_model(raw@);
    let mut out: Vec<AggregatedTag> = Vec::new();
    let mut i: usize = 0;
    proof {
        assert(atags_model(out@) =~= Seq::<WordModel>::empty());
        assert(s.skip(0) =~= s);
    }
    while i < raw.len()
        invariant
            i <= raw@.len(),
            s == raws_model(raw@),
            seq_well_formed(s),
            i == raw@.len() || !s[i as int].cont,
            atags_model(out@) + aggregate_model(policy, s.skip(i as int)) == aggregate_model(
                policy,
                s,
            ),
        decreases raw@.len() - i,
    {
        let mut j: usize = i + 1;
        while j < raw.len() && raw[j].is_continuation
            invariant
                i < j <= raw@.len(),
                s == raws_model(raw@),
                forall|t: int| i < t < j ==> (#[trigger] s[t]).cont,
            decreases raw@.len() - j,
        {
            proof {
                assert(s[j as int] == raw@[j as int].model());
            }
            j = j + 1;
        }
        proof {
            if j < raw@.len() {
                assert(s[j as int] == raw@[j as int].model());
            }
        }
        let ghost rest = s.skip(i as int);
        proof {
            // The group in front of `rest` runs exactly to `j`.
            let m = (j - i - 1) as nat;
            let tail = rest.skip(1);
            assert(tail =~= s.skip(i + 1));
            assert forall|t: int| 0 <= t < m implies (#[trigger] tail[t]).cont by {
                assert(tail[t] == s[i + 1 + t]);
            }
            if m < tail.len() {
                assert(tail[m as int] == s[j as int]);
            }
            lemma_cont_run_is(tail, m);
            assert(first_group_len(rest) == (j - i) as nat);
            assert(rest.take((j - i) as int) =~= s.subrange(i as int, j as int));
            assert(rest.skip((j - i) as int) =~= s.skip(j as int));
        }
        let tag = reduce_slice(policy, raw, i, j);
        proof {
            assert(aggregate_model(policy, rest) == seq![
                reduce_group(policy, s.subrange(i as int, j as int)),
            ] + aggregate_model(policy, s.skip(j as int)));
            assert(atags_model(out@.push(tag)) =~= atags_model(out@) + seq![tag.model()]);
            assert((atags_model(out@) + seq![tag.model()]) + aggregate_model(
                policy,
                s.skip(j as int),
            ) =~= atags_model(out@) + aggregate_model(policy, rest));
        }
        out.push(tag);
        i = j;
    }
    proof {
        assert(s.skip(i as int) =~= Seq::<RawModel>::empty());
        assert(aggregate_model(policy, s.skip(i as int)) =~= Seq::<WordModel>::empty());
        assert(atags_model(out@) + Seq::<WordModel>::empty() =~= atags_model(out@));
    }
    out
}

} // verus!
