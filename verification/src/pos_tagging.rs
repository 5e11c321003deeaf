//! The part-of-speech pipeline.
//!
//! A [`POSModel`] is built once from a [`POSConfig`] and is then
//! reusable: it holds only the immutable configuration, so `predict`
//! writes no shared state and concurrent calls cannot influence one
//! another. Each call aggregates every text's sub-word predictions
//! into one prediction per word, applies the punctuation heuristic,
//! and returns one tag sequence per input text, in input order.

use vstd::prelude::*;
use vstd::string::StringExecFns;

use crate::aggregation::{
    aggregate, aggregate_model, atags_model, lemma_aggregate_count, raws_model, seq_well_formed,
    sequence_ok, start_count, LabelAggregation, RawModel, RawPrediction, WordModel,
};
use crate::heuristic::{apply_heuristic, heuristic_model};

verus! {

/// Part-of-speech tag: one word of the input text together with its
/// predicted label (e.g. `NN`, `VB`).
#[derive(Debug)]
pub struct POSTag {
    pub word: String,
    pub label: String,
}

/// Mathematical image of a [`POSTag`].
pub ghost struct TagModel {
    pub word: Seq<char>,
    pub label: Seq<char>,
}

impl POSTag {
    pub open spec fn model(self) -> TagModel {
        TagModel { word: self.word@, label: self.label@ }
    }
}

/// Mathematical image of a sequence of tags.
pub open spec fn tags_model(s: Seq<POSTag>) -> Seq<TagModel> {
    Seq::new(s.len(), |i: int| s[i].model())
}

/// Mathematical image of a batch of raw-prediction sequences.
pub open spec fn raw_batch_model(b: Seq<Vec<RawPrediction>>) -> Seq<Seq<RawModel>> {
    Seq::new(b.len(), |i: int| raws_model(b[i]@))
}

/// Mathematical image of a batch of tag sequences.
pub open spec fn tag_batch_model(b: Seq<Vec<POSTag>>) -> Seq<Seq<TagModel>> {
    Seq::new(b.len(), |i: int| tags_model(b[i]@))
}

/// The failures the pipeline distinguishes.
#[derive(Clone, Copy, Debug, PartialEq, Eq, Structural)]
pub enum POSError {
    /// Invalid or unsupported configuration; surfaced at construction.
    Configuration,
    /// Model weights, vocabulary or configuration could not be
    /// resolved or loaded; surfaced at construction.
    ResourceLoad,
    /// A malformed prediction sequence: one that does not open with a
    /// group-starting fragment, or carries an invalid confidence.
    /// Fails the whole call.
    Tokenization,
    /// The inference backend failed during execution. Fails the whole
    /// call.
    Inference,
}

/// Where the inference backend should place the model.
#[derive(Clone, Copy, Debug, PartialEq, Eq, Structural)]
pub enum DevicePreference {
    Cpu,
    /// The CUDA device with the given ordinal.
    Cuda(u64),
    /// The first CUDA device when one is available, the CPU otherwise.
    CudaIfAvailable,
}

/// Pipeline configuration: which pretrained model the resource
/// collaborator should resolve, where to place it, how the tokenizer
/// normalizes text, and how sub-word labels are aggregated.
pub struct POSConfig {
    pub model_identity: String,
    pub device: DevicePreference,
    pub lower_case: bool,
    pub strip_accents: bool,
    pub aggregation: LabelAggregation,
}

impl Default for POSConfig {
    /// The standard profile: a pretrained English part-of-speech
    /// model, lower-cased accent-stripped tokenization, first-fragment
    /// aggregation, and the CUDA device when one is available.
    fn default() -> (c: POSConfig)
        ensures
            c.model_identity@ == "mobilebert-english-pos"@,
            c.device == DevicePreference::CudaIfAvailable,
            c.lower_case,
            c.strip_accents,
            c.aggregation == LabelAggregation::First,
    {
        POSConfig {
            model_identity: String::from_str("mobilebert-english-pos"),
            device: DevicePreference::CudaIfAvailable,
            lower_case: true,
            strip_accents: true,
            aggregation: LabelAggregation::First,
        }
    }
}

/// Finalized tag of one aggregated word: the punctuation heuristic
/// applied, then the confidence dropped from the public result.
pub open spec fn final_tag(w: WordModel) -> TagModel {
    let h = heuristic_model(w);
    TagModel { word: h.word, label: h.label }
}

/// All finalized tags for one text's raw sequence, in word order.
pub open spec fn process_model(policy: LabelAggregation, s: Seq<RawModel>) -> Seq<TagModel> {
    Seq::new(aggregate_model(policy, s).len(), |i: int| final_tag(aggregate_model(policy, s)[i]))
}

/// All finalized tags for a batch, one sequence per text, in input
/// order.
pub open spec fn predict_model(policy: LabelAggregation, batch: Seq<Seq<RawModel>>) -> Seq<
    Seq<TagModel>,
> {
    Seq::new(batch.len(), |i: int| process_model(policy, batch[i]))
}

/// A batch is well-formed when each of its sequences is.
pub open spec fn batch_well_formed(batch: Seq<Seq<RawModel>>) -> bool {
    forall|i: int| 0 <= i < batch.len() ==> seq_well_formed(#[trigger] batch[i])
}

/// The pipeline: immutable configuration bound at construction, no
/// per-call state.
pub struct POSModel {
    pub config: POSConfig,
}

impl POSModel {
    /// Bind a pipeline to its configuration. Resolving and loading the
    /// pretrained resources the configuration names is the resource
    /// collaborator's task; the pipeline itself only keeps the
    /// configuration, immutable from here on.
    pub fn new(config: POSConfig) -> (m: POSModel)
        ensures
            m.config == config,
    {
        POSModel { config }
    }

    /// Aggregate and finalize one text's raw predictions: one tag per
    /// word group, in order.
    pub fn process_text(&self, raw: &Vec<RawPrediction>) -> (out: Vec<POSTag>)
        requires
            seq_well_formed(raws_model(raw@)),
        ensures
            tags_model(out@) == process_model(self.config.aggregation, raws_model(raw@)),
            out@.len() == start_count(raws_model(raw@)),
    {
        let ghost policy = self.config.aggregation;
        let ghost s = raws_model(raw@);
        let agg = aggregate(self.config.aggregation, raw);
        let ghost a = atags_model(agg@);
        let mut out: Vec<POSTag> = Vec::new();
        let mut k: usize = 0;
        proof {
            assert(tags_model(out@) =~= Seq::<TagModel>::empty());
        }
        while k < agg.len()
            invariant
                k <= agg@.len(),
                a == atags_model(agg@),
                tags_model(out@) =~= Seq::new(k as nat, |i: int| final_tag(a[i])),
            decreases agg@.len() - k,
        {
            proof {
                assert(a[k as int] == agg@[k as int].model());
            }
            let h = apply_heuristic(&agg[k]);
            let tag = POSTag { word: h.word, label: h.label };
            proof {
                assert(tag.model() == final_tag(a[k as int]));
                assert(tags_model(out@.push(tag)) =~= tags_model(out@) + seq![tag.model()]);
            }
            out.push(tag);
            k = k + 1;
            proof {
                assert(tags_model(out@) =~= Seq::new(k as nat, |i: int| final_tag(a[i])));
            }
        }
        proof {
            assert(tags_model(out@) =~= process_model(policy, s));
            lemma_aggregate_count(policy, s);
        }
        out
    }

    /// Tag a batch of texts. Each text is processed independently and
    /// in order: one inner sequence per input text, an empty text
    /// yielding an empty sequence. The call fails atomically, with no
    /// partial result, exactly when some text's raw sequence is
    /// malformed.
    pub fn predict(&self, input: Vec<Vec<RawPrediction>>) -> (r: Result<
        Vec<Vec<POSTag>>,
        POSError,
    >)
        ensures
            r is Ok <==> batch_well_formed(raw_batch_model(input@)),
            r is Ok ==> tag_batch_model(r->Ok_0@) == predict_model(
                self.config.aggregation,
                raw_batch_model(input@),
            ),
            r is Err ==> r->Err_0 == POSError::Tokenization,
    {
        let ghost policy = self.config.aggregation;
        let ghost batch = raw_batch_model(input@);
        let mut idx: usize = 0;
        while idx < input.len()
            invariant
                idx <= input@.len(),
                batch == raw_batch_model(input@),
                forall|i: int| 0 <= i < idx ==> seq_well_formed(#[trigger] batch[i]),
            decreases input@.len() - idx,
        {
            proof {
                assert(batch[idx as int] == raws_model(input@[idx as int]@));
            }
            if !sequence_ok(&input[idx]) {
                return Err(POSError::Tokenization);
            }
            idx = idx + 1;
        }
        let mut out: Vec<Vec<POSTag>> = Vec::new();
        let mut k: usize = 0;
        proof {
            assert(tag_batch_model(out@) =~= Seq::<Seq<TagModel>>::empty());
        }
        while k < input.len()
            invariant
                k <= input@.len(),
                batch == raw_batch_model(input@),
                batch_well_formed(batch),
                tag_batch_model(out@) =~= predict_model(policy, batch).take(k as int),
                policy == self.config.aggregation,
            decreases input@.len() - k,
        {
            proof {
                assert(batch[k as int] == raws_model(input@[k as int]@));
            }
            let tags = self.process_text(&input[k]);
            proof {
                assert(tag_batch_model(out@.push(tags)) =~= tag_batch_model(out@) + seq![
                    tags_model(tags@),
                ]);
                assert(tag_batch_model(out@) + seq![tags_model(tags@)] =~= predict_model(
                    policy,
                    batch,
                ).take(k + 1));
            }
            out.push(tags);
            k = k + 1;
        }
        proof {
            assert(predict_model(policy, batch).take(input@.len() as int) =~= predict_model(
                policy,
                batch,
            ));
        }
        Ok(out)
    }
}

/// Determinism of prediction: the result is a function of the
/// aggregation policy and the raw input alone, so repeated calls on
/// identical input with an identical configuration yield identical
/// output.
pub proof fn lemma_predict_deterministic(
    policy: LabelAggregation,
    batch: Seq<Seq<RawModel>>,
    r1: Seq<Seq<TagModel>>,
    r2: Seq<Seq<TagModel>>,
)
    requires
        r1 == predict_model(policy, batch),
        r2 == predict_model(policy, batch),
    ensures
        r1 == r2,
{
}

/// Batch independence: a text's tags depend only on that text's own
/// raw sequence, never on the other members of the batch or on its
/// position in it.
pub proof fn lemma_batch_independence(
    policy: LabelAggregation,
    b1: Seq<Seq<RawModel>>,
    b2: Seq<Seq<RawModel>>,
    i: int,
    j: int,
)
    requires
        0 <= i < b1.len(),
        0 <= j < b2.len(),
        b1[i] == b2[j],
    ensures
        predict_model(policy, b1)[i] == predict_model(policy, b2)[j],
{
}

/// The number of tags returned for a text equals the number of its
/// group-starting fragments, whatever aggregation policy is chosen.
pub proof fn lemma_tag_count_policy_independent(
    p1: LabelAggregation,
    p2: LabelAggregation,
    s: Seq<RawModel>,
)
    requires
        seq_well_formed(s),
    ensures
        process_model(p1, s).len() == start_count(s),
        process_model(p1, s).len() == process_model(p2, s).len(),
{
    lemma_aggregate_count(p1, s);
    lemma_aggregate_count(p2, s);
}

} // verus!
