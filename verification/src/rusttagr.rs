//! Host-embedding entry points.
//!
//! A hosting environment outside this crate tokenizes one text, runs
//! the inference backend, and hands the resulting raw predictions
//! over as plain values. These entry points run the standard-profile
//! pipeline on them and, for [`rust_tag_r`], render the outcome as one
//! string. Failures are propagated as typed errors, never by aborting.

use vstd::prelude::*;

use crate::aggregation::{raws_model, seq_well_formed, LabelAggregation, RawPrediction};
use crate::pos_tagging::{
    batch_well_formed, predict_model, raw_batch_model, tag_batch_model, POSConfig, POSError,
    POSModel, POSTag,
};
use crate::render::{batch_repr, serialize_tags};

verus! {

/// Run the standard-profile pipeline on one text's raw predictions:
/// one batch of one text, so one inner tag sequence. Fails, with no
/// partial result, exactly when the sequence is malformed.
pub fn try_tag(raw: Vec<RawPrediction>) -> (r: Result<Vec<Vec<POSTag>>, POSError>)
    ensures
        r is Ok <==> seq_well_formed(raws_model(raw@)),
        r is Ok ==> tag_batch_model(r->Ok_0@) == predict_model(
            LabelAggregation::First,
            seq![raws_model(raw@)],
        ),
        r is Err ==> r->Err_0 == POSError::Tokenization,
{
    let ghost s = raws_model(raw@);
    let model = POSModel::new(POSConfig::default());
    let mut input: Vec<Vec<RawPrediction>> = Vec::new();
    input.push(raw);
    proof {
        assert(raw_batch_model(input@) =~= seq![s]);
        assert(batch_well_formed(seq![s]) <==> seq_well_formed(s)) by {
            assert(seq![s][0] == s);
        }
    }
    model.predict(input)
}

/// Host-embedding entry point: the finalized tags of one text,
/// rendered as one string. Propagates a typed error instead of a
/// partial or truncated result when the input is malformed.
pub fn rust_tag_r(raw: Vec<RawPrediction>) -> (r: Result<String, POSError>)
    ensures
        r is Ok <==> seq_well_formed(raws_model(raw@)),
        r is Ok ==> r->Ok_0@ == batch_repr(predict_model(
            LabelAggregation::First,
            seq![raws_model(raw@)],
        )),
        r is Err ==> r->Err_0 == POSError::Tokenization,
{
    match try_tag(raw) {
        Ok(tags) => Ok(serialize_tags(&tags)),
        Err(e) => Err(e),
    }
}

} // verus!
