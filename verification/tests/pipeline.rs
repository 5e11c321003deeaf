use rustlib::aggregation::{aggregate, sequence_ok, AggregatedTag, LabelAggregation, RawPrediction};
use rustlib::heuristic::{apply_heuristic, is_punctuation};
use rustlib::pos_tagging::{DevicePreference, POSConfig, POSError, POSModel, POSTag};
use rustlib::score::Score;

fn raw(fragment: &str, label: &str, micros: u64, is_nan: bool, cont: bool) -> RawPrediction {
    RawPrediction {
        text_fragment: fragment.to_string(),
        label: label.to_string(),
        score: Score { is_nan, micros },
        is_continuation: cont,
    }
}

fn first_model() -> POSModel {
    POSModel::new(POSConfig::default())
}

fn predict_one(model: &POSModel, text: Vec<RawPrediction>) -> Vec<POSTag> {
    let mut out = model.predict(vec![text]).expect("well-formed input");
    assert_eq!(out.len(), 1);
    out.remove(0)
}

#[test]
fn default_profile() {
    let c = POSConfig::default();
    assert!(c.model_identity == "mobilebert-english-pos");
    assert_eq!(c.device, DevicePreference::CudaIfAvailable);
    assert!(c.lower_case);
    assert!(c.strip_accents);
    assert_eq!(c.aggregation, LabelAggregation::First);
}

#[test]
fn punctuation_recognition() {
    assert!(!is_punctuation(""));
    assert!(is_punctuation("!"));
    assert!(is_punctuation("!?.,;"));
    assert!(!is_punctuation("a!"));
    assert!(!is_punctuation("3."));
    assert!(!is_punctuation(". "));
}

#[test]
fn heuristic_overrides_low_confidence_punctuation() {
    let model = first_model();
    let tags = predict_one(&model, vec![raw("!", "NN", 200000, false, false)]);
    assert_eq!(tags.len(), 1);
    assert!(tags[0].word == "!");
    assert!(tags[0].label == ".");
}

#[test]
fn heuristic_overrides_nan_score_punctuation() {
    let model = first_model();
    let tags = predict_one(&model, vec![raw("?", "VB", 0, true, false)]);
    assert_eq!(tags.len(), 1);
    assert!(tags[0].word == "?");
    assert!(tags[0].label == ".");
}

#[test]
fn heuristic_leaves_confident_words_alone() {
    let model = first_model();
    let tags = predict_one(&model, vec![raw("dog", "NN", 900000, false, false)]);
    assert_eq!(tags.len(), 1);
    assert!(tags[0].word == "dog");
    assert!(tags[0].label == "NN");
}

#[test]
fn heuristic_leaves_confident_punctuation_alone() {
    let model = first_model();
    let tags = predict_one(&model, vec![raw(".", ".", 950000, false, false)]);
    assert_eq!(tags.len(), 1);
    assert!(tags[0].word == ".");
    assert!(tags[0].label == ".");
}

#[test]
fn heuristic_is_idempotent_on_its_output() {
    let once = apply_heuristic(&AggregatedTag {
        word: "!".to_string(),
        label: "NN".to_string(),
        score: Score { is_nan: false, micros: 200000 },
    });
    assert!(once.word == "!");
    assert!(once.label == ".");
    assert_eq!(once.score, Score { is_nan: false, micros: 1000000 });
    let twice = apply_heuristic(&once);
    assert!(twice.word == once.word);
    assert!(twice.label == once.label);
    assert_eq!(twice.score, once.score);
}

#[test]
fn empty_text_yields_empty_sequence() {
    let model = first_model();
    let out = model.predict(vec![Vec::new()]).expect("empty text is fine");
    assert_eq!(out.len(), 1);
    assert!(out[0].is_empty());
}

#[test]
fn one_tag_per_word_group_under_every_policy() {
    let text = || {
        vec![
            raw("do", "VB", 700000, false, false),
            raw("g", "NN", 600000, false, true),
            raw("runs", "VBZ", 800000, false, false),
        ]
    };
    for policy in [
        LabelAggregation::First,
        LabelAggregation::Last,
        LabelAggregation::Mode,
        LabelAggregation::Average,
    ] {
        let mut config = POSConfig::default();
        config.aggregation = policy;
        let model = POSModel::new(config);
        let tags = predict_one(&model, text());
        assert_eq!(tags.len(), 2);
        assert!(tags[0].word == "dog");
        assert!(tags[1].word == "runs");
    }
}

#[test]
fn repeated_calls_are_deterministic() {
    let model = first_model();
    let text = || {
        vec![
            raw("Dogs", "NNS", 980000, false, false),
            raw("run", "VBP", 930000, false, false),
        ]
    };
    let a = model.predict(vec![text()]).expect("well-formed input");
    let b = model.predict(vec![text()]).expect("well-formed input");
    assert_eq!(a.len(), b.len());
    for (x, y) in a.iter().zip(b.iter()) {
        assert_eq!(x.len(), y.len());
        for (s, t) in x.iter().zip(y.iter()) {
            assert!(s.word == t.word);
            assert!(s.label == t.label);
        }
    }
}

#[test]
fn batch_members_are_independent() {
    let model = first_model();
    let first = || {
        vec![
            raw("Dogs", "NNS", 980000, false, false),
            raw("run", "VBP", 930000, false, false),
            raw(".", ".", 200000, false, false),
        ]
    };
    let second = || vec![raw("Cats", "NNS", 970000, false, false)];
    let forward = model.predict(vec![first(), second()]).expect("well-formed input");
    let backward = model.predict(vec![second(), first()]).expect("well-formed input");
    assert_eq!(forward.len(), 2);
    assert_eq!(backward.len(), 2);
    for (x, y) in [(&forward[0], &backward[1]), (&forward[1], &backward[0])] {
        assert_eq!(x.len(), y.len());
        for (s, t) in x.iter().zip(y.iter()) {
            assert!(s.word == t.word);
            assert!(s.label == t.label);
        }
    }
}

#[test]
fn malformed_sequence_is_rejected_atomically() {
    let model = first_model();
    let bad = vec![raw("g", "NN", 600000, false, true)];
    let good = vec![raw("dog", "NN", 900000, false, false)];
    let r = model.predict(vec![good, bad]);
    assert_eq!(r.err(), Some(POSError::Tokenization));
}

#[test]
fn invalid_scores_are_rejected() {
    let model = first_model();
    let out_of_range = vec![raw("dog", "NN", 1000001, false, false)];
    assert_eq!(model.predict(vec![out_of_range]).err(), Some(POSError::Tokenization));
    let nan_with_payload = vec![raw("dog", "NN", 5, true, false)];
    assert_eq!(model.predict(vec![nan_with_payload]).err(), Some(POSError::Tokenization));
}

#[test]
fn sequence_ok_matches_the_cases() {
    assert!(sequence_ok(&Vec::new()));
    assert!(sequence_ok(&vec![raw("dog", "NN", 900000, false, false)]));
    assert!(!sequence_ok(&vec![raw("g", "NN", 900000, false, true)]));
    assert!(!sequence_ok(&vec![raw("dog", "NN", 1000001, false, false)]));
}

#[test]
fn policy_first_takes_the_first_fragment() {
    let group = vec![
        raw("do", "VB", 400000, false, false),
        raw("g", "NN", 600000, false, true),
    ];
    let out = aggregate(LabelAggregation::First, &group);
    assert_eq!(out.len(), 1);
    assert!(out[0].word == "dog");
    assert!(out[0].label == "VB");
    assert_eq!(out[0].score, Score { is_nan: false, micros: 400000 });
}

#[test]
fn policy_last_takes_the_final_fragment() {
    let group = vec![
        raw("do", "VB", 400000, false, false),
        raw("g", "NN", 600000, false, true),
    ];
    let out = aggregate(LabelAggregation::Last, &group);
    assert_eq!(out.len(), 1);
    assert!(out[0].word == "dog");
    assert!(out[0].label == "NN");
    assert_eq!(out[0].score, Score { is_nan: false, micros: 600000 });
}

#[test]
fn policy_mode_takes_the_majority_label() {
    let group = vec![
        raw("un", "NN", 300000, false, false),
        raw("lik", "VB", 800000, false, true),
        raw("ely", "VB", 700000, false, true),
    ];
    let out = aggregate(LabelAggregation::Mode, &group);
    assert_eq!(out.len(), 1);
    assert!(out[0].word == "unlikely");
    assert!(out[0].label == "VB");
    assert_eq!(out[0].score, Score { is_nan: false, micros: 800000 });
}

#[test]
fn policy_mode_breaks_ties_by_first_occurrence() {
    let group = vec![
        raw("do", "NN", 300000, false, false),
        raw("g", "VB", 800000, false, true),
    ];
    let out = aggregate(LabelAggregation::Mode, &group);
    assert_eq!(out.len(), 1);
    assert!(out[0].label == "NN");
    assert_eq!(out[0].score, Score { is_nan: false, micros: 300000 });
}

#[test]
fn policy_average_means_the_majority_scores() {
    let group = vec![
        raw("un", "NN", 400000, false, false),
        raw("lik", "NN", 500001, false, true),
        raw("ely", "VB", 900000, false, true),
    ];
    let out = aggregate(LabelAggregation::Average, &group);
    assert_eq!(out.len(), 1);
    assert!(out[0].label == "NN");
    assert_eq!(out[0].score, Score { is_nan: false, micros: 450000 });
}

#[test]
fn policy_average_propagates_nan() {
    let group = vec![
        raw("un", "NN", 0, true, false),
        raw("til", "NN", 600000, false, true),
    ];
    let out = aggregate(LabelAggregation::Average, &group);
    assert_eq!(out.len(), 1);
    assert!(out[0].label == "NN");
    assert_eq!(out[0].score, Score { is_nan: true, micros: 0 });
}

#[test]
fn single_fragment_group_is_policy_agnostic() {
    for policy in [
        LabelAggregation::First,
        LabelAggregation::Last,
        LabelAggregation::Mode,
        LabelAggregation::Average,
    ] {
        let out = aggregate(policy, &vec![raw("dog", "NN", 750000, false, false)]);
        assert_eq!(out.len(), 1);
        assert!(out[0].word == "dog");
        assert!(out[0].label == "NN");
        assert_eq!(out[0].score, Score { is_nan: false, micros: 750000 });
    }
}
