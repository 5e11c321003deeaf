use rustlib::aggregation::RawPrediction;
use rustlib::pos_tagging::{POSError, POSTag};
use rustlib::render::serialize_tags;
use rustlib::rusttagr::{rust_tag_r, try_tag};
use rustlib::score::Score;

fn raw(fragment: &str, label: &str, micros: u64, is_nan: bool, cont: bool) -> RawPrediction {
    RawPrediction {
        text_fragment: fragment.to_string(),
        label: label.to_string(),
        score: Score { is_nan, micros },
        is_continuation: cont,
    }
}

fn tag(word: &str, label: &str) -> POSTag {
    POSTag { word: word.to_string(), label: label.to_string() }
}

#[test]
fn renders_one_tag() {
    let r = rust_tag_r(vec![raw("Dogs", "NNS", 990000, false, false)]);
    assert!(r.is_ok());
    assert!(r.unwrap() == "[POSTag { word: \"Dogs\", label: \"NNS\" }]");
}

#[test]
fn renders_a_comma_separated_list() {
    let text = vec![
        raw("Dogs", "NNS", 990000, false, false),
        raw("run", "VBP", 930000, false, false),
        raw(".", ".", 910000, false, false),
    ];
    let r = rust_tag_r(text).expect("well-formed input");
    let expected = "[POSTag { word: \"Dogs\", label: \"NNS\" }, \
                    POSTag { word: \"run\", label: \"VBP\" }, \
                    POSTag { word: \".\", label: \".\" }]";
    assert!(r == expected);
}

#[test]
fn renders_the_heuristic_override() {
    let r = rust_tag_r(vec![raw("!", "NN", 200000, false, false)]).expect("well-formed input");
    assert!(r == "[POSTag { word: \"!\", label: \".\" }]");
}

#[test]
fn renders_an_empty_text_as_empty_brackets() {
    let r = rust_tag_r(Vec::new()).expect("empty text is fine");
    assert!(r == "[]");
}

#[test]
fn escapes_quotes_and_backslashes() {
    let quoted = serialize_tags(&vec![vec![tag("\"", "."), tag("\\", ".")]]);
    assert!(quoted == "[POSTag { word: \"\\\"\", label: \".\" }, POSTag { word: \"\\\\\", label: \".\" }]");
}

#[test]
fn renders_batches_back_to_back() {
    let batch = vec![vec![tag("Dogs", "NNS")], vec![tag("Cats", "NNS")]];
    let r = serialize_tags(&batch);
    assert!(r == "[POSTag { word: \"Dogs\", label: \"NNS\" }][POSTag { word: \"Cats\", label: \"NNS\" }]");
}

#[test]
fn try_tag_wraps_one_text() {
    let out = try_tag(vec![raw("dog", "NN", 900000, false, false)]).expect("well-formed input");
    assert_eq!(out.len(), 1);
    assert_eq!(out[0].len(), 1);
    assert!(out[0][0].word == "dog");
    assert!(out[0][0].label == "NN");
}

#[test]
fn entry_points_propagate_errors() {
    let bad = || vec![raw("g", "NN", 600000, false, true)];
    assert_eq!(try_tag(bad()).err(), Some(POSError::Tokenization));
    assert_eq!(rust_tag_r(bad()).err(), Some(POSError::Tokenization));
}
