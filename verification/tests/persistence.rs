use punkt::persist::{
    deserialize_training_data, serialize_training_data, ParseError, ParseErrorKind,
};
use punkt::prelude::{BEG_UC, ORT_LC};
use punkt::training_data::TrainingData;

fn chars(s: &str) -> Vec<char> {
    s.chars().collect()
}

fn text(v: &[char]) -> String {
    v.iter().collect()
}

#[test]
fn round_trip_preserves_the_store() {
    let mut d = TrainingData::new();
    d.insert_abbrev("dr");
    d.insert_abbrev("corp");
    d.insert_sentence_starter("he");
    d.insert_collocation("j", "smith");
    d.add_orthographic_context("he", ORT_LC | BEG_UC);
    let saved = serialize_training_data(&d);
    let reloaded = deserialize_training_data(&saved).unwrap();
    assert!(reloaded.contains_abbrev("dr"));
    assert!(reloaded.contains_abbrev("corp"));
    assert!(!reloaded.contains_abbrev("he"));
    assert!(reloaded.contains_sentence_starter("he"));
    assert!(reloaded.contains_collocation("j", "smith"));
    assert_eq!(reloaded.get_orthographic_context("he"), ORT_LC | BEG_UC);
}

#[test]
fn persisted_form_is_the_documented_line_format() {
    let mut d = TrainingData::new();
    d.insert_abbrev("dr");
    d.add_orthographic_context("he", 40);
    assert_eq!(text(&serialize_training_data(&d)), "a dr\no he 040\n");
}

#[test]
fn empty_text_loads_an_empty_store() {
    let d = deserialize_training_data(&Vec::new()).unwrap();
    assert!(!d.contains_abbrev("dr"));
    assert_eq!(d.get_orthographic_context("he"), 0);
}

#[test]
fn malformed_lines_are_rejected_with_their_line_number() {
    assert_eq!(
        deserialize_training_data(&chars("x dr\n")).unwrap_err(),
        ParseError { line: 1, kind: ParseErrorKind::UnknownTag }
    );
    assert_eq!(
        deserialize_training_data(&chars("a dr\na \n")).unwrap_err(),
        ParseError { line: 2, kind: ParseErrorKind::MissingField }
    );
    assert_eq!(
        deserialize_training_data(&chars("c j\n")).unwrap_err(),
        ParseError { line: 1, kind: ParseErrorKind::MissingField }
    );
    assert_eq!(
        deserialize_training_data(&chars("o he 999\n")).unwrap_err(),
        ParseError { line: 1, kind: ParseErrorKind::BadContextByte }
    );
    assert_eq!(
        deserialize_training_data(&chars("o he 4x0\n")).unwrap_err(),
        ParseError { line: 1, kind: ParseErrorKind::BadContextByte }
    );
}
