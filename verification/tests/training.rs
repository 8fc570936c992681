use punkt::trainer::{ParameterError, Trainer, TrainerParameters};
use punkt::tokenizer::SentenceTokenizer;
use punkt::training_data::TrainingData;

const CORPUS: &str =
    "Dr. Smith works at Acme Corp. He is tired. Mary said he sleeps now. Later he wakes up.";

#[test]
fn learns_abbreviations_from_period_evidence() {
    let mut data = TrainingData::new();
    let trainer = Trainer::new();
    trainer.train(CORPUS, &mut data);
    assert!(data.contains_abbrev("dr"));
    assert!(data.contains_abbrev("corp"));
}

#[test]
fn no_abbreviation_without_observed_period() {
    let mut data = TrainingData::new();
    let trainer = Trainer::new();
    trainer.train(CORPUS, &mut data);
    // spellings never seen with a trailing period cannot become abbreviations
    assert!(!data.contains_abbrev("smith"));
    assert!(!data.contains_abbrev("he"));
    assert!(!data.contains_abbrev("acme"));
    assert!(!data.contains_abbrev("hello"));
}

#[test]
fn trained_splitting_keeps_abbreviations_together() {
    let mut data = TrainingData::new();
    let trainer = Trainer::new();
    trainer.train(CORPUS, &mut data);
    let tok = SentenceTokenizer::new();
    let sents = tok.sentences("Dr. Smith works at Acme Corp. He is tired.", &data);
    assert_eq!(
        sents,
        vec!["Dr. Smith works at Acme Corp.", "He is tired."]
    );
    // over the full corpus: no break inside "Dr. Smith"
    let full = tok.sentences(CORPUS, &data);
    assert!(full[0].starts_with("Dr. Smith"));
    assert_eq!(full[0], "Dr. Smith works at Acme Corp.");
}

#[test]
fn orthographic_context_accumulates_monotonically() {
    let mut data = TrainingData::new();
    let trainer = Trainer::new();
    trainer.train(CORPUS, &mut data);
    let before = data.get_orthographic_context("he");
    assert_eq!(before, 0b0010_1000); // unknown-upper and internal-lower
    trainer.train("he said so. Dr. Who came.", &mut data);
    let after = data.get_orthographic_context("he");
    assert_eq!(after, 0b0011_1000);
    assert_eq!(before & after, before); // no bit was lost
}

#[test]
fn training_twice_on_identical_text_adds_nothing() {
    let mut once = TrainingData::new();
    let mut twice = TrainingData::new();
    let trainer = Trainer::new();
    trainer.train(CORPUS, &mut once);
    trainer.train(CORPUS, &mut twice);
    trainer.train(CORPUS, &mut twice);
    for w in CORPUS.split_whitespace() {
        assert_eq!(once.contains_abbrev(w), twice.contains_abbrev(w));
        assert_eq!(
            once.contains_sentence_starter(w),
            twice.contains_sentence_starter(w)
        );
        assert_eq!(
            once.get_orthographic_context(w),
            twice.get_orthographic_context(w)
        );
    }
}

#[test]
fn parameter_window_is_validated() {
    let bad = TrainerParameters::checked(
        5_000_000, 300_000, false, 7_880_000, 30_000_000, false, false, 1,
    );
    assert_eq!(bad.unwrap_err(), ParameterError::InvalidAbbrevBounds);
    let good = TrainerParameters::checked(
        300_000, 5_000_000, true, 7_880_000, 30_000_000, true, false, 2,
    );
    let p = good.unwrap();
    assert_eq!(p.abbrev_lower_bound, 300_000);
    assert!(p.ignore_abbrev_penalty);
    assert!(p.include_all_collocations);
    assert_eq!(p.collocation_frequency_lower_bound, 2);
    let _trainer = Trainer::with_parameters(p);
}
