use punkt::prelude::CharacterClasses;
use punkt::token::Token;
use punkt::trainer::Trainer;
use punkt::tokenizer::SentenceTokenizer;
use punkt::training_data::TrainingData;
use punkt::util::annotate_first_pass;

#[test]
fn untrained_data_splits_on_punctuation() {
    let data = TrainingData::new();
    let tok = SentenceTokenizer::new();
    let sents = tok.sentences("Mr. Jones left. He returned.", &data);
    assert_eq!(sents, vec!["Mr.", "Jones left.", "He returned."]);
}

#[test]
fn empty_and_whitespace_input_yield_no_sentences() {
    let data = TrainingData::new();
    let tok = SentenceTokenizer::new();
    assert!(tok.sentences("", &data).is_empty());
    assert!(tok.sentences("   \n\t  ", &data).is_empty());
    assert_eq!(tok.sentences("word", &data), vec!["word"]);
}

#[test]
fn spans_reconstruct_the_text() {
    let data = TrainingData::new();
    let tok = SentenceTokenizer::new();
    let text = "  One two.   Three four!  Five. ";
    let spans = tok.sentence_spans(text, &data);
    // ASCII text: char positions equal byte positions
    let mut rebuilt = String::new();
    let mut from = 0usize;
    for &(a, b) in spans.iter() {
        rebuilt.push_str(&text[from..a]);
        rebuilt.push_str(&text[a..b]);
        from = b;
    }
    rebuilt.push_str(&text[from..]);
    assert_eq!(rebuilt, text);
    assert_eq!(spans.len(), 2);
}

#[test]
fn collocations_suppress_breaks() {
    let corpus = "J. Smith met J. Smith today. Later J. Smith left. Yes J. Smith won.";
    let mut data = TrainingData::new();
    let trainer = Trainer::new();
    trainer.train(corpus, &mut data);
    assert!(data.contains_collocation("J.", "Smith"));
    let tok = SentenceTokenizer::new();
    let sents = tok.sentences(corpus, &data);
    // every break after "J." is suppressed by the learned collocation
    for s in sents.iter() {
        assert!(!s.ends_with("J."));
    }
}

#[test]
fn first_pass_marks_abbreviations_and_breaks() {
    let classes = CharacterClasses::standard();
    let mut data = TrainingData::new();
    data.insert_abbrev("dr");
    let mut t = Token::new(vec!['D', 'r', '.'], 0, false, false);
    annotate_first_pass(&mut t, &data, &classes);
    assert!(t.is_abbrev());
    assert!(!t.is_sentence_break());

    let mut u = Token::new(vec!['e', 'n', 'd', '.'], 4, false, false);
    annotate_first_pass(&mut u, &data, &classes);
    assert!(!u.is_abbrev());
    assert!(u.is_sentence_break());

    let mut v = Token::new(vec!['!'], 9, false, false);
    annotate_first_pass(&mut v, &data, &classes);
    assert!(v.is_sentence_break());

    // hyphen suffix lookup: "multi-dr." matches the known suffix
    let mut w = Token::new(vec!['x', '-', 'D', 'r', '.'], 11, false, false);
    annotate_first_pass(&mut w, &data, &classes);
    assert!(w.is_abbrev());

    // an ellipsis is left for the second pass
    let mut e = Token::new(vec!['.', '.', '.'], 17, false, false);
    annotate_first_pass(&mut e, &data, &classes);
    assert!(!e.is_sentence_break());
    assert!(!e.is_abbrev());
}

#[test]
fn ellipsis_does_not_break_without_evidence() {
    let data = TrainingData::new();
    let tok = SentenceTokenizer::new();
    assert_eq!(
        tok.sentences("Stop ... now. Done.", &data),
        vec!["Stop ... now.", "Done."]
    );
    assert_eq!(
        tok.sentences("He said ... Maybe.", &data),
        vec!["He said ... Maybe."]
    );
}

#[test]
fn ellipsis_character_before_period_is_an_ellipsis() {
    let classes = CharacterClasses::standard();
    let data = TrainingData::new();
    let mut e = Token::new(vec!['\u{2026}', '.'], 0, false, false);
    annotate_first_pass(&mut e, &data, &classes);
    assert!(!e.is_sentence_break());
    assert!(!e.is_abbrev());
    let tok = SentenceTokenizer::new();
    assert_eq!(
        tok.sentences("He left \u{2026}. Then rain.", &data),
        vec!["He left \u{2026}. Then rain."]
    );
}
