use punkt::prelude::{
    LetterCase, OrthographyPosition, Standard, DefinesSentenceEndings,
    DefinesInternalPunctuation, DefinesNonPrefixCharacters, DefinesNonWordCharacters,
    DefinesPunctuation, BEG_UC, MID_LC, ORT_LC, ORT_UC, UNK_UC,
};
use punkt::training_data::TrainingData;

#[test]
fn character_classes_match_defaults() {
    assert!(<Standard as DefinesSentenceEndings>::is_sentence_ending(&'.'));
    assert!(<Standard as DefinesSentenceEndings>::is_sentence_ending(&'?'));
    assert!(<Standard as DefinesSentenceEndings>::is_sentence_ending(&'!'));
    assert!(!<Standard as DefinesSentenceEndings>::is_sentence_ending(&','));
    assert!(<Standard as DefinesInternalPunctuation>::is_internal_punctuation(&'\u{2014}'));
    assert!(!<Standard as DefinesInternalPunctuation>::is_internal_punctuation(&'.'));
    assert!(<Standard as DefinesNonWordCharacters>::is_nonword_char(&'{'));
    assert!(!<Standard as DefinesNonWordCharacters>::is_nonword_char(&'a'));
    assert!(<Standard as DefinesPunctuation>::is_punctuation(&';'));
    assert!(!<Standard as DefinesPunctuation>::is_punctuation(&'}'));
    assert!(<Standard as DefinesNonPrefixCharacters>::is_nonprefix_char(&'-'));
    assert!(!<Standard as DefinesNonPrefixCharacters>::is_nonprefix_char(&'.'));
}

#[test]
fn orthography_bytes() {
    assert_eq!(OrthographyPosition::Initial.as_byte(), 0b0100_0000);
    assert_eq!(OrthographyPosition::Internal.as_byte(), 0b0010_0000);
    assert_eq!(OrthographyPosition::Unknown.as_byte(), 0b0110_0000);
    assert_eq!(LetterCase::Upper.as_byte(), 0b0000_0010);
    assert_eq!(LetterCase::Lower.as_byte(), 0b0000_0001);
    assert_eq!(LetterCase::Unknown.as_byte(), 0b0000_0011);
    assert_eq!(ORT_UC, BEG_UC | punkt::prelude::MID_UC | UNK_UC);
    assert_eq!(ORT_LC, punkt::prelude::BEG_LC | MID_LC | punkt::prelude::UNK_LC);
}

#[test]
fn lookups_are_case_and_period_insensitive() {
    let mut d = TrainingData::new();
    assert!(!d.contains_abbrev("dr"));
    d.insert_abbrev("Dr.");
    assert!(d.contains_abbrev("dr"));
    assert!(d.contains_abbrev("DR"));
    assert!(d.contains_abbrev("Dr."));
    assert!(!d.contains_abbrev("drx"));

    d.insert_sentence_starter("He");
    assert!(d.contains_sentence_starter("he"));
    assert!(d.contains_sentence_starter("HE."));
    assert!(!d.contains_sentence_starter("she"));

    d.insert_collocation("J.", "Smith");
    assert!(d.contains_collocation("j", "smith"));
    assert!(d.contains_collocation("J.", "SMITH"));
    assert!(!d.contains_collocation("smith", "j"));
}

#[test]
fn orthographic_context_defaults_to_zero() {
    let d = TrainingData::new();
    assert_eq!(d.get_orthographic_context("anything"), 0);
}

#[test]
fn merge_unions_stores_and_ors_context() {
    let mut a = TrainingData::new();
    let mut b = TrainingData::new();
    a.insert_abbrev("dr");
    b.insert_abbrev("corp");
    b.insert_sentence_starter("he");
    b.insert_collocation("j", "smith");
    a.merge(&b);
    assert!(a.contains_abbrev("dr"));
    assert!(a.contains_abbrev("corp"));
    assert!(a.contains_sentence_starter("he"));
    assert!(a.contains_collocation("j", "smith"));
    assert!(!b.contains_abbrev("dr"));
}

#[test]
fn merge_with_itself_changes_nothing() {
    let mut a = TrainingData::new();
    a.insert_abbrev("dr");
    a.insert_abbrev("corp");
    a.insert_sentence_starter("he");
    a.insert_collocation("j", "smith");
    let b = TrainingData::new();
    let mut c = TrainingData::new();
    c.merge(&a);
    c.merge(&a); // merge identical content twice
    assert!(c.contains_abbrev("dr") && c.contains_abbrev("corp"));
    assert!(c.contains_sentence_starter("he"));
    assert!(c.contains_collocation("j", "smith"));
    assert!(!c.contains_abbrev("he"));
    assert!(!b.contains_abbrev("dr"));
}

#[test]
fn contents_can_be_read_out_and_reloaded() {
    let mut d = TrainingData::new();
    d.insert_abbrev("Dr.");
    d.insert_abbrev("corp");
    d.insert_sentence_starter("he");
    d.insert_collocation("j", "smith");
    d.add_orthographic_context("he", ORT_LC);
    d.add_orthographic_context("he", BEG_UC);

    let mut reloaded = TrainingData::new();
    for s in d.abbrev_list() {
        reloaded.insert_abbrev(&s.iter().collect::<String>());
    }
    for s in d.sentence_starter_list() {
        reloaded.insert_sentence_starter(&s.iter().collect::<String>());
    }
    for (x, y) in d.collocation_list() {
        reloaded.insert_collocation(
            &x.iter().collect::<String>(),
            &y.iter().collect::<String>(),
        );
    }
    for (k, v) in d.ortho_entries() {
        reloaded.add_orthographic_context(&k.iter().collect::<String>(), v);
    }
    assert!(reloaded.contains_abbrev("dr"));
    assert!(reloaded.contains_abbrev("corp"));
    assert!(reloaded.contains_sentence_starter("he"));
    assert!(reloaded.contains_collocation("j", "smith"));
    assert_eq!(reloaded.get_orthographic_context("he"), ORT_LC | BEG_UC);
    assert!(!reloaded.contains_abbrev("smith"));
}
