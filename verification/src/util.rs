//! First-pass annotation.
//!
//! After frequency counting has filled the abbreviation store, this pass
//! resolves the core ambiguity for every token: a trailing period is either
//! an abbreviation marker or an end-of-sentence marker.

use vstd::prelude::*;
use crate::chars::{hyphen_suffix, hyphen_suffix_chars, normalize};
use crate::prelude::CharacterClasses;
use crate::token::{spec_is_ellipsis, Token};
use crate::training_data::TrainingData;

verus! {

/// Whether a spelling ends with a period.
pub open spec fn spec_has_final_period(s: Seq<char>) -> bool {
    s.len() > 0 && s.last() == '.'
}

/// Whether the first pass treats a spelling as a known abbreviation: its
/// normalized form, or the part of that form after the last hyphen, is in
/// the abbreviation store.
pub open spec fn spec_first_pass_abbrev(data: TrainingData, text: Seq<char>) -> bool {
    data.abbrevs().contains(normalize(text)) || data.abbrevs().contains(
        hyphen_suffix(normalize(text)),
    )
}

/// The first-pass outcome: how an annotated token relates to the token
/// before annotation, for a given store and character classes.
pub open spec fn spec_first_pass_rel(
    before: Token,
    after: Token,
    data: TrainingData,
    classes: CharacterClasses,
) -> bool {
    &&& after.spec_text() == before.spec_text()
    &&& after.spec_start() == before.spec_start()
    &&& after.spec_is_paragraph_start() == before.spec_is_paragraph_start()
    &&& after.spec_is_newline_start() == before.spec_is_newline_start()
    &&& ((before.spec_text().len() == 1 && classes.spec_sentence_endings().contains(
        before.spec_text()[0],
    )) ==> (after.spec_is_sentence_break() && after.spec_is_abbrev()
        == before.spec_is_abbrev()))
    &&& ((!(before.spec_text().len() == 1 && classes.spec_sentence_endings().contains(
        before.spec_text()[0],
    )) && spec_has_final_period(before.spec_text()) && !spec_is_ellipsis(before.spec_text()))
        ==> (if spec_first_pass_abbrev(data, before.spec_text()) {
        after.spec_is_abbrev() && after.spec_is_sentence_break()
            == before.spec_is_sentence_break()
    } else {
        after.spec_is_sentence_break() && after.spec_is_abbrev() == before.spec_is_abbrev()
    }))
    &&& ((!(before.spec_text().len() == 1 && classes.spec_sentence_endings().contains(
        before.spec_text()[0],
    )) && !(spec_has_final_period(before.spec_text()) && !spec_is_ellipsis(
        before.spec_text(),
    ))) ==> after == before)
}

/// Performs a first pass annotation on a token.
///
/// A lone sentence-ending character becomes a sentence break. Otherwise a
/// token with a final period that is not an ellipsis becomes an abbreviation
/// when its spelling (or its hyphen suffix) is a known abbreviation, and a
/// sentence break when it is not. Every other token is left untouched.
pub fn annotate_first_pass(tok: &mut Token, data: &TrainingData, classes: &CharacterClasses)
    ensures
        final(tok).spec_text() == old(tok).spec_text(),
        final(tok).spec_start() == old(tok).spec_start(),
        final(tok).spec_is_paragraph_start() == old(tok).spec_is_paragraph_start(),
        final(tok).spec_is_newline_start() == old(tok).spec_is_newline_start(),
        (old(tok).spec_text().len() == 1 && classes.spec_sentence_endings().contains(old(tok).spec_text()[0]))
            ==> (final(tok).spec_is_sentence_break() && final(tok).spec_is_abbrev() == old(
            tok,
        ).spec_is_abbrev()),
        (!(old(tok).spec_text().len() == 1 && classes.spec_sentence_endings().contains(old(tok).spec_text()[0]))
            && spec_has_final_period(old(tok).spec_text()) && !spec_is_ellipsis(
            old(tok).spec_text(),
        )) ==> (if spec_first_pass_abbrev(*data, old(tok).spec_text()) {
            final(tok).spec_is_abbrev() && final(tok).spec_is_sentence_break() == old(
                tok,
            ).spec_is_sentence_break()
        } else {
            final(tok).spec_is_sentence_break() && final(tok).spec_is_abbrev() == old(
                tok,
            ).spec_is_abbrev()
        }),
        (!(old(tok).spec_text().len() == 1 && classes.spec_sentence_endings().contains(old(tok).spec_text()[0]))
            && !(spec_has_final_period(old(tok).spec_text()) && !spec_is_ellipsis(
            old(tok).spec_text(),
        ))) ==> *final(tok) == *old(tok),
{
    let mut is_lone_ending: bool = false;
    if tok.len() == 1 {
        let c: char = tok.tok()[0];
        if classes.is_sentence_ending(&c) {
            is_lone_ending = true;
        }
    }
    if is_lone_ending {
        tok.set_is_sentence_break(true);
    } else if tok.has_final_period() && !tok.is_ellipsis() {
        let typ: Vec<char> = tok.typ();
        if data.contains_abbrev_typ(&typ) || data.contains_abbrev_typ(&hyphen_suffix_chars(&typ)) {
            tok.set_is_abbrev(true);
        } else {
            tok.set_is_sentence_break(true);
        }
    }
}

} // verus!
