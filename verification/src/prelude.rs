//! Character-class capabilities, orthographic context codes, and trainer
//! parameters.
//!
//! The five character classes are independent capabilities with documented
//! default sets; [`Standard`] carries all the defaults, and a
//! [`CharacterClasses`] value carries a run's own sets, any subset of which
//! may differ from the defaults.

use vstd::prelude::*;

verus! {

/// Default set of characters that end a sentence.
pub open spec fn default_sentence_ending(c: char) -> bool {
    c == '.' || c == '?' || c == '!'
}

/// Default set of punctuation that may occur inside a word.
pub open spec fn default_internal_punctuation(c: char) -> bool {
    c == ',' || c == ':' || c == ';' || c == '\u{2014}'
}

/// Default set of characters that cannot occur inside a word.
pub open spec fn default_nonword_char(c: char) -> bool {
    c == '?' || c == '!' || c == ')' || c == '"' || c == ';' || c == '}' || c == ']' || c == '*'
        || c == ':' || c == '@' || c == '\'' || c == '(' || c == '{' || c == '['
}

/// Default set of punctuation marks.
pub open spec fn default_punctuation(c: char) -> bool {
    c == ';' || c == ':' || c == ',' || c == '.' || c == '!' || c == '?'
}

/// Default set of characters that cannot start a word.
pub open spec fn default_nonprefix_char(c: char) -> bool {
    c == '(' || c == '"' || c == '`' || c == '{' || c == '[' || c == ':' || c == ';' || c == '&'
        || c == '#' || c == '*' || c == '@' || c == ')' || c == '}' || c == ']' || c == '-'
        || c == ','
}

/// Defines a set of punctuation that can end a sentence.
/// The method is pinned to the default set; a run that needs another set
/// passes a [`CharacterClasses`] value to the trainer or tokenizer instead.
pub trait DefinesSentenceEndings {
    /// Checks if a character is a sentence ending.
    fn is_sentence_ending(c: &char) -> (r: bool)
        ensures
            r == default_sentence_ending(*c),
    {
        *c == '.' || *c == '?' || *c == '!'
    }
}

/// Defines a set of punctuation that can occur within a word.
/// The method is pinned to the default set; a run that needs another set
/// passes a [`CharacterClasses`] value to the trainer or tokenizer instead.
pub trait DefinesInternalPunctuation {
    /// Checks if a character is a legal punctuation character that can occur
    /// within a word.
    fn is_internal_punctuation(c: &char) -> (r: bool)
        ensures
            r == default_internal_punctuation(*c),
    {
        *c == ',' || *c == ':' || *c == ';' || *c == '\u{2014}'
    }
}

/// Defines a set of characters that can not occur inside of a word.
/// The method is pinned to the default set; a run that needs another set
/// passes a [`CharacterClasses`] value to the trainer or tokenizer instead.
pub trait DefinesNonWordCharacters {
    /// Checks if a character is one that can not occur inside of a word.
    fn is_nonword_char(c: &char) -> (r: bool)
        ensures
            r == default_nonword_char(*c),
    {
        *c == '?' || *c == '!' || *c == ')' || *c == '"' || *c == ';' || *c == '}' || *c == ']'
            || *c == '*' || *c == ':' || *c == '@' || *c == '\'' || *c == '(' || *c == '{'
            || *c == '['
    }
}

/// Defines punctuation that can occur within a sentence.
/// The method is pinned to the default set; a run that needs another set
/// passes a [`CharacterClasses`] value to the trainer or tokenizer instead.
pub trait DefinesPunctuation {
    /// Checks if a characters is a legal punctuation mark.
    fn is_punctuation(c: &char) -> (r: bool)
        ensures
            r == default_punctuation(*c),
    {
        *c == ';' || *c == ':' || *c == ',' || *c == '.' || *c == '!' || *c == '?'
    }
}

/// Defines a set of a characters that can not start a word.
/// The method is pinned to the default set; a run that needs another set
/// passes a [`CharacterClasses`] value to the trainer or tokenizer instead.
pub trait DefinesNonPrefixCharacters {
    /// Checks if a character can start a word.
    fn is_nonprefix_char(c: &char) -> (r: bool)
        ensures
            r == default_nonprefix_char(*c),
    {
        *c == '(' || *c == '"' || *c == '`' || *c == '{' || *c == '[' || *c == ':' || *c == ';'
            || *c == '&' || *c == '#' || *c == '*' || *c == '@' || *c == ')' || *c == '}'
            || *c == ']' || *c == '-' || *c == ','
    }
}

/// Standard settings for all tokenizers and trainers.
pub struct Standard;

impl DefinesInternalPunctuation for Standard {

}

impl DefinesNonPrefixCharacters for Standard {

}

impl DefinesNonWordCharacters for Standard {

}

impl DefinesPunctuation for Standard {

}

impl DefinesSentenceEndings for Standard {

}

/// Whether a vector of characters holds a character.
pub fn char_set_contains(v: &Vec<char>, c: char) -> (r: bool)
    ensures
        r == v@.contains(c),
{
    let mut i: usize = 0;
    while i < v.len()
        invariant
            i <= v@.len(),
            forall|j: int| 0 <= j < i ==> v@[j] != c,
        decreases v@.len() - i,
    {
        if v[i] == c {
            proof {
                assert(v@[i as int] == c);
            }
            return true;
        }
        i += 1;
    }
    false
}

/// A per-run character-classification capability: the five character sets,
/// each independently overridable. [`CharacterClasses::standard`] holds the
/// documented defaults; any subset can be replaced through
/// [`CharacterClasses::new`].
pub struct CharacterClasses {
    sentence_endings: Vec<char>,
    internal_punctuation: Vec<char>,
    nonword_chars: Vec<char>,
    punctuation: Vec<char>,
    nonprefix_chars: Vec<char>,
}

impl CharacterClasses {
    /// The set of characters that end a sentence.
    pub closed spec fn spec_sentence_endings(self) -> Set<char> {
        Set::new(|c: char| self.sentence_endings@.contains(c))
    }

    /// The set of punctuation that may occur inside a word.
    pub closed spec fn spec_internal_punctuation(self) -> Set<char> {
        Set::new(|c: char| self.internal_punctuation@.contains(c))
    }

    /// The set of characters that cannot occur inside a word.
    pub closed spec fn spec_nonword_chars(self) -> Set<char> {
        Set::new(|c: char| self.nonword_chars@.contains(c))
    }

    /// The set of punctuation marks.
    pub closed spec fn spec_punctuation(self) -> Set<char> {
        Set::new(|c: char| self.punctuation@.contains(c))
    }

    /// The set of characters that cannot start a word.
    pub closed spec fn spec_nonprefix_chars(self) -> Set<char> {
        Set::new(|c: char| self.nonprefix_chars@.contains(c))
    }

    /// A capability over the given five sets, in the order: sentence
    /// endings, internal punctuation, non-word characters, punctuation,
    /// non-prefix characters.
    pub fn new(
        sentence_endings: Vec<char>,
        internal_punctuation: Vec<char>,
        nonword_chars: Vec<char>,
        punctuation: Vec<char>,
        nonprefix_chars: Vec<char>,
    ) -> (r: CharacterClasses)
        ensures
            forall|c: char| r.spec_sentence_endings().contains(c) == sentence_endings@.contains(c),
            forall|c: char| r.spec_internal_punctuation().contains(c)
                == internal_punctuation@.contains(c),
            forall|c: char| r.spec_nonword_chars().contains(c) == nonword_chars@.contains(c),
            forall|c: char| r.spec_punctuation().contains(c) == punctuation@.contains(c),
            forall|c: char| r.spec_nonprefix_chars().contains(c) == nonprefix_chars@.contains(c),
    {
        CharacterClasses {
            sentence_endings,
            internal_punctuation,
            nonword_chars,
            punctuation,
            nonprefix_chars,
        }
    }

    /// The documented default sets.
    pub fn standard() -> (r: CharacterClasses)
        ensures
            forall|c: char| r.spec_sentence_endings().contains(c) == default_sentence_ending(c),
            forall|c: char| r.spec_internal_punctuation().contains(c)
                == default_internal_punctuation(c),
            forall|c: char| r.spec_nonword_chars().contains(c) == default_nonword_char(c),
            forall|c: char| r.spec_punctuation().contains(c) == default_punctuation(c),
            forall|c: char| r.spec_nonprefix_chars().contains(c) == default_nonprefix_char(c),
    {
        let sentence_endings: Vec<char> = vec!['.', '?', '!'];
        let internal_punctuation: Vec<char> = vec![',', ':', ';', '\u{2014}'];
        let nonword_chars: Vec<char> = vec![
            '?',
            '!',
            ')',
            '"',
            ';',
            '}',
            ']',
            '*',
            ':',
            '@',
            '\'',
            '(',
            '{',
            '[',
        ];
        let punctuation: Vec<char> = vec![';', ':', ',', '.', '!', '?'];
        let nonprefix_chars: Vec<char> = vec![
            '(',
            '"',
            '`',
            '{',
            '[',
            ':',
            ';',
            '&',
            '#',
            '*',
            '@',
            ')',
            '}',
            ']',
            '-',
            ',',
        ];
        proof {
            assert forall|c: char| sentence_endings@.contains(c) == default_sentence_ending(
                c,
            ) by {
                if default_sentence_ending(c) {
                    assert(sentence_endings@.contains(c)) by {
                        if c == '.' {
                            assert(sentence_endings@[0] == c);
                        } else if c == '?' {
                            assert(sentence_endings@[1] == c);
                        } else {
                            assert(sentence_endings@[2] == c);
                        }
                    }
                }
            }
            assert forall|c: char| internal_punctuation@.contains(c)
                == default_internal_punctuation(c) by {
                if default_internal_punctuation(c) {
                    assert(internal_punctuation@.contains(c)) by {
                        if c == ',' {
                            assert(internal_punctuation@[0] == c);
                        } else if c == ':' {
                            assert(internal_punctuation@[1] == c);
                        } else if c == ';' {
                            assert(internal_punctuation@[2] == c);
                        } else {
                            assert(internal_punctuation@[3] == c);
                        }
                    }
                }
            }
            assert forall|c: char| nonword_chars@.contains(c) == default_nonword_char(c) by {
                if default_nonword_char(c) {
                    assert(exists|i: int|
                        0 <= i < nonword_chars@.len() && nonword_chars@[i] == c) by {
                        if c == '?' {
                            assert(nonword_chars@[0] == c);
                        } else if c == '!' {
                            assert(nonword_chars@[1] == c);
                        } else if c == ')' {
                            assert(nonword_chars@[2] == c);
                        } else if c == '"' {
                            assert(nonword_chars@[3] == c);
                        } else if c == ';' {
                            assert(nonword_chars@[4] == c);
                        } else if c == '}' {
                            assert(nonword_chars@[5] == c);
                        } else if c == ']' {
                            assert(nonword_chars@[6] == c);
                        } else if c == '*' {
                            assert(nonword_chars@[7] == c);
                        } else if c == ':' {
                            assert(nonword_chars@[8] == c);
                        } else if c == '@' {
                            assert(nonword_chars@[9] == c);
                        } else if c == '\'' {
                            assert(nonword_chars@[10] == c);
                        } else if c == '(' {
                            assert(nonword_chars@[11] == c);
                        } else if c == '{' {
                            assert(nonword_chars@[12] == c);
                        } else {
                            assert(nonword_chars@[13] == c);
                        }
                    }
                }
            }
            assert forall|c: char| punctuation@.contains(c) == default_punctuation(c) by {
                if default_punctuation(c) {
                    assert(exists|i: int| 0 <= i < punctuation@.len() && punctuation@[i] == c) by {
                        if c == ';' {
                            assert(punctuation@[0] == c);
                        } else if c == ':' {
                            assert(punctuation@[1] == c);
                        } else if c == ',' {
                            assert(punctuation@[2] == c);
                        } else if c == '.' {
                            assert(punctuation@[3] == c);
                        } else if c == '!' {
                            assert(punctuation@[4] == c);
                        } else {
                            assert(punctuation@[5] == c);
                        }
                    }
                }
            }
            assert forall|c: char| nonprefix_chars@.contains(c) == default_nonprefix_char(c) by {
                if default_nonprefix_char(c) {
                    assert(exists|i: int|
                        0 <= i < nonprefix_chars@.len() && nonprefix_chars@[i] == c) by {
                        if c == '(' {
                            assert(nonprefix_chars@[0] == c);
                        } else if c == '"' {
                            assert(nonprefix_chars@[1] == c);
                        } else if c == '`' {
                            assert(nonprefix_chars@[2] == c);
                        } else if c == '{' {
                            assert(nonprefix_chars@[3] == c);
                        } else if c == '[' {
                            assert(nonprefix_chars@[4] == c);
                        } else if c == ':' {
                            assert(nonprefix_chars@[5] == c);
                        } else if c == ';' {
                            assert(nonprefix_chars@[6] == c);
                        } else if c == '&' {
                            assert(nonprefix_chars@[7] == c);
                        } else if c == '#' {
                            assert(nonprefix_chars@[8] == c);
                        } else if c == '*' {
                            assert(nonprefix_chars@[9] == c);
                        } else if c == '@' {
                            assert(nonprefix_chars@[10] == c);
                        } else if c == ')' {
                            assert(nonprefix_chars@[11] == c);
                        } else if c == '}' {
                            assert(nonprefix_chars@[12] == c);
                        } else if c == ']' {
                            assert(nonprefix_chars@[13] == c);
                        } else if c == '-' {
                            assert(nonprefix_chars@[14] == c);
                        } else {
                            assert(nonprefix_chars@[15] == c);
                        }
                    }
                }
            }
        }
        CharacterClasses {
            sentence_endings,
            internal_punctuation,
            nonword_chars,
            punctuation,
            nonprefix_chars,
        }
    }

    /// Checks a character against this run's sentence-ending set.
    pub fn is_sentence_ending(&self, c: &char) -> (r: bool)
        ensures
            r == self.spec_sentence_endings().contains(*c),
    {
        char_set_contains(&self.sentence_endings, *c)
    }

    /// Checks a character against this run's internal-punctuation set.
    pub fn is_internal_punctuation(&self, c: &char) -> (r: bool)
        ensures
            r == self.spec_internal_punctuation().contains(*c),
    {
        char_set_contains(&self.internal_punctuation, *c)
    }

    /// Checks a character against this run's non-word set.
    pub fn is_nonword_char(&self, c: &char) -> (r: bool)
        ensures
            r == self.spec_nonword_chars().contains(*c),
    {
        char_set_contains(&self.nonword_chars, *c)
    }

    /// Checks a character against this run's punctuation set.
    pub fn is_punctuation(&self, c: &char) -> (r: bool)
        ensures
            r == self.spec_punctuation().contains(*c),
    {
        char_set_contains(&self.punctuation, *c)
    }

    /// Checks a character against this run's non-prefix set.
    pub fn is_nonprefix_char(&self, c: &char) -> (r: bool)
        ensures
            r == self.spec_nonprefix_chars().contains(*c),
    {
        char_set_contains(&self.nonprefix_chars, *c)
    }
}

/// Accumulated orthographic evidence about one spelling: a bitwise OR of the
/// context codes observed across a corpus.
pub type OrthographicContext = u8;

/// Sentence-initial position, upper-case first letter.
pub const BEG_UC: OrthographicContext = 0b00000010;

/// Sentence-internal position, upper-case first letter.
pub const MID_UC: OrthographicContext = 0b00000100;

/// Unknown position, upper-case first letter.
pub const UNK_UC: OrthographicContext = 0b00001000;

/// Sentence-initial position, lower-case first letter.
pub const BEG_LC: OrthographicContext = 0b00010000;

/// Sentence-internal position, lower-case first letter.
pub const MID_LC: OrthographicContext = 0b00100000;

/// Unknown position, lower-case first letter.
pub const UNK_LC: OrthographicContext = 0b01000000;

/// All upper-case context bits.
pub const ORT_UC: OrthographicContext = BEG_UC | MID_UC | UNK_UC;

/// All lower-case context bits.
pub const ORT_LC: OrthographicContext = BEG_LC | MID_LC | UNK_LC;

/// Position of a token within a sentence, as far as annotation has
/// determined it.
#[derive(Clone, Copy, PartialEq, Eq, Structural)]
pub enum OrthographyPosition {
    Initial,
    Internal,
    Unknown,
}

impl OrthographyPosition {
    pub fn as_byte(&self) -> (r: u8)
        ensures
            r == self.spec_as_byte(),
    {
        match *self {
            OrthographyPosition::Initial => 0b01000000,
            OrthographyPosition::Internal => 0b00100000,
            OrthographyPosition::Unknown => 0b01100000,
        }
    }

    pub open spec fn spec_as_byte(self) -> u8 {
        match self {
            OrthographyPosition::Initial => 0b01000000,
            OrthographyPosition::Internal => 0b00100000,
            OrthographyPosition::Unknown => 0b01100000,
        }
    }
}

/// Case of the first letter of a token.
#[derive(Clone, Copy, PartialEq, Eq, Structural)]
pub enum LetterCase {
    Upper,
    Lower,
    Unknown,
}

impl LetterCase {
    pub fn as_byte(&self) -> (r: u8)
        ensures
            r == self.spec_as_byte(),
    {
        match *self {
            LetterCase::Upper => 0b00000010,
            LetterCase::Lower => 0b00000001,
            LetterCase::Unknown => 0b00000011,
        }
    }

    pub open spec fn spec_as_byte(self) -> u8 {
        match self {
            LetterCase::Upper => 0b00000010,
            LetterCase::Lower => 0b00000001,
            LetterCase::Unknown => 0b00000011,
        }
    }
}

/// The context code contributed by one occurrence: the six meaningful
/// position-and-case combinations each map to their bit; an occurrence whose
/// case is unknown contributes no evidence.
pub open spec fn spec_ortho_code(pos: OrthographyPosition, case: LetterCase) -> u8 {
    match (pos, case) {
        (OrthographyPosition::Initial, LetterCase::Upper) => BEG_UC,
        (OrthographyPosition::Internal, LetterCase::Upper) => MID_UC,
        (OrthographyPosition::Unknown, LetterCase::Upper) => UNK_UC,
        (OrthographyPosition::Initial, LetterCase::Lower) => BEG_LC,
        (OrthographyPosition::Internal, LetterCase::Lower) => MID_LC,
        (OrthographyPosition::Unknown, LetterCase::Lower) => UNK_LC,
        (_, LetterCase::Unknown) => 0,
    }
}

/// Maps a position-and-case combination to its orthographic context code.
pub fn ortho_code(pos: OrthographyPosition, case: LetterCase) -> (r: u8)
    ensures
        r == spec_ortho_code(pos, case),
{
    match (pos, case) {
        (OrthographyPosition::Initial, LetterCase::Upper) => BEG_UC,
        (OrthographyPosition::Internal, LetterCase::Upper) => MID_UC,
        (OrthographyPosition::Unknown, LetterCase::Upper) => UNK_UC,
        (OrthographyPosition::Initial, LetterCase::Lower) => BEG_LC,
        (OrthographyPosition::Internal, LetterCase::Lower) => MID_LC,
        (OrthographyPosition::Unknown, LetterCase::Lower) => UNK_LC,
        (_, LetterCase::Unknown) => 0,
    }
}

} // verus!
