//! Annotated word-level tokens.
//!
//! A token is created once per occurrence during pre-tokenization and then
//! mutated in place by the annotation passes: the first pass decides whether
//! a trailing period marks an abbreviation or a sentence break, the
//! orthographic pass reads case and position.

use vstd::prelude::*;
use crate::chars::{
    char_is_digit,
    char_is_letter,
    char_is_lower,
    char_is_upper,
    copy_chars,
    is_digit,
    is_letter,
    is_lower,
    is_upper,
    normalize,
    strip_period,
    to_lower,
};
use crate::prelude::LetterCase;

verus! {

/// An ellipsis spelling: a run of two or more periods, or a period directly
/// preceded by the ellipsis character.
pub open spec fn spec_is_ellipsis(s: Seq<char>) -> bool {
    (s.len() >= 2 && (forall|i: int| 0 <= i < s.len() ==> s[i] == '.')) || (s.len() >= 2
        && s.last() == '.' && s[s.len() - 2] == '\u{2026}')
}

/// Every character is a letter, a hyphen or an internal period, and at
/// least one character is a letter.
pub open spec fn spec_is_alpha(s: Seq<char>) -> bool {
    (forall|i: int| 0 <= i < s.len() ==> is_letter(s[i]) || s[i] == '-' || s[i] == '.')
        && (exists|i: int| 0 <= i < s.len() && is_letter(s[i]))
}

/// Every character is a digit, a separator or a sign, and at least one
/// character is a digit.
pub open spec fn spec_is_numeric(s: Seq<char>) -> bool {
    (forall|i: int| 0 <= i < s.len() ==> is_digit(s[i]) || s[i] == ',' || s[i] == '.' || s[i]
        == '-') && (exists|i: int| 0 <= i < s.len() && is_digit(s[i]))
}

/// A word-level token: the raw surface spelling, its position in the source
/// text, and annotation flags.
pub struct Token {
    text: Vec<char>,
    start: usize,
    is_paragraph_start: bool,
    is_newline_start: bool,
    is_sentence_break: bool,
    is_abbrev: bool,
}

impl Token {
    /// The raw surface spelling.
    pub closed spec fn spec_text(self) -> Seq<char> {
        self.text@
    }

    /// Character position of the spelling in the source text.
    pub closed spec fn spec_start(self) -> usize {
        self.start
    }

    pub closed spec fn spec_is_paragraph_start(self) -> bool {
        self.is_paragraph_start
    }

    pub closed spec fn spec_is_newline_start(self) -> bool {
        self.is_newline_start
    }

    pub closed spec fn spec_is_sentence_break(self) -> bool {
        self.is_sentence_break
    }

    pub closed spec fn spec_is_abbrev(self) -> bool {
        self.is_abbrev
    }

    /// A new, unannotated token over a surface spelling.
    pub fn new(text: Vec<char>, start: usize, is_paragraph_start: bool, is_newline_start: bool) -> (
        t: Token)
        ensures
            t.spec_text() == text@,
            t.spec_start() == start,
            t.spec_is_paragraph_start() == is_paragraph_start,
            t.spec_is_newline_start() == is_newline_start,
            !t.spec_is_sentence_break(),
            !t.spec_is_abbrev(),
    {
        Token {
            text,
            start,
            is_paragraph_start,
            is_newline_start,
            is_sentence_break: false,
            is_abbrev: false,
        }
    }

    /// Character position of the spelling in the source text.
    pub fn start(&self) -> (r: usize)
        ensures
            r == self.spec_start(),
    {
        self.start
    }

    /// The raw surface spelling.
    pub fn tok(&self) -> (r: &Vec<char>)
        ensures
            r@ == self.spec_text(),
    {
        &self.text
    }

    /// The number of characters in the surface spelling.
    pub fn len(&self) -> (r: usize)
        ensures
            r == self.spec_text().len(),
    {
        self.text.len()
    }

    /// The surface spelling with a single trailing period stripped.
    pub fn tok_without_period(&self) -> (r: Vec<char>)
        ensures
            r@ == strip_period(self.spec_text()),
    {
        let mut r: Vec<char> = copy_chars(&self.text);
        if r.len() > 0 && r[r.len() - 1] == '.' {
            r.pop();
        }
        r
    }

    /// The normalized spelling used for every lookup: trailing period
    /// stripped, then lower-cased.
    pub fn typ(&self) -> (r: Vec<char>)
        ensures
            r@ == normalize(self.spec_text()),
    {
        let stripped: Vec<char> = self.tok_without_period();
        to_lower(&stripped)
    }

    /// Whether the surface spelling ends with a period.
    pub fn has_final_period(&self) -> (r: bool)
        ensures
            r == (self.spec_text().len() > 0 && self.spec_text().last() == '.'),
    {
        self.text.len() > 0 && self.text[self.text.len() - 1] == '.'
    }

    /// Whether the token is an ellipsis: a run of two or more periods, or a
    /// period directly preceded by the ellipsis character.
    pub fn is_ellipsis(&self) -> (r: bool)
        ensures
            r == spec_is_ellipsis(self.spec_text()),
    {
        if self.text.len() < 2 {
            return false;
        }
        if self.text[self.text.len() - 1] == '.' && self.text[self.text.len() - 2] == '\u{2026}' {
            return true;
        }
        let mut i: usize = 0;
        while i < self.text.len()
            invariant
                i <= self.text@.len(),
                self.text@.len() >= 2,
                !(self.text@.last() == '.' && self.text@[self.text@.len() - 2] == '\u{2026}'),
                forall|j: int| 0 <= j < i ==> self.text@[j] == '.',
            decreases self.text@.len() - i,
        {
            if self.text[i] != '.' {
                return false;
            }
            i += 1;
        }
        true
    }

    /// Whether the spelling is alphabetic with at least one letter.
    pub fn is_alpha(&self) -> (r: bool)
        ensures
            r == spec_is_alpha(self.spec_text()),
    {
        let mut seen_letter: bool = false;
        let mut i: usize = 0;
        while i < self.text.len()
            invariant
                i <= self.text@.len(),
                forall|j: int| 0 <= j < i ==> is_letter(self.text@[j]) || self.text@[j] == '-'
                    || self.text@[j] == '.',
                seen_letter == (exists|j: int| 0 <= j < i && is_letter(self.text@[j])),
            decreases self.text@.len() - i,
        {
            let c: char = self.text[i];
            if char_is_letter(c) {
                seen_letter = true;
            } else if !(c == '-' || c == '.') {
                return false;
            }
            i += 1;
        }
        seen_letter
    }

    /// Whether the spelling is numeric with at least one digit.
    pub fn is_numeric(&self) -> (r: bool)
        ensures
            r == spec_is_numeric(self.spec_text()),
    {
        let mut seen_digit: bool = false;
        let mut i: usize = 0;
        while i < self.text.len()
            invariant
                i <= self.text@.len(),
                forall|j: int| 0 <= j < i ==> is_digit(self.text@[j]) || self.text@[j] == ','
                    || self.text@[j] == '.' || self.text@[j] == '-',
                seen_digit == (exists|j: int| 0 <= j < i && is_digit(self.text@[j])),
            decreases self.text@.len() - i,
        {
            let c: char = self.text[i];
            if char_is_digit(c) {
                seen_digit = true;
            } else if !(c == ',' || c == '.' || c == '-') {
                return false;
            }
            i += 1;
        }
        seen_digit
    }

    /// Whether the first character is an upper-case letter.
    pub fn first_upper(&self) -> (r: bool)
        ensures
            r == (self.spec_text().len() > 0 && is_upper(self.spec_text()[0])),
    {
        self.text.len() > 0 && char_is_upper(self.text[0])
    }

    /// Whether the first character is a lower-case letter.
    pub fn first_lower(&self) -> (r: bool)
        ensures
            r == (self.spec_text().len() > 0 && is_lower(self.spec_text()[0])),
    {
        self.text.len() > 0 && char_is_lower(self.text[0])
    }

    /// The case of the first letter.
    pub fn letter_case(&self) -> (r: LetterCase)
        ensures
            r == spec_letter_case(self.spec_text()),
    {
        if self.first_upper() {
            LetterCase::Upper
        } else if self.first_lower() {
            LetterCase::Lower
        } else {
            LetterCase::Unknown
        }
    }

    pub fn is_paragraph_start(&self) -> (r: bool)
        ensures
            r == self.spec_is_paragraph_start(),
    {
        self.is_paragraph_start
    }

    pub fn is_newline_start(&self) -> (r: bool)
        ensures
            r == self.spec_is_newline_start(),
    {
        self.is_newline_start
    }

    pub fn is_sentence_break(&self) -> (r: bool)
        ensures
            r == self.spec_is_sentence_break(),
    {
        self.is_sentence_break
    }

    pub fn is_abbrev(&self) -> (r: bool)
        ensures
            r == self.spec_is_abbrev(),
    {
        self.is_abbrev
    }

    /// Marks or unmarks the token as a sentence break; everything else is
    /// unchanged.
    pub fn set_is_sentence_break(&mut self, v: bool)
        ensures
            final(self).spec_is_sentence_break() == v,
            final(self).spec_is_abbrev() == old(self).spec_is_abbrev(),
            final(self).spec_text() == old(self).spec_text(),
            final(self).spec_start() == old(self).spec_start(),
            final(self).spec_is_paragraph_start() == old(self).spec_is_paragraph_start(),
            final(self).spec_is_newline_start() == old(self).spec_is_newline_start(),
    {
        self.is_sentence_break = v;
    }

    /// Marks or unmarks the token as an abbreviation; everything else is
    /// unchanged.
    pub fn set_is_abbrev(&mut self, v: bool)
        ensures
            final(self).spec_is_abbrev() == v,
            final(self).spec_is_sentence_break() == old(self).spec_is_sentence_break(),
            final(self).spec_text() == old(self).spec_text(),
            final(self).spec_start() == old(self).spec_start(),
            final(self).spec_is_paragraph_start() == old(self).spec_is_paragraph_start(),
            final(self).spec_is_newline_start() == old(self).spec_is_newline_start(),
    {
        self.is_abbrev = v;
    }
}

/// A token lies inside the text: its spelling is a nonempty whitespace-free
/// run of the text at its recorded position.
pub open spec fn spec_token_in(text: Seq<char>, t: Token) -> bool {
    &&& t.spec_text().len() > 0
    &&& t.spec_start() + t.spec_text().len() <= text.len()
    &&& t.spec_text() == text.subrange(
        t.spec_start() as int,
        t.spec_start() + t.spec_text().len(),
    )
    &&& forall|p: int| 0 <= p < t.spec_text().len() ==> !crate::chars::is_space(t.spec_text()[p])
}

/// A maximal word token: flanked by whitespace or a text boundary on both
/// sides.
pub open spec fn spec_token_maximal(text: Seq<char>, t: Token) -> bool {
    &&& (t.spec_start() == 0 || crate::chars::is_space(text[t.spec_start() - 1]))
    &&& (t.spec_start() + t.spec_text().len() == text.len() || crate::chars::is_space(
        text[t.spec_start() + t.spec_text().len()],
    ))
}

/// The word-level tokenization of a text: every token is a nonempty
/// whitespace-free maximal run of the text, tokens come in text order
/// without overlap, and every non-whitespace character lies in a token.
/// These clauses pin the token spellings and positions uniquely.
pub open spec fn spec_word_tokens(text: Seq<char>, toks: Seq<Token>) -> bool {
    &&& forall|i: int| 0 <= i < toks.len() ==> spec_token_in(text, #[trigger] toks[i])
    &&& forall|i: int| 0 <= i < toks.len() ==> spec_token_maximal(text, #[trigger] toks[i])
    &&& forall|i: int| 0 <= i < toks.len() - 1 ==> #[trigger] toks[i].spec_start()
        + toks[i].spec_text().len() <= toks[i + 1].spec_start()
    &&& forall|p: int| 0 <= p < text.len() && !crate::chars::is_space(text[p]) ==> exists|i: int|
        0 <= i < toks.len() && #[trigger] toks[i].spec_start() <= p < toks[i].spec_start()
            + toks[i].spec_text().len()
}

/// Splits a text into word-level tokens at whitespace.
///
/// Every token is a nonempty whitespace-free maximal run of the text, tokens
/// come in text order without overlap, and every non-whitespace character of
/// the text lies in exactly one of them. A token preceded by a newline is
/// marked newline-started; by a blank line, paragraph-started.
pub fn word_tokenize(text: &Vec<char>) -> (toks: Vec<Token>)
    ensures
        spec_word_tokens(text@, toks@),
        forall|i: int| 0 <= i < toks@.len() ==> spec_token_in(text@, #[trigger] toks@[i]),
        forall|i: int| 0 <= i < toks@.len() - 1 ==> #[trigger] toks@[i].spec_start()
            + toks@[i].spec_text().len() <= toks@[i + 1].spec_start(),
        forall|p: int| 0 <= p < text@.len() && !crate::chars::is_space(text@[p]) ==> exists|i: int|
            0 <= i < toks@.len() && #[trigger] toks@[i].spec_start() <= p < toks@[i].spec_start()
                + toks@[i].spec_text().len(),
        forall|i: int| 0 <= i < toks@.len() ==> !(#[trigger] toks@[i]).spec_is_sentence_break()
            && !toks@[i].spec_is_abbrev(),
{
    let n: usize = text.len();
    let mut toks: Vec<Token> = Vec::new();
    let mut i: usize = 0;
    let mut nl_run: u32 = 1;
    while i < n
        invariant
            i <= n,
            n == text@.len(),
            forall|a: int| 0 <= a < toks@.len() ==> spec_token_in(text@, #[trigger] toks@[a]),
            forall|a: int| 0 <= a < toks@.len() ==> (#[trigger] toks@[a]).spec_start()
                + toks@[a].spec_text().len() <= i,
            forall|a: int| 0 <= a < toks@.len() ==> spec_token_maximal(text@, #[trigger] toks@[a]),
            i == 0 || i >= n || crate::chars::is_space(text@[i - 1]) || crate::chars::is_space(
                text@[i as int],
            ),
            forall|a: int| 0 <= a < toks@.len() - 1 ==> #[trigger] toks@[a].spec_start()
                + toks@[a].spec_text().len() <= toks@[a + 1].spec_start(),
            forall|p: int| 0 <= p < i && !crate::chars::is_space(text@[p]) ==> exists|a: int|
                0 <= a < toks@.len() && #[trigger] toks@[a].spec_start() <= p < toks@[
                a].spec_start() + toks@[a].spec_text().len(),
            forall|a: int| 0 <= a < toks@.len() ==> !(#[trigger] toks@[
                a]).spec_is_sentence_break() && !toks@[a].spec_is_abbrev(),
        decreases n - i,
    {
        let c: char = text[i];
        if crate::chars::char_is_space(c) {
            if c == '\n' && nl_run < 1000 {
                nl_run = nl_run + 1;
            }
            i += 1;
        } else {
            let start: usize = i;
            let mut j: usize = i;
            let mut w: Vec<char> = Vec::new();
            while j < n && !crate::chars::char_is_space(text[j])
                invariant
                    n == text@.len(),
                    start <= j <= n,
                    start == i,
                    i < n,
                    !crate::chars::is_space(text@[start as int]),
                    w@ == text@.subrange(start as int, j as int),
                    forall|p: int| start <= p < j ==> !crate::chars::is_space(text@[p]),
                decreases n - j,
            {
                w.push(text[j]);
                proof {
                    assert(w@ =~= text@.subrange(start as int, j + 1));
                }
                j += 1;
            }
            let t: Token = Token::new(w, start, nl_run >= 2, nl_run >= 1);
            proof {
                assert(j > start);
                assert(spec_token_in(text@, t));
                assert(spec_token_maximal(text@, t));
            }
            let ghost prev: Seq<Token> = toks@;
            toks.push(t);
            proof {
                assert forall|p: int| 0 <= p < j && !crate::chars::is_space(text@[p]) implies
                    exists|a: int|
                        0 <= a < toks@.len() && #[trigger] toks@[a].spec_start() <= p < toks@[
                        a].spec_start() + toks@[a].spec_text().len() by {
                    if p < start {
                        let a = choose|a: int|
                            0 <= a < prev.len() && #[trigger] prev[a].spec_start() <= p < prev[
                            a].spec_start() + prev[a].spec_text().len();
                        assert(toks@[a] == prev[a]);
                        assert(toks@[a].spec_start() <= p < toks@[a].spec_start()
                            + toks@[a].spec_text().len());
                    } else {
                        let a = prev.len() as int;
                        assert(toks@[a].spec_start() <= p < toks@[a].spec_start()
                            + toks@[a].spec_text().len());
                    }
                }
            }
            nl_run = 0;
            i = j;
        }
    }
    toks
}

/// The case of the first letter of a spelling.
pub open spec fn spec_letter_case(s: Seq<char>) -> LetterCase {
    if s.len() > 0 && is_upper(s[0]) {
        LetterCase::Upper
    } else if s.len() > 0 && is_lower(s[0]) {
        LetterCase::Lower
    } else {
        LetterCase::Unknown
    }
}

} // verus!
