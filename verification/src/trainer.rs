//! The statistical trainer.
//!
//! A training run tokenizes the corpus, counts spelling frequencies, learns
//! abbreviations with the Dunning likelihood-ratio test, re-annotates the
//! tokens, accumulates orthographic context, and learns collocations and
//! sentence starters with the four-cell likelihood test. Everything learned
//! is added to the given knowledge store; training never removes knowledge.

use vstd::prelude::*;
use crate::chars::{copy_chars, is_space, is_upper, lower_char, lower_seq, normalize, str_to_chars, to_lower};
use crate::math::{col_log_likelihood, dunning_log_likelihood, spec_dunning_log_likelihood};
use crate::prelude::{ortho_code, CharacterClasses, LetterCase, OrthographyPosition};
use crate::token::{
    spec_is_alpha,
    spec_is_ellipsis,
    spec_letter_case,
    spec_token_in,
    spec_token_maximal,
    spec_word_tokens,
    word_tokenize,
    Token,
};
use crate::tokenizer::annotate_tokens;
use crate::training_data::{chars_eq, TrainingData};
use crate::util::{spec_first_pass_rel, spec_has_final_period};
use crate::prelude::spec_ortho_code;

verus! {

/// Configuration of a trainer; validated once at construction and then
/// immutable. Score bounds are in micro-units.
#[derive(Debug, Clone, Copy)]
pub struct TrainerParameters {
    /// Lower bound score for a spelling to be accepted as an abbreviation.
    pub abbrev_lower_bound: i64,
    /// Upper bound score for a spelling to be accepted as an abbreviation.
    pub abbrev_upper_bound: i64,
    /// Disables the length penalty on abbreviation candidates.
    pub ignore_abbrev_penalty: bool,
    /// Lower bound score for a pair to be accepted as a collocation.
    pub collocation_lower_bound: i64,
    /// Lower bound score for a spelling to be accepted as a sentence
    /// starter.
    pub sentence_starter_lower_bound: i64,
    /// Consider every pair whose first token ends with a period.
    pub include_all_collocations: bool,
    /// Consider every pair whose first token is an abbreviation.
    pub include_abbrev_collocations: bool,
    /// A pair must appear more often than this to be a collocation.
    pub collocation_frequency_lower_bound: u64,
}

/// A rejected trainer configuration.
#[derive(Debug, PartialEq, Eq, Structural)]
pub enum ParameterError {
    /// The abbreviation score window is empty.
    InvalidAbbrevBounds,
}

impl TrainerParameters {
    /// The standard configuration.
    pub fn standard() -> (p: TrainerParameters)
        ensures
            p.abbrev_lower_bound == 300_000,
            p.abbrev_upper_bound == 5_000_000,
            !p.ignore_abbrev_penalty,
            p.collocation_lower_bound == 7_880_000,
            p.sentence_starter_lower_bound == 30_000_000,
            !p.include_all_collocations,
            !p.include_abbrev_collocations,
            p.collocation_frequency_lower_bound == 1,
    {
        TrainerParameters {
            abbrev_lower_bound: 300_000,
            abbrev_upper_bound: 5_000_000,
            ignore_abbrev_penalty: false,
            collocation_lower_bound: 7_880_000,
            sentence_starter_lower_bound: 30_000_000,
            include_all_collocations: false,
            include_abbrev_collocations: false,
            collocation_frequency_lower_bound: 1,
        }
    }

    /// A custom configuration; rejected when the abbreviation window is
    /// empty (lower bound above upper bound).
    pub fn checked(
        abbrev_lower_bound: i64,
        abbrev_upper_bound: i64,
        ignore_abbrev_penalty: bool,
        collocation_lower_bound: i64,
        sentence_starter_lower_bound: i64,
        include_all_collocations: bool,
        include_abbrev_collocations: bool,
        collocation_frequency_lower_bound: u64,
    ) -> (r: Result<TrainerParameters, ParameterError>)
        ensures
            abbrev_lower_bound <= abbrev_upper_bound <==> r is Ok,
            r is Ok ==> (r->Ok_0.abbrev_lower_bound == abbrev_lower_bound
                && r->Ok_0.abbrev_upper_bound == abbrev_upper_bound
                && r->Ok_0.ignore_abbrev_penalty == ignore_abbrev_penalty
                && r->Ok_0.collocation_lower_bound == collocation_lower_bound
                && r->Ok_0.sentence_starter_lower_bound == sentence_starter_lower_bound
                && r->Ok_0.include_all_collocations == include_all_collocations
                && r->Ok_0.include_abbrev_collocations == include_abbrev_collocations
                && r->Ok_0.collocation_frequency_lower_bound
                == collocation_frequency_lower_bound),
            r is Err ==> r->Err_0 == ParameterError::InvalidAbbrevBounds,
    {
        if abbrev_lower_bound > abbrev_upper_bound {
            Result::Err(ParameterError::InvalidAbbrevBounds)
        } else {
            Result::Ok(
                TrainerParameters {
                    abbrev_lower_bound,
                    abbrev_upper_bound,
                    ignore_abbrev_penalty,
                    collocation_lower_bound,
                    sentence_starter_lower_bound,
                    include_all_collocations,
                    include_abbrev_collocations,
                    collocation_frequency_lower_bound,
                },
            )
        }
    }
}

/// The length penalty on an abbreviation candidate, in micro-units: one
/// whole unit shrunk by the factor `e^-1` once per non-period character.
pub open spec fn spec_penalty_micro(len: nat) -> int
    decreases len,
{
    if len == 0 {
        1_000_000
    } else {
        (spec_penalty_micro((len - 1) as nat) * 367_879) / 1_000_000
    }
}

/// Computes `spec_penalty_micro` exactly.
pub fn penalty_micro(len: usize) -> (r: i64)
    ensures
        r == spec_penalty_micro(len as nat),
        0 <= r <= 1_000_000,
{
    let mut r: i64 = 1_000_000;
    let mut i: usize = 0;
    while i < len
        invariant
            i <= len,
            r == spec_penalty_micro(i as nat),
            0 <= r <= 1_000_000,
        decreases len - i,
    {
        r = (r * 367_879) / 1_000_000;
        i += 1;
    }
    r
}

/// A spelling was seen as a whole word ending with a period: some
/// whitespace-free run of the text, flanked by whitespace or a text
/// boundary, ends with a period and normalizes to the spelling.
pub open spec fn spec_observed_with_period(text: Seq<char>, s: Seq<char>) -> bool {
    exists|a: int, b: int|
        0 <= a < b <= text.len() && (a == 0 || is_space(text[a - 1])) && (b == text.len()
            || is_space(text[b])) && (forall|p: int| a <= p < b ==> !is_space(text[p])) && (
        #[trigger] text.subrange(a, b)).last() == '.' && normalize(text.subrange(a, b)) == s
}

/// Number of tokens whose lower-cased spelling is `k`.
pub open spec fn spec_type_count(toks: Seq<Token>, k: Seq<char>) -> int
    decreases toks.len(),
{
    if toks.len() == 0 {
        0
    } else {
        spec_type_count(toks.drop_last(), k) + if lower_seq(toks.last().spec_text()) == k {
            1int
        } else {
            0int
        }
    }
}

/// Number of tokens carrying a final period.
pub open spec fn spec_period_count(toks: Seq<Token>) -> int
    decreases toks.len(),
{
    if toks.len() == 0 {
        0
    } else {
        spec_period_count(toks.drop_last()) + if spec_has_final_period(toks.last().spec_text()) {
            1int
        } else {
            0int
        }
    }
}

/// Number of non-period characters of a spelling.
pub open spec fn spec_nonperiod_len(s: Seq<char>) -> int
    decreases s.len(),
{
    if s.len() == 0 {
        0
    } else {
        spec_nonperiod_len(s.drop_last()) + if s.last() == '.' {
            0int
        } else {
            1int
        }
    }
}

/// An abbreviation candidate: carries a final period, is not an ellipsis,
/// has at least two characters, is alphabetic, and normalizes to a nonempty
/// spelling.
pub open spec fn spec_abbrev_candidate(t: Token) -> bool {
    &&& spec_has_final_period(t.spec_text())
    &&& !spec_is_ellipsis(t.spec_text())
    &&& t.spec_text().len() >= 2
    &&& spec_is_alpha(t.spec_text())
    &&& normalize(t.spec_text()).len() > 0
}

/// The candidate's penalty-adjusted Dunning score over the corpus counts:
/// occurrences with and without the period against all period-bearing
/// tokens, less the exponential length penalty unless disabled.
pub open spec fn spec_abbrev_score(params: TrainerParameters, toks: Seq<Token>, t: Token) -> int {
    let cw = spec_type_count(toks, lower_seq(t.spec_text()));
    let cwo = spec_type_count(toks, normalize(t.spec_text()));
    let score = spec_dunning_log_likelihood(
        cw + cwo,
        spec_period_count(toks),
        cw,
        toks.len() as int,
    );
    score - if params.ignore_abbrev_penalty {
        0int
    } else {
        spec_penalty_micro(spec_nonperiod_len(normalize(t.spec_text())) as nat)
    }
}

/// Whether training learns this token's spelling as an abbreviation: it is
/// a candidate and its score lies in the configured window, both bounds
/// inclusive.
pub open spec fn spec_abbrev_accepted(params: TrainerParameters, toks: Seq<Token>, t: Token) -> bool {
    spec_abbrev_candidate(t) && params.abbrev_lower_bound <= spec_abbrev_score(params, toks, t)
        <= params.abbrev_upper_bound
}

/// The spellings learned as abbreviations from the first `m` tokens.
pub open spec fn spec_learned_abbrevs_upto(
    params: TrainerParameters,
    toks: Seq<Token>,
    m: int,
) -> Set<Seq<char>> {
    Set::new(
        |s: Seq<char>|
            exists|j: int|
                0 <= j < m && #[trigger] spec_abbrev_accepted(params, toks, toks[j]) && normalize(
                    toks[j].spec_text(),
                ) == s,
    )
}

/// The spellings a training run learns as abbreviations from a token
/// sequence.
pub open spec fn spec_learned_abbrevs(params: TrainerParameters, toks: Seq<Token>) -> Set<
    Seq<char>,
> {
    spec_learned_abbrevs_upto(params, toks, toks.len() as int)
}

/// The sentence position the orthographic pass assigns to the token at `i`
/// of an annotated sequence: initial after a paragraph or line start or a
/// sentence break, unknown after an abbreviation, internal otherwise.
pub open spec fn spec_ortho_position(toks: Seq<Token>, i: int) -> OrthographyPosition {
    if toks[i].spec_is_paragraph_start() || toks[i].spec_is_newline_start() {
        OrthographyPosition::Initial
    } else if i > 0 && toks[i - 1].spec_is_sentence_break() {
        OrthographyPosition::Initial
    } else if i > 0 && toks[i - 1].spec_is_abbrev() {
        OrthographyPosition::Unknown
    } else {
        OrthographyPosition::Internal
    }
}

/// The context code one occurrence contributes.
pub open spec fn spec_ortho_code_at(toks: Seq<Token>, i: int) -> u8 {
    spec_ortho_code(spec_ortho_position(toks, i), spec_letter_case(toks[i].spec_text()))
}

/// The OR of the context codes the first `m` tokens contribute for a
/// normalized spelling.
pub open spec fn spec_ortho_accum(toks: Seq<Token>, m: int, k: Seq<char>) -> u8
    decreases m,
{
    if m <= 0 {
        0
    } else {
        spec_ortho_accum(toks, m - 1, k) | (if normalize(toks[m - 1].spec_text()) == k {
            spec_ortho_code_at(toks, m - 1)
        } else {
            0
        })
    }
}

proof fn lemma_type_count_push(toks: Seq<Token>, t: Token, k: Seq<char>)
    ensures
        spec_type_count(toks.push(t), k) == spec_type_count(toks, k) + if lower_seq(t.spec_text())
            == k {
            1int
        } else {
            0int
        },
{
    assert(toks.push(t).drop_last() =~= toks);
}

proof fn lemma_period_count_push(toks: Seq<Token>, t: Token)
    ensures
        spec_period_count(toks.push(t)) == spec_period_count(toks) + if spec_has_final_period(
            t.spec_text(),
        ) {
            1int
        } else {
            0int
        },
{
    assert(toks.push(t).drop_last() =~= toks);
}

proof fn lemma_nonperiod_push(s: Seq<char>, c: char)
    ensures
        spec_nonperiod_len(s.push(c)) == spec_nonperiod_len(s) + if c == '.' {
            0int
        } else {
            1int
        },
{
    assert(s.push(c).drop_last() =~= s);
}

proof fn lemma_type_count_le_len(toks: Seq<Token>, k: Seq<char>)
    ensures
        0 <= spec_type_count(toks, k) <= toks.len(),
    decreases toks.len(),
{
    if toks.len() > 0 {
        lemma_type_count_le_len(toks.drop_last(), k);
    }
}

proof fn lemma_period_count_le_len(toks: Seq<Token>)
    ensures
        0 <= spec_period_count(toks) <= toks.len(),
    decreases toks.len(),
{
    if toks.len() > 0 {
        lemma_period_count_le_len(toks.drop_last());
    }
}

proof fn lemma_lower_char_period(c: char)
    ensures
        (lower_char(c) == '.') == (c == '.'),
{
    if is_upper(c) {
        assert(c as u8 >= 65 && c as u8 <= 90);
        assert(lower_char(c) != '.');
    }
}

/// A type key ending with a period only counts period-bearing tokens.
proof fn lemma_type_count_period_le(toks: Seq<Token>, k: Seq<char>)
    requires
        k.len() > 0,
        k.last() == '.',
    ensures
        spec_type_count(toks, k) <= spec_period_count(toks),
    decreases toks.len(),
{
    if toks.len() > 0 {
        lemma_type_count_period_le(toks.drop_last(), k);
        if lower_seq(toks.last().spec_text()) == k {
            let s = toks.last().spec_text();
            assert(lower_seq(s).len() == s.len());
            assert(lower_seq(s).last() == lower_char(s.last()));
            lemma_lower_char_period(s.last());
            assert(spec_has_final_period(s));
        }
    }
}

/// Counts of two distinct type keys never exceed the token count together.
proof fn lemma_type_count_sum_distinct(toks: Seq<Token>, k1: Seq<char>, k2: Seq<char>)
    requires
        k1 != k2,
    ensures
        spec_type_count(toks, k1) + spec_type_count(toks, k2) <= toks.len(),
    decreases toks.len(),
{
    if toks.len() > 0 {
        lemma_type_count_sum_distinct(toks.drop_last(), k1, k2);
    }
}

/// Counts the tokens whose lower-cased spelling is `k`.
fn count_type(toks: &Vec<Token>, k: &Vec<char>) -> (r: u64)
    requires
        toks@.len() <= 0xffff_ffff_ffff_ffff,
    ensures
        r as int == spec_type_count(toks@, k@),
{
    let mut r: u64 = 0;
    let mut i: usize = 0;
    while i < toks.len()
        invariant
            toks@.len() <= 0xffff_ffff_ffff_ffff,
            i <= toks@.len(),
            r as int == spec_type_count(toks@.subrange(0, i as int), k@),
            r <= i,
        decreases toks@.len() - i,
    {
        let lw: Vec<char> = to_lower(toks[i].tok());
        proof {
            assert(toks@.subrange(0, i + 1) =~= toks@.subrange(0, i as int).push(toks@[i as int]));
            lemma_type_count_push(toks@.subrange(0, i as int), toks@[i as int], k@);
        }
        if chars_eq(&lw, k) {
            r = r + 1;
        }
        i += 1;
    }
    proof {
        assert(toks@.subrange(0, toks@.len() as int) =~= toks@);
    }
    r
}

/// Counts the tokens carrying a final period.
fn count_periods(toks: &Vec<Token>) -> (r: u64)
    requires
        toks@.len() <= 0xffff_ffff_ffff_ffff,
    ensures
        r as int == spec_period_count(toks@),
{
    let mut r: u64 = 0;
    let mut i: usize = 0;
    while i < toks.len()
        invariant
            toks@.len() <= 0xffff_ffff_ffff_ffff,
            i <= toks@.len(),
            r as int == spec_period_count(toks@.subrange(0, i as int)),
            r <= i,
        decreases toks@.len() - i,
    {
        proof {
            assert(toks@.subrange(0, i + 1) =~= toks@.subrange(0, i as int).push(toks@[i as int]));
            lemma_period_count_push(toks@.subrange(0, i as int), toks@[i as int]);
        }
        if toks[i].has_final_period() {
            r = r + 1;
        }
        i += 1;
    }
    proof {
        assert(toks@.subrange(0, toks@.len() as int) =~= toks@);
    }
    r
}

/// Counts the non-period characters of a spelling.
fn count_nonperiod(v: &Vec<char>) -> (r: usize)
    ensures
        r as int == spec_nonperiod_len(v@),
{
    let mut r: usize = 0;
    let mut i: usize = 0;
    while i < v.len()
        invariant
            i <= v@.len(),
            r as int == spec_nonperiod_len(v@.subrange(0, i as int)),
            r <= i,
        decreases v@.len() - i,
    {
        proof {
            assert(v@.subrange(0, i + 1) =~= v@.subrange(0, i as int).push(v@[i as int]));
            lemma_nonperiod_push(v@.subrange(0, i as int), v@[i as int]);
        }
        if v[i] != '.' {
            r = r + 1;
        }
        i += 1;
    }
    proof {
        assert(v@.subrange(0, v@.len() as int) =~= v@);
    }
    r
}

struct FreqMap {
    entries: Vec<(Vec<char>, u64)>,
}

impl FreqMap {
    fn new() -> FreqMap {
        FreqMap { entries: Vec::new() }
    }

    fn get(&self, k: &Vec<char>) -> u64 {
        let mut i: usize = 0;
        while i < self.entries.len()
            decreases self.entries@.len() - i,
        {
            if chars_eq(&self.entries[i].0, k) {
                return self.entries[i].1;
            }
            i += 1;
        }
        0
    }

    fn bump(&mut self, k: Vec<char>) {
        let mut i: usize = 0;
        while i < self.entries.len()
            decreases self.entries@.len() - i,
        {
            if chars_eq(&self.entries[i].0, &k) {
                let v: u64 = self.entries[i].1;
                let key: Vec<char> = copy_chars(&self.entries[i].0);
                self.entries[i] = (
                    key,
                    if v < 0xffff_ffff_ffff_ffff {
                        v + 1
                    } else {
                        v
                    },
                );
                return ;
            }
            i += 1;
        }
        self.entries.push((k, 1));
    }
}

struct PairFreqMap {
    entries: Vec<((Vec<char>, Vec<char>), u64)>,
}

impl PairFreqMap {
    fn new() -> PairFreqMap {
        PairFreqMap { entries: Vec::new() }
    }

    fn get(&self, a: &Vec<char>, b: &Vec<char>) -> u64 {
        let mut i: usize = 0;
        while i < self.entries.len()
            decreases self.entries@.len() - i,
        {
            if chars_eq(&self.entries[i].0.0, a) && chars_eq(&self.entries[i].0.1, b) {
                return self.entries[i].1;
            }
            i += 1;
        }
        0
    }

    fn bump(&mut self, a: Vec<char>, b: Vec<char>) {
        let mut i: usize = 0;
        while i < self.entries.len()
            decreases self.entries@.len() - i,
        {
            if chars_eq(&self.entries[i].0.0, &a) && chars_eq(&self.entries[i].0.1, &b) {
                let v: u64 = self.entries[i].1;
                let k0: Vec<char> = copy_chars(&self.entries[i].0.0);
                let k1: Vec<char> = copy_chars(&self.entries[i].0.1);
                self.entries[i] = (
                    (k0, k1),
                    if v < 0xffff_ffff_ffff_ffff {
                        v + 1
                    } else {
                        v
                    },
                );
                return ;
            }
            i += 1;
        }
        self.entries.push(((a, b), 1));
    }
}

fn u64_min(a: u64, b: u64) -> (r: u64)
    ensures
        r <= a && r <= b && (r == a || r == b),
{
    if a < b {
        a
    } else {
        b
    }
}

/// Orchestrates the statistical passes over a corpus and writes what they
/// learn into a knowledge store.
pub struct Trainer {
    params: TrainerParameters,
    classes: CharacterClasses,
}

impl Trainer {
    /// The configuration this trainer runs with.
    pub closed spec fn spec_params(self) -> TrainerParameters {
        self.params
    }

    /// The character classes this trainer annotates with.
    pub closed spec fn spec_classes(self) -> CharacterClasses {
        self.classes
    }

    /// A trainer with the standard parameters.
    pub fn new() -> (t: Trainer)
        ensures
            t.spec_params().abbrev_lower_bound == 300_000,
            t.spec_params().abbrev_upper_bound == 5_000_000,
            !t.spec_params().ignore_abbrev_penalty,
            t.spec_params().collocation_lower_bound == 7_880_000,
            t.spec_params().sentence_starter_lower_bound == 30_000_000,
            !t.spec_params().include_all_collocations,
            !t.spec_params().include_abbrev_collocations,
            t.spec_params().collocation_frequency_lower_bound == 1,
            forall|c: char| t.spec_classes().spec_sentence_endings().contains(c)
                == crate::prelude::default_sentence_ending(c),
    {
        Trainer { params: TrainerParameters::standard(), classes: CharacterClasses::standard() }
    }

    /// A trainer with custom parameters and the standard character classes.
    pub fn with_parameters(params: TrainerParameters) -> (t: Trainer)
        ensures
            t.spec_params() == params,
            forall|c: char| t.spec_classes().spec_sentence_endings().contains(c)
                == crate::prelude::default_sentence_ending(c),
    {
        Trainer { params, classes: CharacterClasses::standard() }
    }

    /// A trainer with custom parameters and custom character classes.
    pub fn with_configuration(params: TrainerParameters, classes: CharacterClasses) -> (t: Trainer)
        ensures
            t.spec_params() == params,
            t.spec_classes() == classes,
    {
        Trainer { params, classes }
    }

    /// Trains on a corpus, adding what it learns to the store.
    ///
    /// Training is strictly additive: every abbreviation, sentence starter
    /// and collocation already in the store survives, and every orthographic
    /// context bit already recorded survives. The abbreviations after the
    /// run are exactly the old ones plus the spellings of the corpus's word
    /// tokens whose penalty-adjusted Dunning score over the corpus counts
    /// lies in the configured window; in particular, every newly learned
    /// abbreviation was observed in the corpus as a whole word carrying a
    /// trailing period.
    pub fn train(&self, text: &str, data: &mut TrainingData)
        ensures
            old(data).abbrevs().subset_of(final(data).abbrevs()),
            old(data).sentence_starters().subset_of(final(data).sentence_starters()),
            old(data).collocations().subset_of(final(data).collocations()),
            forall|k: Seq<char>| (old(data).ortho_context(k) | final(data).ortho_context(k))
                == final(data).ortho_context(k),
            forall|s: Seq<char>| final(data).abbrevs().contains(s) && !old(
                data,
            ).abbrevs().contains(s) ==> spec_observed_with_period(text@, s),
            exists|words: Seq<Token>, annotated: Seq<Token>, mid: TrainingData|
                #![trigger spec_word_tokens(text@, words), annotated.len(), mid.abbrevs()]
                spec_word_tokens(text@, words) && final(data).abbrevs() == old(
                    data,
                ).abbrevs().union(spec_learned_abbrevs(self.spec_params(), words))
                    && mid.abbrevs() == final(data).abbrevs() && mid.sentence_starters() == old(
                    data,
                ).sentence_starters() && mid.collocations() == old(data).collocations() && (forall|
                    k: Seq<char>,
                | mid.ortho_context(k) == old(data).ortho_context(k)) && annotated.len()
                    == words.len() && (forall|a: int|
                    0 <= a < annotated.len() ==> spec_first_pass_rel(
                        words[a],
                        #[trigger] annotated[a],
                        mid,
                        self.spec_classes(),
                    )) && (forall|k: Seq<char>|
                    final(data).ortho_context(k) == (old(data).ortho_context(k)
                        | spec_ortho_accum(annotated, annotated.len() as int, k))),
    {
        let chars: Vec<char> = str_to_chars(text);
        let mut toks: Vec<Token> = word_tokenize(&chars);
        let ghost toks0: Seq<Token> = toks@;
        let n: u64 = toks.len() as u64;
        // frequency counting for the collocation and sentence-starter passes
        let mut counts = FreqMap::new();
        let mut i: usize = 0;
        while i < toks.len()
            decreases toks@.len() - i,
        {
            counts.bump(to_lower(toks[i].tok()));
            i += 1;
        }
        // abbreviation pass
        let b_periods: u64 = count_periods(&toks);
        let mut i: usize = 0;
        while i < toks.len()
            invariant
                chars@ == text@,
                n == toks@.len(),
                toks@ == toks0,
                i <= toks@.len(),
                spec_word_tokens(text@, toks@),
                b_periods as int == spec_period_count(toks@),
                data.abbrevs() == old(data).abbrevs().union(
                    spec_learned_abbrevs_upto(self.params, toks@, i as int),
                ),
                data.sentence_starters() == old(data).sentence_starters(),
                data.collocations() == old(data).collocations(),
                forall|k: Seq<char>| data.ortho_context(k) == old(data).ortho_context(k),
                forall|s: Seq<char>| data.abbrevs().contains(s) && !old(data).abbrevs().contains(
                    s,
                ) ==> spec_observed_with_period(text@, s),
            decreases toks@.len() - i,
        {
            let ghost accepted_spec: bool = spec_abbrev_accepted(
                self.params,
                toks@,
                toks@[i as int],
            );
            let t = &toks[i];
            let typ: Vec<char> = t.typ();
            let mut accepted: bool = false;
            if t.has_final_period() && !t.is_ellipsis() && t.len() >= 2 && t.is_alpha()
                && typ.len() > 0 {
                let lw: Vec<char> = to_lower(t.tok());
                let cw: u64 = count_type(&toks, &lw);
                let cwo: u64 = count_type(&toks, &typ);
                proof {
                    lemma_type_count_le_len(toks@, lw@);
                    lemma_type_count_le_len(toks@, typ@);
                    lemma_period_count_le_len(toks@);
                    assert(lw@.last() == lower_char(t.spec_text().last()));
                    lemma_lower_char_period(t.spec_text().last());
                    assert(lw@.len() > 0 && lw@.last() == '.');
                    lemma_type_count_period_le(toks@, lw@);
                    assert(typ@.len() < lw@.len());
                    lemma_type_count_sum_distinct(toks@, lw@, typ@);
                }
                let count_a: u64 = cw + cwo;
                let score: i128 = dunning_log_likelihood(count_a, b_periods, cw, n);
                let penalty: i128 = if self.params.ignore_abbrev_penalty {
                    0
                } else {
                    penalty_micro(count_nonperiod(&typ)) as i128
                };
                let adj: i128 = score - penalty;
                proof {
                    assert(adj == spec_abbrev_score(self.params, toks@, toks@[i as int]));
                }
                if self.params.abbrev_lower_bound as i128 <= adj && adj
                    <= self.params.abbrev_upper_bound as i128 {
                    accepted = true;
                }
            }
            proof {
                assert(accepted == accepted_spec);
            }
            if accepted {
                if !data.contains_abbrev_typ(&typ) {
                    proof {
                        let st = toks@[i as int].spec_start() as int;
                        let en = st + toks@[i as int].spec_text().len();
                        assert(spec_token_in(text@, toks@[i as int]));
                        assert(spec_token_maximal(text@, toks@[i as int]));
                        assert(text@.subrange(st, en) == toks@[i as int].spec_text());
                        assert forall|p: int| st <= p < en implies !is_space(text@[p]) by {
                            assert(text@[p] == toks@[i as int].spec_text()[p - st]);
                        }
                        assert((text@.subrange(st, en)).last() == '.' && normalize(
                            text@.subrange(st, en),
                        ) == typ@);
                        assert(spec_observed_with_period(text@, typ@));
                    }
                    data.insert_abbrev_typ(typ);
                }
            }
            proof {
                let ghost up = spec_learned_abbrevs_upto(self.params, toks@, i as int);
                let ghost up1 = spec_learned_abbrevs_upto(self.params, toks@, i + 1);
                let ghost tv = normalize(toks@[i as int].spec_text());
                assert forall|s: Seq<char>| up1.contains(s) implies (up.contains(s) || (
                accepted_spec && s == tv)) by {
                    let j = choose|j: int|
                        0 <= j < i + 1 && #[trigger] spec_abbrev_accepted(
                            self.params,
                            toks@,
                            toks@[j],
                        ) && normalize(toks@[j].spec_text()) == s;
                    if j < i {
                        assert(up.contains(s));
                    }
                }
                if accepted_spec {
                    assert(up1.contains(tv)) by {
                        assert(spec_abbrev_accepted(self.params, toks@, toks@[i as int])
                            && normalize(toks@[i as int].spec_text()) == tv);
                    }
                    assert(up1 =~= up.insert(tv));
                    assert(data.abbrevs().contains(tv));
                    assert(data.abbrevs() =~= old(data).abbrevs().union(up1));
                } else {
                    assert(up1 =~= up);
                    assert(data.abbrevs() =~= old(data).abbrevs().union(up1));
                }
            }
            i += 1;
        }
        proof {
            assert(spec_learned_abbrevs_upto(self.params, toks@, toks@.len() as int)
                == spec_learned_abbrevs(self.params, toks@));
        }
        // first-pass re-annotation
        let ghost mid: TrainingData = *data;
        annotate_tokens(&chars, &mut toks, data, &self.classes);
        let ghost toks1: Seq<Token> = toks@;
        proof {
            assert forall|k: Seq<char>| (old(data).ortho_context(k) | data.ortho_context(k))
                == data.ortho_context(k) by {
                let x = data.ortho_context(k);
                assert((x | x) == x) by (bit_vector);
            }
            assert forall|k: Seq<char>| data.ortho_context(k) == (old(data).ortho_context(k)
                | spec_ortho_accum(toks1, 0, k)) by {
                let x = old(data).ortho_context(k);
                assert((x | 0u8) == x) by (bit_vector);
            }
        }
        // orthographic pass
        let mut i: usize = 0;
        while i < toks.len()
            invariant
                i <= toks@.len(),
                toks@ == toks1,
                data.abbrevs() == old(data).abbrevs().union(
                    spec_learned_abbrevs(self.params, toks0),
                ),
                old(data).sentence_starters().subset_of(data.sentence_starters()),
                old(data).collocations().subset_of(data.collocations()),
                forall|k: Seq<char>| (old(data).ortho_context(k) | data.ortho_context(k))
                    == data.ortho_context(k),
                forall|k: Seq<char>| data.ortho_context(k) == (old(data).ortho_context(k)
                    | spec_ortho_accum(toks1, i as int, k)),
                forall|s: Seq<char>| data.abbrevs().contains(s) && !old(data).abbrevs().contains(
                    s,
                ) ==> spec_observed_with_period(text@, s),
            decreases toks@.len() - i,
        {
            let pos: OrthographyPosition = if toks[i].is_paragraph_start()
                || toks[i].is_newline_start() {
                OrthographyPosition::Initial
            } else if i > 0 && toks[i - 1].is_sentence_break() {
                OrthographyPosition::Initial
            } else if i > 0 && toks[i - 1].is_abbrev() {
                OrthographyPosition::Unknown
            } else {
                OrthographyPosition::Internal
            };
            let case: LetterCase = toks[i].letter_case();
            let code: u8 = ortho_code(pos, case);
            let typ: Vec<char> = toks[i].typ();
            let ghost pre: TrainingData = *data;
            proof {
                assert(code == spec_ortho_code_at(toks1, i as int));
            }
            data.add_orthographic_context_typ(&typ, code);
            proof {
                assert forall|k: Seq<char>| (old(data).ortho_context(k) | data.ortho_context(k))
                    == data.ortho_context(k) by {
                    if k == typ@ {
                        let x = old(data).ortho_context(k);
                        let y = pre.ortho_context(k);
                        let z = code;
                        assert((x | y) == y ==> (x | (y | z)) == (y | z)) by (bit_vector);
                    }
                }
                assert forall|k: Seq<char>| data.ortho_context(k) == (old(data).ortho_context(k)
                    | spec_ortho_accum(toks1, i + 1, k)) by {
                    let x = old(data).ortho_context(k);
                    let y = spec_ortho_accum(toks1, i as int, k);
                    let z = spec_ortho_code_at(toks1, i as int);
                    if k == typ@ {
                        assert(spec_ortho_accum(toks1, i + 1, k) == (y | z));
                        assert(((x | y) | z) == (x | (y | z))) by (bit_vector);
                    } else {
                        assert(spec_ortho_accum(toks1, i + 1, k) == (y | 0u8));
                        assert((y | 0u8) == y) by (bit_vector);
                    }
                }
            }
            i += 1;
        }
        // bigram and sentence-starter counting
        let mut pair_counts = PairFreqMap::new();
        let mut starter_counts = FreqMap::new();
        let mut n_breaks: u64 = 0;
        let mut i: usize = 0;
        while i < toks.len()
            decreases toks@.len() - i,
        {
            if toks[i].is_sentence_break() && n_breaks < 0xffff_ffff_ffff_ffff {
                n_breaks = n_breaks + 1;
            }
            if i + 1 < toks.len() {
                pair_counts.bump(toks[i].typ(), toks[i + 1].typ());
                if toks[i].is_sentence_break() {
                    starter_counts.bump(toks[i + 1].typ());
                }
            }
            i += 1;
        }
        // collocation pass
        let mut i: usize = 0;
        while i < toks.len()
            invariant
                i <= toks@.len(),
                data.abbrevs() == old(data).abbrevs().union(
                    spec_learned_abbrevs(self.params, toks0),
                ),
                old(data).sentence_starters().subset_of(data.sentence_starters()),
                old(data).collocations().subset_of(data.collocations()),
                forall|k: Seq<char>| (old(data).ortho_context(k) | data.ortho_context(k))
                    == data.ortho_context(k),
                forall|k: Seq<char>| data.ortho_context(k) == (old(data).ortho_context(k)
                    | spec_ortho_accum(toks1, toks1.len() as int, k)),
                forall|s: Seq<char>| data.abbrevs().contains(s) && !old(data).abbrevs().contains(
                    s,
                ) ==> spec_observed_with_period(text@, s),
            decreases toks@.len() - i,
        {
            if i + 1 < toks.len() {
                let is_initial: bool = toks[i].len() == 2 && crate::chars::char_is_letter(
                    toks[i].tok()[0],
                ) && toks[i].has_final_period();
                let candidate: bool = toks[i].has_final_period()
                    && (self.params.include_all_collocations
                    || (self.params.include_abbrev_collocations && toks[i].is_abbrev())
                    || (toks[i].is_sentence_break() && (toks[i].is_numeric() || is_initial)));
                if candidate {
                    let typ1: Vec<char> = toks[i].typ();
                    let typ2: Vec<char> = toks[i + 1].typ();
                    if typ1.len() > 0 && typ2.len() > 0 && !data.contains_collocation_typ(
                        &typ1,
                        &typ2,
                    ) {
                        let c_ab: u64 = pair_counts.get(&typ1, &typ2);
                        let mut key1p: Vec<char> = copy_chars(&typ1);
                        key1p.push('.');
                        let mut key2p: Vec<char> = copy_chars(&typ2);
                        key2p.push('.');
                        let c_a: u64 = saturating_add(counts.get(&typ1), counts.get(&key1p));
                        let c_b: u64 = saturating_add(counts.get(&typ2), counts.get(&key2p));
                        let a: u64 = u64_min(c_a, n);
                        let b: u64 = u64_min(c_b, n);
                        let ab: u64 = u64_min(c_ab, u64_min(a, b));
                        let score: i128 = col_log_likelihood(a, b, ab, n);
                        if c_ab > self.params.collocation_frequency_lower_bound && score
                            > self.params.collocation_lower_bound as i128 {
                            data.insert_collocation_typ(typ1, typ2);
                        }
                    }
                }
            }
            i += 1;
        }
        // sentence-starter pass
        let mut i: usize = 1;
        while i < toks.len()
            invariant
                1 <= i,
                data.abbrevs() == old(data).abbrevs().union(
                    spec_learned_abbrevs(self.params, toks0),
                ),
                old(data).sentence_starters().subset_of(data.sentence_starters()),
                old(data).collocations().subset_of(data.collocations()),
                forall|k: Seq<char>| (old(data).ortho_context(k) | data.ortho_context(k))
                    == data.ortho_context(k),
                forall|k: Seq<char>| data.ortho_context(k) == (old(data).ortho_context(k)
                    | spec_ortho_accum(toks1, toks1.len() as int, k)),
                forall|s: Seq<char>| data.abbrevs().contains(s) && !old(data).abbrevs().contains(
                    s,
                ) ==> spec_observed_with_period(text@, s),
            decreases toks@.len() - i,
        {
            if toks[i - 1].is_sentence_break() {
                let typ: Vec<char> = toks[i].typ();
                if typ.len() > 0 && !data.contains_sentence_starter_typ(&typ) {
                    let c_start: u64 = starter_counts.get(&typ);
                    let mut keyp: Vec<char> = copy_chars(&typ);
                    keyp.push('.');
                    let c_typ: u64 = saturating_add(counts.get(&typ), counts.get(&keyp));
                    let a: u64 = u64_min(n_breaks, n);
                    let b: u64 = u64_min(c_typ, n);
                    let ab: u64 = u64_min(c_start, u64_min(a, b));
                    let score: i128 = col_log_likelihood(a, b, ab, n);
                    if score > self.params.sentence_starter_lower_bound as i128 {
                        data.insert_sentence_starter_typ(typ);
                    }
                }
            }
            i += 1;
        }
    }
}

fn saturating_add(a: u64, b: u64) -> (r: u64)
    ensures
        r <= a as int + b as int,
{
    if a <= 0xffff_ffff_ffff_ffff - b {
        a + b
    } else {
        0xffff_ffff_ffff_ffff
    }
}

} // verus!
