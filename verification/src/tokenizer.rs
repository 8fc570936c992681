//! The sentence tokenizer: the per-token decision cascade and the assembly
//! of sentence spans.
//!
//! Given text and a read-only knowledge store, the tokenizer splits the text
//! into word tokens, runs the first-pass annotation, and then resolves every
//! punctuation-bearing token with an ordered heuristic cascade: lone
//! sentence-enders break; known collocations suppress; known abbreviations
//! (and ellipses) break only on orthographic or sentence-starter evidence
//! about the following token; other period-bearing tokens break unless the
//! orthographic record marks them as unlisted abbreviations. The produced
//! spans cover every word of the input in order, so the input can be rebuilt
//! from them and the interstitial whitespace.

use vstd::prelude::*;
use crate::chars::{is_space, is_upper, is_lower, normalize, str_to_chars};
use crate::prelude::{CharacterClasses, ORT_LC, MID_UC, BEG_UC, MID_LC};
use crate::token::{spec_is_ellipsis, spec_token_in, word_tokenize, Token};
use crate::training_data::TrainingData;
use crate::util::{annotate_first_pass, spec_first_pass_rel, spec_has_final_period};

verus! {

/// Orthographic evidence that a token starts a sentence: it begins with an
/// upper-case letter although its spelling has been seen in lower case, and
/// the spelling was never seen upper-cased mid-sentence.
pub open spec fn spec_ortho_starts_sentence(data: TrainingData, n: Token) -> bool {
    let ctx = data.ortho_context(normalize(n.spec_text()));
    &&& n.spec_text().len() > 0
    &&& is_upper(n.spec_text()[0])
    &&& ctx & ORT_LC != 0
    &&& ctx & MID_UC == 0
}

/// Orthographic evidence of an unlisted abbreviation: the next token is
/// lower-case, and the spelling itself occurs lower-cased mid-sentence but
/// never upper-cased sentence-initially.
pub open spec fn spec_ortho_unlisted_abbrev(data: TrainingData, t: Token, n: Token) -> bool {
    let ctx = data.ortho_context(normalize(t.spec_text()));
    &&& n.spec_text().len() > 0
    &&& is_lower(n.spec_text()[0])
    &&& ctx & MID_LC != 0
    &&& ctx & BEG_UC == 0
}

/// The decision cascade for one token, first matching rule winning: a lone
/// sentence-ending character breaks; a token without a final period never
/// breaks; at the end of the text the first-pass verdict stands; a known
/// collocation with the next token suppresses the break; a known
/// abbreviation or ellipsis breaks only on orthographic or sentence-starter
/// evidence about the next token; a first-pass sentence break stands unless
/// the orthographic record marks the spelling as an unlisted abbreviation.
#[verifier::opaque]
pub open spec fn spec_decide_break(
    t: Token,
    next: Option<Token>,
    data: TrainingData,
    classes: CharacterClasses,
) -> bool {
    let s = t.spec_text();
    if s.len() == 1 && classes.spec_sentence_endings().contains(s[0]) {
        true
    } else if !spec_has_final_period(s) {
        false
    } else {
        match next {
            Option::None => t.spec_is_sentence_break(),
            Option::Some(n) => {
                let typ = normalize(s);
                let ntyp = normalize(n.spec_text());
                if data.collocations().contains((typ, ntyp)) {
                    false
                } else if t.spec_is_abbrev() || spec_is_ellipsis(s) {
                    spec_ortho_starts_sentence(data, n) || (n.spec_text().len() > 0 && is_upper(
                        n.spec_text()[0],
                    ) && data.sentence_starters().contains(ntyp))
                } else if t.spec_is_sentence_break() {
                    !spec_ortho_unlisted_abbrev(data, t, n)
                } else {
                    false
                }
            },
        }
    }
}

/// Decides whether a sentence break follows the token at `k`, per the
/// decision cascade.
pub fn decide_sentence_break(
    toks: &Vec<Token>,
    k: usize,
    data: &TrainingData,
    classes: &CharacterClasses,
) -> (r: bool)
    requires
        k < toks@.len(),
    ensures
        r == spec_decide_break(
            toks@[k as int],
            if k + 1 < toks@.len() {
                Option::Some(toks@[k as int + 1])
            } else {
                Option::<Token>::None
            },
            *data,
            *classes,
        ),
{
    proof {
        reveal(spec_decide_break);
    }
    let t = &toks[k];
    if t.len() == 1 {
        let c: char = t.tok()[0];
        if classes.is_sentence_ending(&c) {
            return true;
        }
    }
    if !t.has_final_period() {
        return false;
    }
    if k >= toks.len() - 1 {
        return t.is_sentence_break();
    }
    let n = &toks[k + 1];
    let typ: Vec<char> = t.typ();
    let ntyp: Vec<char> = n.typ();
    if data.contains_collocation_typ(&typ, &ntyp) {
        return false;
    }
    if t.is_abbrev() || t.is_ellipsis() {
        let nctx: u8 = data.get_orthographic_context_typ(&ntyp);
        if n.first_upper() && (nctx & ORT_LC != 0) && (nctx & MID_UC == 0) {
            return true;
        }
        if n.first_upper() && data.contains_sentence_starter_typ(&ntyp) {
            return true;
        }
        return false;
    }
    if t.is_sentence_break() {
        let tctx: u8 = data.get_orthographic_context_typ(&typ);
        if n.first_lower() && (tctx & MID_LC != 0) && (tctx & BEG_UC == 0) {
            return false;
        }
        return true;
    }
    false
}

/// With an untrained (empty) store the cascade degrades to pure
/// punctuation-based splitting: a token breaks exactly when it is a lone
/// sentence-ending character, or when the first pass marked its final
/// period as a sentence break; no suppression rule can fire. An ellipsis
/// followed by another token never breaks by itself.
pub proof fn lemma_untrained_splits_on_punctuation(
    t: Token,
    next: Option<Token>,
    data: TrainingData,
    classes: CharacterClasses,
)
    requires
        data.abbrevs() =~= Set::<Seq<char>>::empty(),
        data.sentence_starters() =~= Set::<Seq<char>>::empty(),
        data.collocations() =~= Set::<(Seq<char>, Seq<char>)>::empty(),
        forall|k: Seq<char>| data.ortho_context(k) == 0,
        !t.spec_is_abbrev(),
    ensures
        spec_decide_break(t, next, data, classes) == if t.spec_text().len() == 1
            && classes.spec_sentence_endings().contains(t.spec_text()[0]) {
            true
        } else if !spec_has_final_period(t.spec_text()) {
            false
        } else if next is None {
            t.spec_is_sentence_break()
        } else if spec_is_ellipsis(t.spec_text()) {
            false
        } else {
            t.spec_is_sentence_break()
        },
{
    reveal(spec_decide_break);
    assert forall|x: u8| x == 0 implies (x & ORT_LC) == 0 && (x & MID_LC) == 0 by {
        assert(0u8 & ORT_LC == 0) by (bit_vector);
        assert(0u8 & MID_LC == 0) by (bit_vector);
    }
}

/// Sentence spans are chained from `from`: each span lies inside the text,
/// never before `from`, and they come in order without overlap.
pub open spec fn spec_spans_chained(spans: Seq<(usize, usize)>, from: int, len: int) -> bool {
    &&& forall|q: int| 0 <= q < spans.len() ==> (#[trigger] spans[q]).0 <= spans[q].1 <= len
    &&& (spans.len() > 0 ==> from <= spans[0].0)
    &&& forall|q: int| 0 <= q < spans.len() - 1 ==> (#[trigger] spans[q]).1 <= spans[q + 1].0
}

/// The text rebuilt from sentence spans: for each span in order, the
/// interstitial text before it and then the span itself, then the tail
/// after the last span.
pub open spec fn spec_reconstruct(text: Seq<char>, spans: Seq<(usize, usize)>, from: int) -> Seq<
    char>
    decreases spans.len(),
{
    if spans.len() == 0 {
        text.subrange(from, text.len() as int)
    } else {
        text.subrange(from, spans[0].0 as int) + text.subrange(
            spans[0].0 as int,
            spans[0].1 as int,
        ) + spec_reconstruct(text, spans.drop_first(), spans[0].1 as int)
    }
}

proof fn lemma_spans_reconstruct(text: Seq<char>, spans: Seq<(usize, usize)>, from: int)
    requires
        0 <= from <= text.len(),
        spec_spans_chained(spans, from, text.len() as int),
    ensures
        spec_reconstruct(text, spans, from) == text.subrange(from, text.len() as int),
    decreases spans.len(),
{
    if spans.len() > 0 {
        let s0 = spans[0].0 as int;
        let e0 = spans[0].1 as int;
        let rest = spans.drop_first();
        assert(spec_spans_chained(rest, e0, text.len() as int)) by {
            assert(forall|q: int| 0 <= q < rest.len() ==> rest[q] == spans[q + 1]);
        }
        lemma_spans_reconstruct(text, rest, e0);
        assert(text.subrange(from, s0) + text.subrange(s0, e0) + text.subrange(
            e0,
            text.len() as int,
        ) =~= text.subrange(from, text.len() as int));
    }
}

/// Coverage and no-loss: chained sentence spans, concatenated with the
/// original interstitial text, reconstruct the input exactly.
pub proof fn lemma_sentences_reconstruct_text(text: Seq<char>, spans: Seq<(usize, usize)>)
    requires
        spec_spans_chained(spans, 0, text.len() as int),
    ensures
        spec_reconstruct(text, spans, 0) == text,
{
    lemma_spans_reconstruct(text, spans, 0);
    assert(text.subrange(0, text.len() as int) =~= text);
}

/// Splits raw text into sentences using a trained knowledge store and a
/// per-run character-classification capability.
pub struct SentenceTokenizer {
    classes: CharacterClasses,
}

impl SentenceTokenizer {
    /// The character classes this tokenizer splits with.
    pub closed spec fn spec_classes(self) -> CharacterClasses {
        self.classes
    }

    /// A tokenizer over the standard character classes.
    pub fn new() -> (s: SentenceTokenizer)
        ensures
            forall|c: char| s.spec_classes().spec_sentence_endings().contains(c)
                == crate::prelude::default_sentence_ending(c),
    {
        SentenceTokenizer { classes: CharacterClasses::standard() }
    }

    /// A tokenizer over custom character classes.
    pub fn with_classes(classes: CharacterClasses) -> (s: SentenceTokenizer)
        ensures
            s.spec_classes() == classes,
    {
        SentenceTokenizer { classes }
    }

    /// The sentence spans of the text, as half-open character ranges.
    ///
    /// The spans are chained (in order, without overlap, inside the text),
    /// every span begins and ends on a non-whitespace character, and every
    /// non-whitespace character of the text lies in a span: nothing but
    /// interstitial whitespace is lost, and empty or all-whitespace text
    /// yields no spans.
    #[verifier::rlimit(100)]
    pub fn sentence_spans(&self, text: &str, data: &TrainingData) -> (r: Vec<(usize, usize)>)
        ensures
            spec_spans_chained(r@, 0, text@.len() as int),
            forall|q: int| 0 <= q < r@.len() ==> (#[trigger] r@[q]).0 < r@[q].1,
            forall|q: int| 0 <= q < r@.len() ==> !is_space(text@[(#[trigger] r@[q]).0 as int])
                && !is_space(text@[r@[q].1 - 1]),
            (exists|p: int| 0 <= p < text@.len() && !is_space(#[trigger] text@[p])) <==> r@.len()
                > 0,
    {
        let chars: Vec<char> = str_to_chars(text);
        let mut toks: Vec<Token> = word_tokenize(&chars);
        let ghost toks0: Seq<Token> = toks@;
        annotate_tokens(&chars, &mut toks, data, &self.classes);
        proof {
            assert forall|a: int| 0 <= a < toks@.len() implies spec_token_in(
                chars@,
                #[trigger] toks@[a],
            ) by {
                assert(spec_token_in(chars@, toks0[a]));
            }
            assert forall|a: int| 0 <= a < toks@.len() - 1 implies #[trigger] toks@[
                a].spec_start() + toks@[a].spec_text().len() <= toks@[a + 1].spec_start() by {
                assert(toks0[a].spec_start() + toks0[a].spec_text().len() <= toks0[a
                    + 1].spec_start());
            }
        }
        let r: Vec<(usize, usize)> = assemble_spans(&chars, &toks, data, &self.classes);
        proof {
            if exists|p: int| 0 <= p < text@.len() && !is_space(#[trigger] text@[p]) {
                let p = choose|p: int| 0 <= p < text@.len() && !is_space(#[trigger] text@[p]);
                let a = choose|a: int|
                    0 <= a < toks0.len() && #[trigger] toks0[a].spec_start() <= p < toks0[
                    a].spec_start() + toks0[a].spec_text().len();
                assert(toks@.len() > 0);
            }
            if toks@.len() > 0 {
                assert(spec_token_in(chars@, toks@[0]));
                let p = toks@[0].spec_start() as int;
                assert(text@[p] == toks@[0].spec_text()[0]);
                assert(0 <= p < text@.len() && !is_space(text@[p]));
            }
        }
        r
    }

    /// The sentences of the text, as slices of it, in order.
    ///
    /// The slices are exactly the contents of a chained family of nonempty
    /// sentence spans that begin and end on non-whitespace, so the input can
    /// be rebuilt from them together with the interstitial whitespace; there
    /// is at least one sentence whenever the text has a non-whitespace
    /// character, and none otherwise.
    #[verifier::rlimit(100)]
    pub fn sentences<'a>(&self, text: &'a str, data: &TrainingData) -> (r: Vec<&'a str>)
        ensures
            (exists|p: int| 0 <= p < text@.len() && !is_space(#[trigger] text@[p])) <==> r@.len()
                > 0,
            exists|spans: Seq<(usize, usize)>|
                spec_spans_chained(spans, 0, text@.len() as int) && r@.len() == spans.len() && (
                forall|q: int| 0 <= q < spans.len() ==> (#[trigger] spans[q]).0 < spans[q].1) && (
                forall|q: int|
                    0 <= q < spans.len() ==> !is_space(text@[(#[trigger] spans[q]).0 as int])
                        && !is_space(text@[spans[q].1 - 1])) && (forall|q: int|
                    0 <= q < spans.len() ==> r@[q]@ == text@.subrange(
                        (#[trigger] spans[q]).0 as int,
                        spans[q].1 as int,
                    )),
    {
        let spans: Vec<(usize, usize)> = self.sentence_spans(text, data);
        let mut r: Vec<&'a str> = Vec::new();
        let mut q: usize = 0;
        while q < spans.len()
            invariant
                spec_spans_chained(spans@, 0, text@.len() as int),
                forall|j: int| 0 <= j < spans@.len() ==> (#[trigger] spans@[j]).0 < spans@[j].1,
                q <= spans@.len(),
                r@.len() == q,
                forall|j: int| 0 <= j < q ==> r@[j]@ == text@.subrange(
                    (#[trigger] spans@[j]).0 as int,
                    spans@[j].1 as int,
                ),
            decreases spans@.len() - q,
        {
            let (a, b) = (spans[q].0, spans[q].1);
            r.push(text.substring_char(a, b));
            q += 1;
        }
        proof {
            let ghost w: Seq<(usize, usize)> = spans@;
            assert(spec_spans_chained(w, 0, text@.len() as int) && r@.len() == w.len() && (forall|
                q: int,
            | 0 <= q < w.len() ==> (#[trigger] w[q]).0 < w[q].1) && (forall|q: int|
                0 <= q < w.len() ==> !is_space(text@[(#[trigger] w[q]).0 as int]) && !is_space(
                    text@[w[q].1 - 1],
                )) && (forall|q: int| 0 <= q < w.len() ==> r@[q]@ == text@.subrange(
                (#[trigger] w[q]).0 as int,
                w[q].1 as int,
            )));
        }
        r
    }
}

/// A proper tokenization: every token lies inside the text and tokens come
/// in order without overlap.
pub open spec fn spec_tokenization(text: Seq<char>, toks: Seq<Token>) -> bool {
    &&& forall|i: int| 0 <= i < toks.len() ==> spec_token_in(text, #[trigger] toks[i])
    &&& forall|i: int| 0 <= i < toks.len() - 1 ==> #[trigger] toks[i].spec_start()
        + toks[i].spec_text().len() <= toks[i + 1].spec_start()
}

/// Tokens in order occupy disjoint, increasing ranges: an earlier token
/// ends at or before a later one starts.
proof fn lemma_token_positions_ordered(text: Seq<char>, toks: Seq<Token>, a: int, b: int)
    requires
        0 <= a <= b < toks.len(),
        spec_tokenization(text, toks),
    ensures
        toks[a].spec_start() <= toks[b].spec_start(),
        toks[a].spec_start() + toks[a].spec_text().len() <= toks[b].spec_start() + toks[
            b].spec_text().len(),
    decreases b - a,
{
    if a < b {
        lemma_token_positions_ordered(text, toks, a, b - 1);
        assert(toks[b - 1].spec_start() + toks[b - 1].spec_text().len() <= toks[b].spec_start());
    }
}

/// Runs the first-pass annotation over every token in place: each token
/// stands in the first-pass outcome relation to what it was, so spellings
/// and positions are untouched.
pub(crate) fn annotate_tokens(
    chars: &Vec<char>,
    toks: &mut Vec<Token>,
    data: &TrainingData,
    classes: &CharacterClasses,
)
    ensures
        final(toks)@.len() == old(toks)@.len(),
        forall|a: int| 0 <= a < final(toks)@.len() ==> spec_first_pass_rel(
            old(toks)@[a],
            #[trigger] final(toks)@[a],
            *data,
            *classes,
        ),
        forall|a: int| 0 <= a < final(toks)@.len() ==> (#[trigger] final(toks)@[a]).spec_text()
            == old(toks)@[a].spec_text() && final(toks)@[a].spec_start() == old(
            toks,
        )@[a].spec_start(),
{
    let mut k: usize = 0;
    while k < toks.len()
        invariant
            toks@.len() == old(toks)@.len(),
            k <= toks@.len(),
            forall|a: int| 0 <= a < k ==> spec_first_pass_rel(
                old(toks)@[a],
                #[trigger] toks@[a],
                *data,
                *classes,
            ),
            forall|a: int| k <= a < toks@.len() ==> #[trigger] toks@[a] == old(toks)@[a],
        decreases toks@.len() - k,
    {
        let ghost prev: Seq<Token> = toks@;
        annotate_first_pass(&mut toks[k], data, classes);
        proof {
            assert(prev[k as int] == old(toks)@[k as int]);
            assert forall|a: int| 0 <= a < k + 1 implies spec_first_pass_rel(
                old(toks)@[a],
                #[trigger] toks@[a],
                *data,
                *classes,
            ) by {
                if a != k {
                    assert(toks@[a] == prev[a]);
                }
            }
            assert forall|a: int| k + 1 <= a < toks@.len() implies #[trigger] toks@[a] == old(
                toks,
            )@[a] by {
                assert(toks@[a] == prev[a]);
            }
        }
        k += 1;
    }
}

/// Groups annotated tokens into sentence spans: a span runs from the first
/// token after the previous break to the token where the cascade breaks, and
/// the last token always closes the final span.
fn assemble_spans(
    chars: &Vec<char>,
    toks: &Vec<Token>,
    data: &TrainingData,
    classes: &CharacterClasses,
) -> (r: Vec<(usize, usize)>)
    requires
        spec_tokenization(chars@, toks@),
    ensures
        spec_spans_chained(r@, 0, chars@.len() as int),
        forall|q: int| 0 <= q < r@.len() ==> (#[trigger] r@[q]).0 < r@[q].1,
        forall|q: int| 0 <= q < r@.len() ==> !is_space(chars@[(#[trigger] r@[q]).0 as int])
            && !is_space(chars@[r@[q].1 - 1]),
        r@.len() > 0 <==> toks@.len() > 0,
{
    let n_chars: usize = chars.len();
    let mut spans: Vec<(usize, usize)> = Vec::new();
    let mut have_cur: bool = false;
    let mut cur_start: usize = 0;
    let ghost mut gf: int = 0;
    let mut k: usize = 0;
    while k < toks.len()
        invariant
            spec_tokenization(chars@, toks@),
            chars@.len() == n_chars,
            k <= toks@.len(),
            have_cur ==> 0 <= gf < k && cur_start == toks@[gf].spec_start() && k < toks@.len(),
            forall|q: int| 0 <= q < spans@.len() ==> (#[trigger] spans@[q]).0 < spans@[q].1
                <= chars@.len(),
            forall|q: int| 0 <= q < spans@.len() ==> !is_space(
                chars@[(#[trigger] spans@[q]).0 as int],
            ) && !is_space(chars@[spans@[q].1 - 1]),
            forall|q: int| 0 <= q < spans@.len() - 1 ==> (#[trigger] spans@[q]).1 <= spans@[q
                + 1].0,
            have_cur ==> forall|q: int| 0 <= q < spans@.len() ==> (#[trigger] spans@[q]).1
                <= cur_start,
            (!have_cur && k < toks@.len()) ==> forall|q: int| 0 <= q < spans@.len() ==> (
            #[trigger] spans@[q]).1 <= toks@[k as int].spec_start(),
            (!have_cur && k > 0) ==> spans@.len() > 0,
            spans@.len() <= k,
        decreases toks@.len() - k,
    {
        if !have_cur {
            cur_start = toks[k].start();
            have_cur = true;
            proof {
                gf = k as int;
            }
        }
        let last: bool = k == toks.len() - 1;
        let brk: bool = if last {
            true
        } else {
            decide_sentence_break(toks, k, data, classes)
        };
        if brk {
            let end: usize = toks[k].start() + toks[k].len();
            spans.push((cur_start, end));
            proof {
                assert(spec_token_in(chars@, toks@[k as int]));
                lemma_token_positions_ordered(chars@, toks@, gf, k as int);
                assert(chars@[cur_start as int] == toks@[gf].spec_text()[0]);
                assert(chars@[end - 1] == toks@[k as int].spec_text()[toks@[
                    k as int].spec_text().len() - 1]);
                if k + 1 < toks@.len() {
                    assert(toks@[k as int].spec_start() + toks@[k as int].spec_text().len()
                        <= toks@[k as int + 1].spec_start());
                }
            }
            have_cur = false;
        }
        k += 1;
    }
    spans
}

} // verus!
