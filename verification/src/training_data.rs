//! The persisted knowledge store.
//!
//! Four stores keyed by normalized spelling: learned abbreviations, learned
//! sentence starters, learned collocations (ordered pairs), and the
//! accumulated orthographic context byte per spelling. Every stored spelling
//! is normalized (trailing period stripped, lower-cased), so lookup is case-
//! and punctuation-insensitive. Training only ever adds to a store.

use vstd::prelude::*;
use crate::chars::{normalize, str_to_chars, copy_chars, normalize_chars};

verus! {

/// The set of spellings held by a vector of spellings.
pub open spec fn set_of(v: Seq<Vec<char>>) -> Set<Seq<char>> {
    Set::new(|s: Seq<char>| exists|i: int| 0 <= i < v.len() && v[i]@ == s)
}

/// The set of ordered pairs held by a vector of pairs.
pub open spec fn pair_set_of(v: Seq<(Vec<char>, Vec<char>)>) -> Set<(Seq<char>, Seq<char>)> {
    Set::new(
        |p: (Seq<char>, Seq<char>)|
            exists|i: int| 0 <= i < v.len() && v[i].0@ == p.0 && v[i].1@ == p.1,
    )
}

/// The context byte recorded for a key by an association vector, the latest
/// entry winning; zero when the key is absent.
pub open spec fn ctx_of(entries: Seq<(Vec<char>, u8)>, k: Seq<char>) -> u8
    decreases entries.len(),
{
    if entries.len() == 0 {
        0
    } else if entries.last().0@ == k {
        entries.last().1
    } else {
        ctx_of(entries.drop_last(), k)
    }
}

proof fn lemma_ctx_of_push(entries: Seq<(Vec<char>, u8)>, x: (Vec<char>, u8), k: Seq<char>)
    ensures
        ctx_of(entries.push(x), k) == if x.0@ == k {
            x.1
        } else {
            ctx_of(entries, k)
        },
{
    assert(entries.push(x).drop_last() =~= entries);
}

proof fn lemma_ctx_of_at(entries: Seq<(Vec<char>, u8)>, i: int, k: Seq<char>)
    requires
        0 <= i < entries.len(),
        entries[i].0@ == k,
        forall|j: int| i < j < entries.len() ==> entries[j].0@ != k,
    ensures
        ctx_of(entries, k) == entries[i].1,
    decreases entries.len(),
{
    if i == entries.len() - 1 {
    } else {
        lemma_ctx_of_at(entries.drop_last(), i, k);
    }
}

proof fn lemma_ctx_of_update(entries: Seq<(Vec<char>, u8)>, i: int, x: (Vec<char>, u8), k: Seq<
    char>)
    requires
        0 <= i < entries.len(),
        x.0@ == entries[i].0@,
        forall|j: int| i < j < entries.len() ==> entries[j].0@ != entries[i].0@,
    ensures
        ctx_of(entries.update(i, x), k) == if entries[i].0@ == k {
            x.1
        } else {
            ctx_of(entries, k)
        },
    decreases entries.len(),
{
    let n = entries.len() as int;
    if i == n - 1 {
        if entries[i].0@ != k {
            assert(entries.update(i, x).drop_last() =~= entries.drop_last());
        }
    } else {
        assert(entries.update(i, x).drop_last() =~= entries.drop_last().update(i, x));
        assert(entries.update(i, x).last() == entries.last());
        lemma_ctx_of_update(entries.drop_last(), i, x, k);
    }
}

pub(crate) proof fn lemma_set_of_push(v: Seq<Vec<char>>, x: Vec<char>)
    ensures
        set_of(v.push(x)) =~= set_of(v).insert(x@),
{
    assert forall|s: Seq<char>| set_of(v.push(x)).contains(s) implies set_of(v).insert(
        x@,
    ).contains(s) by {
        let i = choose|i: int| 0 <= i < v.push(x).len() && v.push(x)[i]@ == s;
        if i < v.len() {
            assert(v[i]@ == s);
        }
    }
    assert forall|s: Seq<char>| set_of(v).insert(x@).contains(s) implies set_of(
        v.push(x),
    ).contains(s) by {
        if s == x@ {
            assert(v.push(x)[v.len() as int]@ == s);
        } else {
            let i = choose|i: int| 0 <= i < v.len() && v[i]@ == s;
            assert(v.push(x)[i]@ == s);
        }
    }
}

pub(crate) proof fn lemma_pair_set_of_push(v: Seq<(Vec<char>, Vec<char>)>, x: (Vec<char>, Vec<char>))
    ensures
        pair_set_of(v.push(x)) =~= pair_set_of(v).insert((x.0@, x.1@)),
{
    assert forall|p: (Seq<char>, Seq<char>)| pair_set_of(v.push(x)).contains(p) implies pair_set_of(
        v,
    ).insert((x.0@, x.1@)).contains(p) by {
        let i = choose|i: int|
            0 <= i < v.push(x).len() && v.push(x)[i].0@ == p.0 && v.push(x)[i].1@ == p.1;
        if i < v.len() {
            assert(v[i].0@ == p.0 && v[i].1@ == p.1);
        }
    }
    assert forall|p: (Seq<char>, Seq<char>)| pair_set_of(v).insert((x.0@, x.1@)).contains(
        p,
    ) implies pair_set_of(v.push(x)).contains(p) by {
        if p == (x.0@, x.1@) {
            assert(v.push(x)[v.len() as int].0@ == p.0 && v.push(x)[v.len() as int].1@ == p.1);
        } else {
            let i = choose|i: int| 0 <= i < v.len() && v[i].0@ == p.0 && v[i].1@ == p.1;
            assert(v.push(x)[i].0@ == p.0 && v.push(x)[i].1@ == p.1);
        }
    }
}

/// Character-by-character spelling equality.
pub fn chars_eq(a: &Vec<char>, b: &Vec<char>) -> (r: bool)
    ensures
        r == (a@ == b@),
{
    if a.len() != b.len() {
        return false;
    }
    let mut i: usize = 0;
    while i < a.len()
        invariant
            a@.len() == b@.len(),
            i <= a@.len(),
            forall|j: int| 0 <= j < i ==> a@[j] == b@[j],
        decreases a@.len() - i,
    {
        if a[i] != b[i] {
            return false;
        }
        i += 1;
    }
    proof {
        assert(a@ =~= b@);
    }
    true
}

fn spelling_vec_contains(v: &Vec<Vec<char>>, k: &Vec<char>) -> (r: bool)
    ensures
        r == set_of(v@).contains(k@),
{
    let mut i: usize = 0;
    while i < v.len()
        invariant
            i <= v@.len(),
            forall|j: int| 0 <= j < i ==> v@[j]@ != k@,
        decreases v@.len() - i,
    {
        if chars_eq(&v[i], k) {
            proof {
                assert(v@[i as int]@ == k@);
            }
            return true;
        }
        i += 1;
    }
    false
}

fn copy_spellings(v: &Vec<Vec<char>>) -> (r: Vec<Vec<char>>)
    ensures
        r@.len() == v@.len(),
        forall|i: int| 0 <= i < r@.len() ==> (#[trigger] r@[i])@ == v@[i]@,
{
    let mut r: Vec<Vec<char>> = Vec::new();
    let mut i: usize = 0;
    while i < v.len()
        invariant
            i <= v@.len(),
            r@.len() == i,
            forall|j: int| 0 <= j < i ==> (#[trigger] r@[j])@ == v@[j]@,
        decreases v@.len() - i,
    {
        r.push(copy_chars(&v[i]));
        i += 1;
    }
    r
}

proof fn lemma_set_of_pointwise(a: Seq<Vec<char>>, b: Seq<Vec<char>>)
    requires
        a.len() == b.len(),
        forall|i: int| 0 <= i < a.len() ==> (#[trigger] a[i])@ == b[i]@,
    ensures
        set_of(a) =~= set_of(b),
{
    assert forall|s: Seq<char>| set_of(a).contains(s) implies set_of(b).contains(s) by {
        let i = choose|i: int| 0 <= i < a.len() && a[i]@ == s;
        assert(b[i]@ == s);
    }
    assert forall|s: Seq<char>| set_of(b).contains(s) implies set_of(a).contains(s) by {
        let i = choose|i: int| 0 <= i < b.len() && b[i]@ == s;
        assert(a[i]@ == s);
    }
}

proof fn lemma_ctx_of_nonzero_has_key(entries: Seq<(Vec<char>, u8)>, k: Seq<char>)
    requires
        ctx_of(entries, k) != 0,
    ensures
        exists|i: int| 0 <= i < entries.len() && (#[trigger] entries[i]).0@ == k,
    decreases entries.len(),
{
    if entries.len() > 0 {
        if entries.last().0@ == k {
            assert((entries[entries.len() - 1]).0@ == k);
        } else {
            lemma_ctx_of_nonzero_has_key(entries.drop_last(), k);
            let i = choose|i: int|
                0 <= i < entries.drop_last().len() && (#[trigger] entries.drop_last()[i]).0@ == k;
            assert((entries[i]).0@ == k);
        }
    }
}

/// The persisted knowledge store: learned abbreviations, sentence starters,
/// collocations, and the per-spelling orthographic context bytes.
#[derive(Debug)]
pub struct TrainingData {
    abbrevs: Vec<Vec<char>>,
    sentence_starters: Vec<Vec<char>>,
    collocations: Vec<(Vec<char>, Vec<char>)>,
    ortho: Vec<(Vec<char>, u8)>,
}

impl TrainingData {
    /// The learned abbreviation spellings.
    pub closed spec fn abbrevs(self) -> Set<Seq<char>> {
        set_of(self.abbrevs@)
    }

    /// The learned sentence-starter spellings.
    pub closed spec fn sentence_starters(self) -> Set<Seq<char>> {
        set_of(self.sentence_starters@)
    }

    /// The learned collocations, first spelling then second.
    pub closed spec fn collocations(self) -> Set<(Seq<char>, Seq<char>)> {
        pair_set_of(self.collocations@)
    }

    /// The orthographic context byte accumulated for a normalized spelling;
    /// zero when nothing was recorded.
    pub closed spec fn ortho_context(self, k: Seq<char>) -> u8 {
        ctx_of(self.ortho@, k)
    }

    /// An empty store: nothing learned yet.
    pub fn new() -> (d: TrainingData)
        ensures
            d.abbrevs() =~= Set::<Seq<char>>::empty(),
            d.sentence_starters() =~= Set::<Seq<char>>::empty(),
            d.collocations() =~= Set::<(Seq<char>, Seq<char>)>::empty(),
            forall|k: Seq<char>| d.ortho_context(k) == 0,
    {
        TrainingData {
            abbrevs: Vec::new(),
            sentence_starters: Vec::new(),
            collocations: Vec::new(),
            ortho: Vec::new(),
        }
    }

    /// Whether the normalized form of `tok` is a learned abbreviation.
    pub fn contains_abbrev(&self, tok: &str) -> (r: bool)
        ensures
            r == self.abbrevs().contains(normalize(tok@)),
    {
        let chars: Vec<char> = str_to_chars(tok);
        self.contains_abbrev_typ(&normalize_chars(&chars))
    }

    /// Whether a normalized spelling is a learned abbreviation.
    pub(crate) fn contains_abbrev_typ(&self, typ: &Vec<char>) -> (r: bool)
        ensures
            r == self.abbrevs().contains(typ@),
    {
        spelling_vec_contains(&self.abbrevs, typ)
    }

    /// Records the normalized form of `tok` as a learned abbreviation.
    pub fn insert_abbrev(&mut self, tok: &str)
        ensures
            final(self).abbrevs() == old(self).abbrevs().insert(normalize(tok@)),
            final(self).sentence_starters() == old(self).sentence_starters(),
            final(self).collocations() == old(self).collocations(),
            forall|k: Seq<char>| final(self).ortho_context(k) == old(self).ortho_context(k),
    {
        let chars: Vec<char> = str_to_chars(tok);
        self.insert_abbrev_typ(normalize_chars(&chars));
    }

    /// Records an already-normalized spelling as a learned abbreviation.
    pub(crate) fn insert_abbrev_typ(&mut self, typ: Vec<char>)
        ensures
            final(self).abbrevs() == old(self).abbrevs().insert(typ@),
            final(self).sentence_starters() == old(self).sentence_starters(),
            final(self).collocations() == old(self).collocations(),
            forall|k: Seq<char>| final(self).ortho_context(k) == old(self).ortho_context(k),
    {
        if !spelling_vec_contains(&self.abbrevs, &typ) {
            proof {
                lemma_set_of_push(self.abbrevs@, typ);
            }
            self.abbrevs.push(typ);
        } else {
            proof {
                assert(set_of(self.abbrevs@).insert(typ@) =~= set_of(self.abbrevs@));
            }
        }
    }

    /// Whether the normalized form of `tok` is a learned sentence starter.
    pub fn contains_sentence_starter(&self, tok: &str) -> (r: bool)
        ensures
            r == self.sentence_starters().contains(normalize(tok@)),
    {
        let chars: Vec<char> = str_to_chars(tok);
        self.contains_sentence_starter_typ(&normalize_chars(&chars))
    }

    /// Whether a normalized spelling is a learned sentence starter.
    pub(crate) fn contains_sentence_starter_typ(&self, typ: &Vec<char>) -> (r: bool)
        ensures
            r == self.sentence_starters().contains(typ@),
    {
        spelling_vec_contains(&self.sentence_starters, typ)
    }

    /// Records the normalized form of `tok` as a learned sentence starter.
    pub fn insert_sentence_starter(&mut self, tok: &str)
        ensures
            final(self).sentence_starters() == old(self).sentence_starters().insert(
                normalize(tok@),
            ),
            final(self).abbrevs() == old(self).abbrevs(),
            final(self).collocations() == old(self).collocations(),
            forall|k: Seq<char>| final(self).ortho_context(k) == old(self).ortho_context(k),
    {
        let chars: Vec<char> = str_to_chars(tok);
        self.insert_sentence_starter_typ(normalize_chars(&chars));
    }

    /// Records an already-normalized spelling as a learned sentence starter.
    pub(crate) fn insert_sentence_starter_typ(&mut self, typ: Vec<char>)
        ensures
            final(self).sentence_starters() == old(self).sentence_starters().insert(typ@),
            final(self).abbrevs() == old(self).abbrevs(),
            final(self).collocations() == old(self).collocations(),
            forall|k: Seq<char>| final(self).ortho_context(k) == old(self).ortho_context(k),
    {
        if !spelling_vec_contains(&self.sentence_starters, &typ) {
            proof {
                lemma_set_of_push(self.sentence_starters@, typ);
            }
            self.sentence_starters.push(typ);
        } else {
            proof {
                assert(set_of(self.sentence_starters@).insert(typ@) =~= set_of(
                    self.sentence_starters@,
                ));
            }
        }
    }

    /// Whether the normalized pair is a learned collocation.
    pub fn contains_collocation(&self, first: &str, second: &str) -> (r: bool)
        ensures
            r == self.collocations().contains((normalize(first@), normalize(second@))),
    {
        let a: Vec<char> = str_to_chars(first);
        let b: Vec<char> = str_to_chars(second);
        self.contains_collocation_typ(&normalize_chars(&a), &normalize_chars(&b))
    }

    /// Whether a pair of normalized spellings is a learned collocation.
    pub(crate) fn contains_collocation_typ(&self, first: &Vec<char>, second: &Vec<char>) -> (r:
        bool)
        ensures
            r == self.collocations().contains((first@, second@)),
    {
        let mut i: usize = 0;
        while i < self.collocations.len()
            invariant
                i <= self.collocations@.len(),
                forall|j: int| 0 <= j < i ==> !(self.collocations@[j].0@ == first@
                    && self.collocations@[j].1@ == second@),
            decreases self.collocations@.len() - i,
        {
            if chars_eq(&self.collocations[i].0, first) && chars_eq(
                &self.collocations[i].1,
                second,
            ) {
                proof {
                    assert(self.collocations@[i as int].0@ == first@ && self.collocations@[
                        i as int].1@ == second@);
                }
                return true;
            }
            i += 1;
        }
        false
    }

    /// Records the normalized pair as a learned collocation.
    pub fn insert_collocation(&mut self, first: &str, second: &str)
        ensures
            final(self).collocations() == old(self).collocations().insert(
                (normalize(first@), normalize(second@)),
            ),
            final(self).abbrevs() == old(self).abbrevs(),
            final(self).sentence_starters() == old(self).sentence_starters(),
            forall|k: Seq<char>| final(self).ortho_context(k) == old(self).ortho_context(k),
    {
        let a: Vec<char> = str_to_chars(first);
        let b: Vec<char> = str_to_chars(second);
        self.insert_collocation_typ(normalize_chars(&a), normalize_chars(&b));
    }

    /// Records an ordered pair of already-normalized spellings as a learned
    /// collocation.
    pub(crate) fn insert_collocation_typ(&mut self, first: Vec<char>, second: Vec<char>)
        ensures
            final(self).collocations() == old(self).collocations().insert((first@, second@)),
            final(self).abbrevs() == old(self).abbrevs(),
            final(self).sentence_starters() == old(self).sentence_starters(),
            forall|k: Seq<char>| final(self).ortho_context(k) == old(self).ortho_context(k),
    {
        if !self.contains_collocation_typ(&first, &second) {
            proof {
                lemma_pair_set_of_push(self.collocations@, (first, second));
            }
            self.collocations.push((first, second));
        } else {
            proof {
                assert(pair_set_of(self.collocations@).insert((first@, second@)) =~= pair_set_of(
                    self.collocations@,
                ));
            }
        }
    }

    /// The orthographic context byte for the normalized form of `tok`.
    pub fn get_orthographic_context(&self, tok: &str) -> (r: u8)
        ensures
            r == self.ortho_context(normalize(tok@)),
    {
        let chars: Vec<char> = str_to_chars(tok);
        self.get_orthographic_context_typ(&normalize_chars(&chars))
    }

    /// The orthographic context byte for a normalized spelling.
    pub(crate) fn get_orthographic_context_typ(&self, typ: &Vec<char>) -> (r: u8)
        ensures
            r == self.ortho_context(typ@),
    {
        let mut i: usize = self.ortho.len();
        while i > 0
            invariant
                i <= self.ortho@.len(),
                forall|j: int| i <= j < self.ortho@.len() ==> self.ortho@[j].0@ != typ@,
            decreases i,
        {
            i -= 1;
            if chars_eq(&self.ortho[i].0, typ) {
                proof {
                    lemma_ctx_of_at(self.ortho@, i as int, typ@);
                }
                return self.ortho[i].1;
            }
        }
        proof {
            lemma_ctx_of_absent(self.ortho@, typ@);
        }
        0
    }

    /// ORs the given context bits into the byte recorded for the normalized
    /// form of `tok`. Bits are only ever added: every previously recorded
    /// bit survives.
    pub fn add_orthographic_context(&mut self, tok: &str, bits: u8)
        ensures
            final(self).ortho_context(normalize(tok@)) == (old(self).ortho_context(normalize(tok@))
                | bits),
            forall|k: Seq<char>| k != normalize(tok@) ==> final(self).ortho_context(k) == old(
                self,
            ).ortho_context(k),
            final(self).abbrevs() == old(self).abbrevs(),
            final(self).sentence_starters() == old(self).sentence_starters(),
            final(self).collocations() == old(self).collocations(),
    {
        let chars: Vec<char> = str_to_chars(tok);
        self.add_orthographic_context_typ(&normalize_chars(&chars), bits);
    }

    /// ORs the given context bits into the byte recorded for an
    /// already-normalized spelling. Bits are only ever added: every
    /// previously recorded bit survives.
    pub(crate) fn add_orthographic_context_typ(&mut self, typ: &Vec<char>, bits: u8)
        ensures
            final(self).ortho_context(typ@) == (old(self).ortho_context(typ@) | bits),
            forall|k: Seq<char>| k != typ@ ==> final(self).ortho_context(k) == old(
                self,
            ).ortho_context(k),
            final(self).abbrevs() == old(self).abbrevs(),
            final(self).sentence_starters() == old(self).sentence_starters(),
            final(self).collocations() == old(self).collocations(),
    {
        let mut i: usize = self.ortho.len();
        while i > 0
            invariant
                i <= self.ortho@.len(),
                self.ortho@ == old(self).ortho@,
                self.abbrevs@ == old(self).abbrevs@,
                self.sentence_starters@ == old(self).sentence_starters@,
                self.collocations@ == old(self).collocations@,
                forall|j: int| i <= j < self.ortho@.len() ==> self.ortho@[j].0@ != typ@,
            decreases i,
        {
            i -= 1;
            if chars_eq(&self.ortho[i].0, typ) {
                proof {
                    lemma_ctx_of_at(self.ortho@, i as int, typ@);
                }
                let cur: u8 = self.ortho[i].1;
                let key: Vec<char> = copy_chars(&self.ortho[i].0);
                self.ortho[i] = (key, cur | bits);
                proof {
                    assert forall|k: Seq<char>|
                        ctx_of(self.ortho@, k) == if old(self).ortho@[i as int].0@ == k {
                            (cur | bits) as u8
                        } else {
                            ctx_of(old(self).ortho@, k)
                        } by {
                        lemma_ctx_of_update(
                            old(self).ortho@,
                            i as int,
                            (key, cur | bits),
                            k,
                        );
                    }
                }
                return ;
            }
        }
        proof {
            lemma_ctx_of_absent(self.ortho@, typ@);
            assert(0u8 | bits == bits) by (bit_vector);
        }
        let key: Vec<char> = copy_chars(typ);
        let ghost before: Seq<(Vec<char>, u8)> = self.ortho@;
        let ghost entry: (Vec<char>, u8) = (key, bits);
        self.ortho.push((key, bits));
        proof {
            assert forall|k: Seq<char>| ctx_of(self.ortho@, k) == if k == typ@ {
                bits
            } else {
                ctx_of(before, k)
            } by {
                lemma_ctx_of_push(before, entry, k);
            }
        }
    }
    /// Adds everything the other store has learned to this one: set union on
    /// the three spelling stores, bitwise OR on the orthographic bytes.
    /// Nothing this store already holds is lost.
    pub fn merge(&mut self, other: &TrainingData)
        ensures
            final(self).abbrevs() == old(self).abbrevs().union(other.abbrevs()),
            final(self).sentence_starters() == old(self).sentence_starters().union(
                other.sentence_starters(),
            ),
            final(self).collocations() == old(self).collocations().union(other.collocations()),
            forall|k: Seq<char>| final(self).ortho_context(k) == (old(self).ortho_context(k)
                | other.ortho_context(k)),
    {
        let mut i: usize = 0;
        while i < other.abbrevs.len()
            invariant
                i <= other.abbrevs@.len(),
                self.abbrevs() == old(self).abbrevs().union(
                    set_of(other.abbrevs@.subrange(0, i as int)),
                ),
                self.sentence_starters() == old(self).sentence_starters(),
                self.collocations() == old(self).collocations(),
                forall|k: Seq<char>| self.ortho_context(k) == old(self).ortho_context(k),
            decreases other.abbrevs@.len() - i,
        {
            self.insert_abbrev_typ(copy_chars(&other.abbrevs[i]));
            proof {
                assert(other.abbrevs@.subrange(0, i + 1) =~= other.abbrevs@.subrange(
                    0,
                    i as int,
                ).push(other.abbrevs@[i as int]));
                lemma_set_of_push(other.abbrevs@.subrange(0, i as int), other.abbrevs@[i as int]);
                assert(old(self).abbrevs().union(
                    set_of(other.abbrevs@.subrange(0, i as int)),
                ).insert(other.abbrevs@[i as int]@) =~= old(self).abbrevs().union(
                    set_of(other.abbrevs@.subrange(0, i + 1)),
                ));
            }
            i += 1;
        }
        proof {
            assert(other.abbrevs@.subrange(0, other.abbrevs@.len() as int) =~= other.abbrevs@);
        }
        let mut i: usize = 0;
        while i < other.sentence_starters.len()
            invariant
                i <= other.sentence_starters@.len(),
                self.abbrevs() == old(self).abbrevs().union(other.abbrevs()),
                self.sentence_starters() == old(self).sentence_starters().union(
                    set_of(other.sentence_starters@.subrange(0, i as int)),
                ),
                self.collocations() == old(self).collocations(),
                forall|k: Seq<char>| self.ortho_context(k) == old(self).ortho_context(k),
            decreases other.sentence_starters@.len() - i,
        {
            self.insert_sentence_starter_typ(copy_chars(&other.sentence_starters[i]));
            proof {
                assert(other.sentence_starters@.subrange(0, i + 1)
                    =~= other.sentence_starters@.subrange(0, i as int).push(
                    other.sentence_starters@[i as int],
                ));
                lemma_set_of_push(
                    other.sentence_starters@.subrange(0, i as int),
                    other.sentence_starters@[i as int],
                );
                assert(old(self).sentence_starters().union(
                    set_of(other.sentence_starters@.subrange(0, i as int)),
                ).insert(other.sentence_starters@[i as int]@) =~= old(
                    self,
                ).sentence_starters().union(
                    set_of(other.sentence_starters@.subrange(0, i + 1)),
                ));
            }
            i += 1;
        }
        proof {
            assert(other.sentence_starters@.subrange(0, other.sentence_starters@.len() as int)
                =~= other.sentence_starters@);
        }
        let mut i: usize = 0;
        while i < other.collocations.len()
            invariant
                i <= other.collocations@.len(),
                self.abbrevs() == old(self).abbrevs().union(other.abbrevs()),
                self.sentence_starters() == old(self).sentence_starters().union(
                    other.sentence_starters(),
                ),
                self.collocations() == old(self).collocations().union(
                    pair_set_of(other.collocations@.subrange(0, i as int)),
                ),
                forall|k: Seq<char>| self.ortho_context(k) == old(self).ortho_context(k),
            decreases other.collocations@.len() - i,
        {
            let first: Vec<char> = copy_chars(&other.collocations[i].0);
            let second: Vec<char> = copy_chars(&other.collocations[i].1);
            self.insert_collocation_typ(first, second);
            proof {
                assert(other.collocations@.subrange(0, i + 1) =~= other.collocations@.subrange(
                    0,
                    i as int,
                ).push(other.collocations@[i as int]));
                lemma_pair_set_of_push(
                    other.collocations@.subrange(0, i as int),
                    other.collocations@[i as int],
                );
                assert(old(self).collocations().union(
                    pair_set_of(other.collocations@.subrange(0, i as int)),
                ).insert(
                    (other.collocations@[i as int].0@, other.collocations@[i as int].1@),
                ) =~= old(self).collocations().union(
                    pair_set_of(other.collocations@.subrange(0, i + 1)),
                ));
            }
            i += 1;
        }
        proof {
            assert(other.collocations@.subrange(0, other.collocations@.len() as int)
                =~= other.collocations@);
        }
        let mut i: usize = 0;
        while i < other.ortho.len()
            invariant
                i <= other.ortho@.len(),
                self.abbrevs() == old(self).abbrevs().union(other.abbrevs()),
                self.sentence_starters() == old(self).sentence_starters().union(
                    other.sentence_starters(),
                ),
                self.collocations() == old(self).collocations().union(other.collocations()),
                forall|k: Seq<char>|
                    self.ortho_context(k) == if exists|j: int|
                        0 <= j < i && other.ortho@[j].0@ == k {
                        (old(self).ortho_context(k) | other.ortho_context(k)) as u8
                    } else {
                        old(self).ortho_context(k)
                    },
            decreases other.ortho@.len() - i,
        {
            let key: Vec<char> = copy_chars(&other.ortho[i].0);
            let bits: u8 = other.get_orthographic_context_typ(&key);
            let ghost mid: TrainingData = *self;
            self.add_orthographic_context_typ(&key, bits);
            proof {
                assert forall|k: Seq<char>|
                    self.ortho_context(k) == if exists|j: int|
                        0 <= j < i + 1 && other.ortho@[j].0@ == k {
                        (old(self).ortho_context(k) | other.ortho_context(k)) as u8
                    } else {
                        old(self).ortho_context(k)
                    } by {
                    if k == key@ {
                        assert(other.ortho@[i as int].0@ == k);
                        if exists|j: int| 0 <= j < i && other.ortho@[j].0@ == k {
                            let a = old(self).ortho_context(k);
                            let b = other.ortho_context(k);
                            assert(((a | b) | b) == (a | b)) by (bit_vector);
                        }
                    } else {
                        if exists|j: int| 0 <= j < i + 1 && other.ortho@[j].0@ == k {
                            let j = choose|j: int| 0 <= j < i + 1 && other.ortho@[j].0@ == k;
                            assert(0 <= j < i && other.ortho@[j].0@ == k);
                        }
                    }
                }
            }
            i += 1;
        }
        proof {
            assert forall|k: Seq<char>| final(self).ortho_context(k) == (old(self).ortho_context(k)
                | other.ortho_context(k)) by {
                if !(exists|j: int| 0 <= j < other.ortho@.len() && other.ortho@[j].0@ == k) {
                    lemma_ctx_of_absent(other.ortho@, k);
                    let a = old(self).ortho_context(k);
                    assert((a | 0) == a) by (bit_vector);
                }
            }
        }
    }

    /// The learned abbreviation spellings, as owned copies.
    pub fn abbrev_list(&self) -> (r: Vec<Vec<char>>)
        ensures
            set_of(r@) == self.abbrevs(),
    {
        let r: Vec<Vec<char>> = copy_spellings(&self.abbrevs);
        proof {
            lemma_set_of_pointwise(r@, self.abbrevs@);
        }
        r
    }

    /// The learned sentence-starter spellings, as owned copies.
    pub fn sentence_starter_list(&self) -> (r: Vec<Vec<char>>)
        ensures
            set_of(r@) == self.sentence_starters(),
    {
        let r: Vec<Vec<char>> = copy_spellings(&self.sentence_starters);
        proof {
            lemma_set_of_pointwise(r@, self.sentence_starters@);
        }
        r
    }

    /// The learned collocations, as owned copies.
    pub fn collocation_list(&self) -> (r: Vec<(Vec<char>, Vec<char>)>)
        ensures
            pair_set_of(r@) == self.collocations(),
    {
        let mut r: Vec<(Vec<char>, Vec<char>)> = Vec::new();
        let mut i: usize = 0;
        while i < self.collocations.len()
            invariant
                i <= self.collocations@.len(),
                r@.len() == i,
                forall|j: int| 0 <= j < i ==> (#[trigger] r@[j]).0@ == self.collocations@[j].0@
                    && r@[j].1@ == self.collocations@[j].1@,
            decreases self.collocations@.len() - i,
        {
            r.push((copy_chars(&self.collocations[i].0), copy_chars(&self.collocations[i].1)));
            i += 1;
        }
        proof {
            assert forall|p: (Seq<char>, Seq<char>)| pair_set_of(r@).contains(p) implies
                pair_set_of(self.collocations@).contains(p) by {
                let j = choose|j: int| 0 <= j < r@.len() && r@[j].0@ == p.0 && r@[j].1@ == p.1;
                assert(self.collocations@[j].0@ == p.0 && self.collocations@[j].1@ == p.1);
            }
            assert forall|p: (Seq<char>, Seq<char>)| pair_set_of(self.collocations@).contains(
                p,
            ) implies pair_set_of(r@).contains(p) by {
                let j = choose|j: int|
                    0 <= j < self.collocations@.len() && self.collocations@[j].0@ == p.0
                        && self.collocations@[j].1@ == p.1;
                assert(r@[j].0@ == p.0 && r@[j].1@ == p.1);
            }
            assert(pair_set_of(r@) =~= pair_set_of(self.collocations@));
        }
        r
    }

    /// The recorded orthographic entries: each listed spelling with its
    /// accumulated context byte, and every spelling with a nonzero byte
    /// listed.
    pub fn ortho_entries(&self) -> (r: Vec<(Vec<char>, u8)>)
        ensures
            forall|i: int| 0 <= i < r@.len() ==> (#[trigger] r@[i]).1 == self.ortho_context(
                r@[i].0@,
            ),
            forall|k: Seq<char>| self.ortho_context(k) != 0 ==> exists|i: int|
                0 <= i < r@.len() && (#[trigger] r@[i]).0@ == k,
    {
        let mut r: Vec<(Vec<char>, u8)> = Vec::new();
        let mut i: usize = 0;
        while i < self.ortho.len()
            invariant
                i <= self.ortho@.len(),
                r@.len() == i,
                forall|j: int| 0 <= j < i ==> (#[trigger] r@[j]).0@ == self.ortho@[j].0@
                    && r@[j].1 == self.ortho_context(r@[j].0@),
            decreases self.ortho@.len() - i,
        {
            let key: Vec<char> = copy_chars(&self.ortho[i].0);
            let v: u8 = self.get_orthographic_context_typ(&key);
            r.push((key, v));
            i += 1;
        }
        proof {
            assert forall|k: Seq<char>| self.ortho_context(k) != 0 implies exists|i: int|
                0 <= i < r@.len() && (#[trigger] r@[i]).0@ == k by {
                lemma_ctx_of_nonzero_has_key(self.ortho@, k);
                let j = choose|j: int|
                    0 <= j < self.ortho@.len() && (#[trigger] self.ortho@[j]).0@ == k;
                assert((r@[j]).0@ == k);
            }
        }
        r
    }
}

/// Merging identical knowledge is idempotent: the union of a store's
/// spelling sets with themselves, and the OR of each context byte with
/// itself, leave every store unchanged. Training twice on identical text
/// therefore adds nothing the first pass did not.
pub proof fn lemma_merge_self_idempotent(d: TrainingData)
    ensures
        d.abbrevs().union(d.abbrevs()) == d.abbrevs(),
        d.sentence_starters().union(d.sentence_starters()) == d.sentence_starters(),
        d.collocations().union(d.collocations()) == d.collocations(),
        forall|k: Seq<char>| (d.ortho_context(k) | d.ortho_context(k)) == d.ortho_context(k),
{
    assert(d.abbrevs().union(d.abbrevs()) =~= d.abbrevs());
    assert(d.sentence_starters().union(d.sentence_starters()) =~= d.sentence_starters());
    assert(d.collocations().union(d.collocations()) =~= d.collocations());
    assert forall|k: Seq<char>| (d.ortho_context(k) | d.ortho_context(k)) == d.ortho_context(
        k,
    ) by {
        let x = d.ortho_context(k);
        assert((x | x) == x) by (bit_vector);
    }
}

/// Orthographic accumulation is monotonic: ORing new evidence into a
/// context byte keeps every bit that was already set.
pub proof fn lemma_ortho_accumulation_monotonic(prev: u8, bits: u8, mask: u8)
    ensures
        prev & mask == mask ==> ((prev | bits) & mask) == mask,
{
    assert(prev & mask == mask ==> ((prev | bits) & mask) == mask) by (bit_vector);
}

proof fn lemma_ctx_of_absent(entries: Seq<(Vec<char>, u8)>, k: Seq<char>)
    requires
        forall|i: int| 0 <= i < entries.len() ==> entries[i].0@ != k,
    ensures
        ctx_of(entries, k) == 0,
    decreases entries.len(),
{
    if entries.len() > 0 {
        lemma_ctx_of_absent(entries.drop_last(), k);
    }
}

} // verus!
