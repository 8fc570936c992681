//! Character classes and spelling normalization.
//!
//! Spellings are compared case-insensitively with a single trailing period
//! stripped, so every stored spelling is kept in this normalized form.

use vstd::prelude::*;

verus! {

/// Whitespace for the purposes of word-level pre-tokenization.
pub open spec fn is_space(c: char) -> bool {
    c == ' ' || c == '\t' || c == '\r' || c == '\n'
}

/// ASCII uppercase letter.
pub open spec fn is_upper(c: char) -> bool {
    'A' <= c && c <= 'Z'
}

/// ASCII lowercase letter.
pub open spec fn is_lower(c: char) -> bool {
    'a' <= c && c <= 'z'
}

/// ASCII letter.
pub open spec fn is_letter(c: char) -> bool {
    is_upper(c) || is_lower(c)
}

/// ASCII digit.
pub open spec fn is_digit(c: char) -> bool {
    '0' <= c && c <= '9'
}

/// Lower-cased form of a character (ASCII case folding).
pub open spec fn lower_char(c: char) -> char {
    if is_upper(c) {
        (((c as u8) + 32) as char)
    } else {
        c
    }
}

/// Lower-cased form of a spelling.
pub open spec fn lower_seq(s: Seq<char>) -> Seq<char> {
    s.map_values(|c: char| lower_char(c))
}

/// The spelling with a single trailing period removed, if one is present.
pub open spec fn strip_period(s: Seq<char>) -> Seq<char> {
    if s.len() > 0 && s.last() == '.' {
        s.drop_last()
    } else {
        s
    }
}

/// Normalized form used as the key of every learned set: trailing period
/// stripped, then lower-cased.
pub open spec fn normalize(s: Seq<char>) -> Seq<char> {
    lower_seq(strip_period(s))
}

pub fn char_is_space(c: char) -> (r: bool)
    ensures
        r == is_space(c),
{
    c == ' ' || c == '\t' || c == '\r' || c == '\n'
}

pub fn char_is_upper(c: char) -> (r: bool)
    ensures
        r == is_upper(c),
{
    'A' <= c && c <= 'Z'
}

pub fn char_is_lower(c: char) -> (r: bool)
    ensures
        r == is_lower(c),
{
    'a' <= c && c <= 'z'
}

pub fn char_is_letter(c: char) -> (r: bool)
    ensures
        r == is_letter(c),
{
    char_is_upper(c) || char_is_lower(c)
}

pub fn char_is_digit(c: char) -> (r: bool)
    ensures
        r == is_digit(c),
{
    '0' <= c && c <= '9'
}

pub fn char_to_lower(c: char) -> (r: char)
    ensures
        r == lower_char(c),
{
    if 'A' <= c && c <= 'Z' {
        ((c as u8) + 32) as char
    } else {
        c
    }
}

/// The characters of a string, in order, as a vector.
pub fn str_to_chars(s: &str) -> (v: Vec<char>)
    ensures
        v@ == s@,
{
    let n: usize = s.unicode_len();
    let mut v: Vec<char> = Vec::new();
    let mut i: usize = 0;
    while i < n
        invariant
            n == s@.len(),
            i <= n,
            v@ == s@.subrange(0, i as int),
        decreases n - i,
    {
        v.push(s.get_char(i));
        i += 1;
    }
    proof {
        assert(v@ =~= s@);
    }
    v
}

/// The part of a spelling after its last hyphen; the whole spelling when it
/// has no hyphen.
pub open spec fn hyphen_suffix(s: Seq<char>) -> Seq<char>
    decreases s.len(),
{
    if s.len() == 0 {
        s
    } else if s.last() == '-' {
        Seq::empty()
    } else {
        hyphen_suffix(s.drop_last()).push(s.last())
    }
}

proof fn lemma_hyphen_suffix_no_dash(s: Seq<char>)
    requires
        forall|i: int| 0 <= i < s.len() ==> s[i] != '-',
    ensures
        hyphen_suffix(s) =~= s,
    decreases s.len(),
{
    if s.len() > 0 {
        lemma_hyphen_suffix_no_dash(s.drop_last());
    }
}

proof fn lemma_hyphen_suffix_at(s: Seq<char>, p: int)
    requires
        0 <= p < s.len(),
        s[p] == '-',
        forall|j: int| p < j < s.len() ==> s[j] != '-',
    ensures
        hyphen_suffix(s) =~= s.subrange(p + 1, s.len() as int),
    decreases s.len(),
{
    if p == s.len() - 1 {
    } else {
        lemma_hyphen_suffix_at(s.drop_last(), p);
        assert(s.drop_last().subrange(p + 1, s.drop_last().len() as int) =~= s.subrange(
            p + 1,
            s.len() - 1,
        ));
        assert(s.subrange(p + 1, s.len() - 1).push(s.last()) =~= s.subrange(
            p + 1,
            s.len() as int,
        ));
    }
}

/// The characters after the last hyphen of a spelling; the whole spelling
/// when it has none.
pub fn hyphen_suffix_chars(s: &Vec<char>) -> (r: Vec<char>)
    ensures
        r@ == hyphen_suffix(s@),
{
    let mut i: usize = s.len();
    while i > 0
        invariant
            i <= s@.len(),
            forall|j: int| i <= j < s@.len() ==> s@[j] != '-',
        decreases i,
    {
        i -= 1;
        if s[i] == '-' {
            proof {
                lemma_hyphen_suffix_at(s@, i as int);
            }
            let mut r: Vec<char> = Vec::new();
            let mut j: usize = i + 1;
            while j < s.len()
                invariant
                    i + 1 <= j <= s@.len(),
                    r@ == s@.subrange(i + 1, j as int),
                decreases s@.len() - j,
            {
                r.push(s[j]);
                proof {
                    assert(r@ =~= s@.subrange(i + 1, j + 1));
                }
                j += 1;
            }
            return r;
        }
    }
    proof {
        lemma_hyphen_suffix_no_dash(s@);
    }
    copy_chars(s)
}

/// The normalized form of a spelling: trailing period stripped, then
/// lower-cased.
pub fn normalize_chars(s: &Vec<char>) -> (r: Vec<char>)
    ensures
        r@ == normalize(s@),
{
    let mut t: Vec<char> = copy_chars(s);
    if t.len() > 0 && t[t.len() - 1] == '.' {
        t.pop();
    }
    to_lower(&t)
}

/// An owned copy of a spelling.
pub fn copy_chars(s: &Vec<char>) -> (r: Vec<char>)
    ensures
        r@ == s@,
{
    let mut r: Vec<char> = Vec::new();
    let mut i: usize = 0;
    while i < s.len()
        invariant
            i <= s@.len(),
            r@ == s@.subrange(0, i as int),
        decreases s@.len() - i,
    {
        r.push(s[i]);
        i += 1;
    }
    proof {
        assert(r@ =~= s@);
    }
    r
}

/// Lower-cases a spelling character by character.
pub fn to_lower(s: &Vec<char>) -> (r: Vec<char>)
    ensures
        r@ == lower_seq(s@),
{
    let mut r: Vec<char> = Vec::new();
    let mut i: usize = 0;
    while i < s.len()
        invariant
            i <= s@.len(),
            r@ == lower_seq(s@.subrange(0, i as int)),
        decreases s@.len() - i,
    {
        r.push(char_to_lower(s[i]));
        proof {
            assert(r@ =~= lower_seq(s@.subrange(0, i + 1)));
        }
        i += 1;
    }
    proof {
        assert(s@.subrange(0, s@.len() as int) =~= s@);
    }
    r
}

} // verus!
