//! Persistence of the knowledge store.
//!
//! A store is persisted as text: one record per line, tagged by store, with
//! a single space between fields. An orthographic context byte is written as
//! exactly three decimal digits. Spellings learned from training are
//! whitespace-free, so the format is unambiguous for them; a malformed
//! persisted text fails to load with the offending line's number.

use vstd::prelude::*;
use crate::training_data::TrainingData;

verus! {

/// One persisted record of the knowledge store.
pub enum Record {
    Abbrev(Vec<char>),
    Starter(Vec<char>),
    Collocation(Vec<char>, Vec<char>),
    Ortho(Vec<char>, u8),
}

/// What was wrong with a persisted line.
#[derive(Debug, PartialEq, Eq, Structural, Clone, Copy)]
pub enum ParseErrorKind {
    /// The line does not start with a known record tag and a space.
    UnknownTag,
    /// A spelling field is empty or the line ends too early.
    MissingField,
    /// The orthographic context byte is not three decimal digits.
    BadContextByte,
}

/// A rejected persisted text: the line that failed, counting from one, and
/// why.
#[derive(Debug, PartialEq, Eq, Structural, Clone, Copy)]
pub struct ParseError {
    pub line: usize,
    pub kind: ParseErrorKind,
}

/// The record separator.
pub open spec fn spec_newline() -> char {
    '\n'
}

/// The decimal digit character for a value below ten.
pub open spec fn spec_digit_char(d: int) -> char {
    ((48 + d) as u8) as char
}

/// An orthographic context byte as exactly three decimal digits.
pub open spec fn spec_digits3(v: int) -> Seq<char> {
    seq![spec_digit_char(v / 100), spec_digit_char((v / 10) % 10), spec_digit_char(v % 10)]
}

/// The persisted line for one record.
pub open spec fn spec_render_record(r: Record) -> Seq<char> {
    match r {
        Record::Abbrev(s) => seq!['a', ' '] + s@ + seq![spec_newline()],
        Record::Starter(s) => seq!['s', ' '] + s@ + seq![spec_newline()],
        Record::Collocation(x, y) => seq!['c', ' '] + x@ + seq![' '] + y@ + seq![spec_newline()],
        Record::Ortho(k, v) => seq!['o', ' '] + k@ + seq![' '] + spec_digits3(v as int) + seq![spec_newline()],
    }
}

/// The persisted text for a record sequence.
pub open spec fn spec_render(recs: Seq<Record>) -> Seq<char>
    decreases recs.len(),
{
    if recs.len() == 0 {
        Seq::empty()
    } else {
        spec_render(recs.drop_last()) + spec_render_record(recs.last())
    }
}

/// The abbreviations a record sequence carries.
pub open spec fn spec_records_abbrevs(recs: Seq<Record>) -> Set<Seq<char>> {
    Set::new(
        |s: Seq<char>|
            exists|i: int| 0 <= i < recs.len() && ((#[trigger] recs[i]) matches Record::Abbrev(v)
                && v@ == s),
    )
}

/// The sentence starters a record sequence carries.
pub open spec fn spec_records_starters(recs: Seq<Record>) -> Set<Seq<char>> {
    Set::new(
        |s: Seq<char>|
            exists|i: int| 0 <= i < recs.len() && ((#[trigger] recs[i]) matches Record::Starter(v)
                && v@ == s),
    )
}

/// The collocations a record sequence carries.
pub open spec fn spec_records_collocations(recs: Seq<Record>) -> Set<(Seq<char>, Seq<char>)> {
    Set::new(
        |p: (Seq<char>, Seq<char>)|
            exists|i: int| 0 <= i < recs.len() && ((#[trigger] recs[i]) matches Record::Collocation(
                x,
                y,
            ) && x@ == p.0 && y@ == p.1),
    )
}

/// The orthographic context byte a record sequence carries for a spelling:
/// the OR of every recorded byte for it.
pub open spec fn spec_records_ortho(recs: Seq<Record>, k: Seq<char>) -> u8
    decreases recs.len(),
{
    if recs.len() == 0 {
        0
    } else {
        spec_records_ortho(recs.drop_last(), k) | (if (recs.last() matches Record::Ortho(key, v)
            && key@ == k) {
            recs.last()->Ortho_1
        } else {
            0
        })
    }
}

proof fn lemma_render_push(recs: Seq<Record>, r: Record)
    ensures
        spec_render(recs.push(r)) == spec_render(recs) + spec_render_record(r),
{
    assert(recs.push(r).drop_last() =~= recs);
}

proof fn lemma_records_ortho_push(recs: Seq<Record>, r: Record, k: Seq<char>)
    ensures
        spec_records_ortho(recs.push(r), k) == (spec_records_ortho(recs, k) | (if (
        r matches Record::Ortho(key, v) && key@ == k) {
            r->Ortho_1
        } else {
            0u8
        })),
{
    assert(recs.push(r).drop_last() =~= recs);
}

proof fn lemma_records_abbrevs_push(recs: Seq<Record>, r: Record)
    ensures
        spec_records_abbrevs(recs.push(r)) =~= (if (r matches Record::Abbrev(v)) {
            spec_records_abbrevs(recs).insert(r->Abbrev_0@)
        } else {
            spec_records_abbrevs(recs)
        }),
{
    let pushed = recs.push(r);
    assert forall|s: Seq<char>| spec_records_abbrevs(pushed).contains(s) implies (
    spec_records_abbrevs(recs).contains(s) || (r matches Record::Abbrev(v) && r->Abbrev_0@
        == s)) by {
        let i = choose|i: int|
            0 <= i < pushed.len() && ((#[trigger] pushed[i]) matches Record::Abbrev(v) && v@ == s);
        if i < recs.len() {
            assert(recs[i] matches Record::Abbrev(v) && recs[i]->Abbrev_0@ == s);
        }
    }
    assert forall|s: Seq<char>| spec_records_abbrevs(recs).contains(s) implies
        spec_records_abbrevs(pushed).contains(s) by {
        let i = choose|i: int|
            0 <= i < recs.len() && ((#[trigger] recs[i]) matches Record::Abbrev(v) && v@ == s);
        assert(pushed[i] matches Record::Abbrev(v) && pushed[i]->Abbrev_0@ == s);
    }
    if r is Abbrev {
        assert(pushed[recs.len() as int] is Abbrev && pushed[recs.len() as int]->Abbrev_0@ == r
            ->Abbrev_0@);
    }
}

proof fn lemma_records_starters_push(recs: Seq<Record>, r: Record)
    ensures
        spec_records_starters(recs.push(r)) =~= (if (r matches Record::Starter(v)) {
            spec_records_starters(recs).insert(r->Starter_0@)
        } else {
            spec_records_starters(recs)
        }),
{
    let pushed = recs.push(r);
    assert forall|s: Seq<char>| spec_records_starters(pushed).contains(s) implies (
    spec_records_starters(recs).contains(s) || (r matches Record::Starter(v) && r->Starter_0@
        == s)) by {
        let i = choose|i: int|
            0 <= i < pushed.len() && ((#[trigger] pushed[i]) matches Record::Starter(v) && v@ == s);
        if i < recs.len() {
            assert(recs[i] matches Record::Starter(v) && recs[i]->Starter_0@ == s);
        }
    }
    assert forall|s: Seq<char>| spec_records_starters(recs).contains(s) implies
        spec_records_starters(pushed).contains(s) by {
        let i = choose|i: int|
            0 <= i < recs.len() && ((#[trigger] recs[i]) matches Record::Starter(v) && v@ == s);
        assert(pushed[i] matches Record::Starter(v) && pushed[i]->Starter_0@ == s);
    }
    if r is Starter {
        assert(pushed[recs.len() as int] is Starter && pushed[recs.len() as int]->Starter_0@ == r
            ->Starter_0@);
    }
}

proof fn lemma_records_collocations_push(recs: Seq<Record>, r: Record)
    ensures
        spec_records_collocations(recs.push(r)) =~= (if (r matches Record::Collocation(x, y)) {
            spec_records_collocations(recs).insert((r->Collocation_0@, r->Collocation_1@))
        } else {
            spec_records_collocations(recs)
        }),
{
    let pushed = recs.push(r);
    assert forall|p: (Seq<char>, Seq<char>)| spec_records_collocations(pushed).contains(p) implies (
    spec_records_collocations(recs).contains(p) || (r matches Record::Collocation(x, y)
        && r->Collocation_0@ == p.0 && r->Collocation_1@ == p.1)) by {
        let i = choose|i: int|
            0 <= i < pushed.len() && ((#[trigger] pushed[i]) matches Record::Collocation(x, y)
                && x@ == p.0 && y@ == p.1);
        if i < recs.len() {
            assert(recs[i] matches Record::Collocation(x, y) && recs[i]->Collocation_0@ == p.0
                && recs[i]->Collocation_1@ == p.1);
        }
    }
    assert forall|p: (Seq<char>, Seq<char>)| spec_records_collocations(recs).contains(p) implies
        spec_records_collocations(pushed).contains(p) by {
        let i = choose|i: int|
            0 <= i < recs.len() && ((#[trigger] recs[i]) matches Record::Collocation(x, y) && x@
                == p.0 && y@ == p.1);
        assert(pushed[i] matches Record::Collocation(x, y) && pushed[i]->Collocation_0@ == p.0
            && pushed[i]->Collocation_1@ == p.1);
    }
    if r is Collocation {
        assert(pushed[recs.len() as int] is Collocation && pushed[recs.len() as int]
            ->Collocation_0@ == r->Collocation_0@ && pushed[recs.len() as int]->Collocation_1@
            == r->Collocation_1@);
    }
}

/// Appends a spelling's characters.
fn push_spelling(out: &mut Vec<char>, s: &Vec<char>)
    ensures
        final(out)@ == old(out)@ + s@,
{
    let mut j: usize = 0;
    while j < s.len()
        invariant
            j <= s@.len(),
            out@ == old(out)@ + s@.subrange(0, j as int),
        decreases s@.len() - j,
    {
        out.push(s[j]);
        proof {
            assert(out@ =~= old(out)@ + s@.subrange(0, j + 1));
        }
        j += 1;
    }
    proof {
        assert(old(out)@ + s@.subrange(0, s@.len() as int) =~= old(out)@ + s@);
    }
}

/// Appends an orthographic context byte as exactly three decimal digits.
fn push_digits3(out: &mut Vec<char>, v: u8)
    ensures
        final(out)@ == old(out)@ + spec_digits3(v as int),
{
    let d0: u8 = v / 100;
    let d1: u8 = (v / 10) % 10;
    let d2: u8 = v % 10;
    out.push((48 + d0) as char);
    out.push((48 + d1) as char);
    out.push((48 + d2) as char);
    proof {
        assert(out@ =~= old(out)@ + spec_digits3(v as int));
    }
}

/// Persists the knowledge store: the rendered text of a record sequence
/// carrying exactly the store's contents.
pub fn serialize_training_data(data: &TrainingData) -> (r: Vec<char>)
    ensures
        exists|recs: Seq<Record>|
            r@ == spec_render(recs) && spec_records_abbrevs(recs) == data.abbrevs()
                && spec_records_starters(recs) == data.sentence_starters()
                && spec_records_collocations(recs) == data.collocations() && (forall|k: Seq<char>|
                spec_records_ortho(recs, k) == data.ortho_context(k)),
{
    let mut out: Vec<char> = Vec::new();
    let ghost mut recs: Seq<Record> = Seq::empty();
    let abbrevs: Vec<Vec<char>> = data.abbrev_list();
    let mut i: usize = 0;
    while i < abbrevs.len()
        invariant
            crate::training_data::set_of(abbrevs@) == data.abbrevs(),
            i <= abbrevs@.len(),
            out@ == spec_render(recs),
            spec_records_abbrevs(recs) =~= crate::training_data::set_of(
                abbrevs@.subrange(0, i as int),
            ),
            spec_records_starters(recs) =~= Set::<Seq<char>>::empty(),
            spec_records_collocations(recs) =~= Set::<(Seq<char>, Seq<char>)>::empty(),
            forall|k: Seq<char>| spec_records_ortho(recs, k) == 0,
        decreases abbrevs@.len() - i,
    {
        let ghost prev: Seq<char> = out@;
        out.push('a');
        out.push(' ');
        push_spelling(&mut out, &abbrevs[i]);
        out.push('\n');
        proof {
            let rec = Record::Abbrev(abbrevs@[i as int]);
            lemma_render_push(recs, rec);
            assert(out@ =~= spec_render(recs) + spec_render_record(rec));
            lemma_records_abbrevs_push(recs, rec);
            lemma_records_starters_push(recs, rec);
            lemma_records_collocations_push(recs, rec);
            assert forall|k: Seq<char>| spec_records_ortho(recs.push(rec), k) == 0 by {
                lemma_records_ortho_push(recs, rec, k);
                assert(0u8 | 0u8 == 0u8) by (bit_vector);
            }
            recs = recs.push(rec);
            assert(abbrevs@.subrange(0, i + 1) =~= abbrevs@.subrange(0, i as int).push(
                abbrevs@[i as int],
            ));
            crate::training_data::lemma_set_of_push(
                abbrevs@.subrange(0, i as int),
                abbrevs@[i as int],
            );
        }
        i += 1;
    }
    proof {
        assert(abbrevs@.subrange(0, abbrevs@.len() as int) =~= abbrevs@);
    }
    let starters: Vec<Vec<char>> = data.sentence_starter_list();
    let mut i: usize = 0;
    while i < starters.len()
        invariant
            crate::training_data::set_of(starters@) == data.sentence_starters(),
            i <= starters@.len(),
            out@ == spec_render(recs),
            spec_records_abbrevs(recs) =~= data.abbrevs(),
            spec_records_starters(recs) =~= crate::training_data::set_of(
                starters@.subrange(0, i as int),
            ),
            spec_records_collocations(recs) =~= Set::<(Seq<char>, Seq<char>)>::empty(),
            forall|k: Seq<char>| spec_records_ortho(recs, k) == 0,
        decreases starters@.len() - i,
    {
        out.push('s');
        out.push(' ');
        push_spelling(&mut out, &starters[i]);
        out.push('\n');
        proof {
            let rec = Record::Starter(starters@[i as int]);
            lemma_render_push(recs, rec);
            assert(out@ =~= spec_render(recs) + spec_render_record(rec));
            lemma_records_abbrevs_push(recs, rec);
            lemma_records_starters_push(recs, rec);
            lemma_records_collocations_push(recs, rec);
            assert forall|k: Seq<char>| spec_records_ortho(recs.push(rec), k) == 0 by {
                lemma_records_ortho_push(recs, rec, k);
                assert(0u8 | 0u8 == 0u8) by (bit_vector);
            }
            recs = recs.push(rec);
            assert(starters@.subrange(0, i + 1) =~= starters@.subrange(0, i as int).push(
                starters@[i as int],
            ));
            crate::training_data::lemma_set_of_push(
                starters@.subrange(0, i as int),
                starters@[i as int],
            );
        }
        i += 1;
    }
    proof {
        assert(starters@.subrange(0, starters@.len() as int) =~= starters@);
    }
    let collocations: Vec<(Vec<char>, Vec<char>)> = data.collocation_list();
    let mut i: usize = 0;
    while i < collocations.len()
        invariant
            crate::training_data::pair_set_of(collocations@) == data.collocations(),
            i <= collocations@.len(),
            out@ == spec_render(recs),
            spec_records_abbrevs(recs) =~= data.abbrevs(),
            spec_records_starters(recs) =~= data.sentence_starters(),
            spec_records_collocations(recs) =~= crate::training_data::pair_set_of(
                collocations@.subrange(0, i as int),
            ),
            forall|k: Seq<char>| spec_records_ortho(recs, k) == 0,
        decreases collocations@.len() - i,
    {
        out.push('c');
        out.push(' ');
        push_spelling(&mut out, &collocations[i].0);
        out.push(' ');
        push_spelling(&mut out, &collocations[i].1);
        out.push('\n');
        proof {
            let rec = Record::Collocation(collocations@[i as int].0, collocations@[i as int].1);
            lemma_render_push(recs, rec);
            assert(out@ =~= spec_render(recs) + spec_render_record(rec));
            lemma_records_abbrevs_push(recs, rec);
            lemma_records_starters_push(recs, rec);
            lemma_records_collocations_push(recs, rec);
            assert forall|k: Seq<char>| spec_records_ortho(recs.push(rec), k) == 0 by {
                lemma_records_ortho_push(recs, rec, k);
                assert(0u8 | 0u8 == 0u8) by (bit_vector);
            }
            recs = recs.push(rec);
            assert(collocations@.subrange(0, i + 1) =~= collocations@.subrange(0, i as int).push(
                collocations@[i as int],
            ));
            crate::training_data::lemma_pair_set_of_push(
                collocations@.subrange(0, i as int),
                collocations@[i as int],
            );
        }
        i += 1;
    }
    proof {
        assert(collocations@.subrange(0, collocations@.len() as int) =~= collocations@);
    }
    let ortho: Vec<(Vec<char>, u8)> = data.ortho_entries();
    let mut i: usize = 0;
    while i < ortho.len()
        invariant
            forall|j: int| 0 <= j < ortho@.len() ==> (#[trigger] ortho@[j]).1 == data.ortho_context(
                ortho@[j].0@,
            ),
            forall|k: Seq<char>| data.ortho_context(k) != 0 ==> exists|j: int|
                0 <= j < ortho@.len() && (#[trigger] ortho@[j]).0@ == k,
            i <= ortho@.len(),
            out@ == spec_render(recs),
            spec_records_abbrevs(recs) =~= data.abbrevs(),
            spec_records_starters(recs) =~= data.sentence_starters(),
            spec_records_collocations(recs) =~= data.collocations(),
            forall|k: Seq<char>|
                spec_records_ortho(recs, k) == if exists|j: int|
                    0 <= j < i && (#[trigger] ortho@[j]).0@ == k {
                    data.ortho_context(k)
                } else {
                    0u8
                },
        decreases ortho@.len() - i,
    {
        out.push('o');
        out.push(' ');
        push_spelling(&mut out, &ortho[i].0);
        out.push(' ');
        push_digits3(&mut out, ortho[i].1);
        out.push('\n');
        proof {
            let rec = Record::Ortho(ortho@[i as int].0, ortho@[i as int].1);
            lemma_render_push(recs, rec);
            assert(out@ =~= spec_render(recs) + spec_render_record(rec));
            lemma_records_abbrevs_push(recs, rec);
            lemma_records_starters_push(recs, rec);
            lemma_records_collocations_push(recs, rec);
            assert forall|k: Seq<char>|
                spec_records_ortho(recs.push(rec), k) == if exists|j: int|
                    0 <= j < i + 1 && (#[trigger] ortho@[j]).0@ == k {
                    data.ortho_context(k)
                } else {
                    0u8
                } by {
                lemma_records_ortho_push(recs, rec, k);
                if k == ortho@[i as int].0@ {
                    let v = data.ortho_context(k);
                    if exists|j: int| 0 <= j < i && (#[trigger] ortho@[j]).0@ == k {
                        assert((v | v) == v) by (bit_vector);
                    } else {
                        assert((0u8 | v) == v) by (bit_vector);
                    }
                    assert(ortho@[i as int].0@ == k);
                } else {
                    let v = spec_records_ortho(recs, k);
                    assert((v | 0u8) == v) by (bit_vector);
                    if exists|j: int| 0 <= j < i + 1 && (#[trigger] ortho@[j]).0@ == k {
                        let j = choose|j: int| 0 <= j < i + 1 && (#[trigger] ortho@[j]).0@ == k;
                        assert(0 <= j < i && ortho@[j].0@ == k);
                    }
                }
            }
            recs = recs.push(rec);
        }
        i += 1;
    }
    proof {
        assert forall|k: Seq<char>| spec_records_ortho(recs, k) == data.ortho_context(k) by {
            if !(exists|j: int| 0 <= j < ortho@.len() && (#[trigger] ortho@[j]).0@ == k) {
                assert(data.ortho_context(k) == 0);
            }
        }
        assert(spec_records_abbrevs(recs) == data.abbrevs());
        assert(spec_records_starters(recs) == data.sentence_starters());
        assert(spec_records_collocations(recs) == data.collocations());
    }
    out
}

/// Reads one field: the characters from `from` up to the first space or
/// newline.
fn read_field(text: &Vec<char>, from: usize) -> (r: (Vec<char>, usize))
    requires
        from <= text@.len(),
    ensures
        from <= r.1 <= text@.len(),
        r.0@ == text@.subrange(from as int, r.1 as int),
        forall|p: int| from <= p < r.1 ==> text@[p] != ' ' && text@[p] != '\n',
        r.1 < text@.len() ==> (text@[r.1 as int] == ' ' || text@[r.1 as int] == '\n'),
{
    let mut j: usize = from;
    let mut f: Vec<char> = Vec::new();
    while j < text.len() && text[j] != ' ' && text[j] != '\n'
        invariant
            from <= j <= text@.len(),
            f@ == text@.subrange(from as int, j as int),
            forall|p: int| from <= p < j ==> text@[p] != ' ' && text@[p] != '\n',
        decreases text@.len() - j,
    {
        f.push(text[j]);
        proof {
            assert(f@ =~= text@.subrange(from as int, j + 1));
        }
        j += 1;
    }
    (f, j)
}

/// Reloads a knowledge store persisted by [`serialize_training_data`].
///
/// On success the input is exactly the rendered text of a record sequence,
/// and the returned store holds exactly what those records carry. A
/// malformed line fails with its line number and what was wrong, and
/// nothing is returned.
#[verifier::rlimit(100)]
pub fn deserialize_training_data(text: &Vec<char>) -> (r: Result<TrainingData, ParseError>)
    ensures
        r is Ok ==> exists|recs: Seq<Record>|
            text@ == spec_render(recs) && r->Ok_0.abbrevs() == spec_records_abbrevs(recs)
                && r->Ok_0.sentence_starters() == spec_records_starters(recs)
                && r->Ok_0.collocations() == spec_records_collocations(recs) && (forall|
                k: Seq<char>,
            | r->Ok_0.ortho_context(k) == spec_records_ortho(recs, k)),
{
    let mut d: TrainingData = TrainingData::new();
    let ghost mut recs: Seq<Record> = Seq::empty();
    let mut i: usize = 0;
    let mut line_no: usize = 1;
    while i < text.len()
        invariant
            i <= text@.len(),
            text@.subrange(0, i as int) == spec_render(recs),
            d.abbrevs() == spec_records_abbrevs(recs),
            d.sentence_starters() == spec_records_starters(recs),
            d.collocations() == spec_records_collocations(recs),
            forall|k: Seq<char>| d.ortho_context(k) == spec_records_ortho(recs, k),
        decreases text@.len() - i,
    {
        let tag: char = text[i];
        if !(tag == 'a' || tag == 's' || tag == 'c' || tag == 'o') {
            return Result::Err(ParseError { line: line_no, kind: ParseErrorKind::UnknownTag });
        }
        if i + 1 >= text.len() || text[i + 1] != ' ' {
            return Result::Err(ParseError { line: line_no, kind: ParseErrorKind::UnknownTag });
        }
        let (f1, j) = read_field(text, i + 2);
        if f1.len() == 0 {
            return Result::Err(ParseError { line: line_no, kind: ParseErrorKind::MissingField });
        }
        if tag == 'a' || tag == 's' {
            if j >= text.len() || text[j] != '\n' {
                return Result::Err(
                    ParseError { line: line_no, kind: ParseErrorKind::MissingField },
                );
            }
            let ghost rec: Record = if tag == 'a' {
                Record::Abbrev(f1)
            } else {
                Record::Starter(f1)
            };
            proof {
                assert(text@.subrange(i as int, j + 1) =~= spec_render_record(rec));
                assert(text@.subrange(0, j + 1) =~= text@.subrange(0, i as int) + text@.subrange(
                    i as int,
                    j + 1,
                ));
                lemma_render_push(recs, rec);
                lemma_records_abbrevs_push(recs, rec);
                lemma_records_starters_push(recs, rec);
                lemma_records_collocations_push(recs, rec);
                assert forall|k: Seq<char>| spec_records_ortho(recs.push(rec), k)
                    == spec_records_ortho(recs, k) by {
                    lemma_records_ortho_push(recs, rec, k);
                    let v = spec_records_ortho(recs, k);
                    assert((v | 0u8) == v) by (bit_vector);
                }
            }
            if tag == 'a' {
                d.insert_abbrev_typ(f1);
            } else {
                d.insert_sentence_starter_typ(f1);
            }
            proof {
                recs = recs.push(rec);
            }
            i = j + 1;
        } else if tag == 'c' {
            if j >= text.len() || text[j] != ' ' {
                return Result::Err(
                    ParseError { line: line_no, kind: ParseErrorKind::MissingField },
                );
            }
            let (f2, j2) = read_field(text, j + 1);
            if f2.len() == 0 || j2 >= text.len() || text[j2] != '\n' {
                return Result::Err(
                    ParseError { line: line_no, kind: ParseErrorKind::MissingField },
                );
            }
            let ghost rec: Record = Record::Collocation(f1, f2);
            proof {
                assert(text@.subrange(i as int, j2 + 1) =~= spec_render_record(rec));
                assert(text@.subrange(0, j2 + 1) =~= text@.subrange(0, i as int) + text@.subrange(
                    i as int,
                    j2 + 1,
                ));
                lemma_render_push(recs, rec);
                lemma_records_abbrevs_push(recs, rec);
                lemma_records_starters_push(recs, rec);
                lemma_records_collocations_push(recs, rec);
                assert forall|k: Seq<char>| spec_records_ortho(recs.push(rec), k)
                    == spec_records_ortho(recs, k) by {
                    lemma_records_ortho_push(recs, rec, k);
                    let v = spec_records_ortho(recs, k);
                    assert((v | 0u8) == v) by (bit_vector);
                }
            }
            d.insert_collocation_typ(f1, f2);
            proof {
                recs = recs.push(rec);
            }
            i = j2 + 1;
        } else {
            if j >= text.len() || text[j] != ' ' {
                return Result::Err(
                    ParseError { line: line_no, kind: ParseErrorKind::MissingField },
                );
            }
            if text.len() - j <= 4 {
                return Result::Err(
                    ParseError { line: line_no, kind: ParseErrorKind::BadContextByte },
                );
            }
            let c0: char = text[j + 1];
            let c1: char = text[j + 2];
            let c2: char = text[j + 3];
            if !(crate::chars::char_is_digit(c0) && crate::chars::char_is_digit(c1)
                && crate::chars::char_is_digit(c2)) {
                return Result::Err(
                    ParseError { line: line_no, kind: ParseErrorKind::BadContextByte },
                );
            }
            if text[j + 4] != '\n' {
                return Result::Err(
                    ParseError { line: line_no, kind: ParseErrorKind::BadContextByte },
                );
            }
            let value: u32 = (c0 as u32 - 48) * 100 + (c1 as u32 - 48) * 10 + (c2 as u32 - 48);
            if value > 255 {
                return Result::Err(
                    ParseError { line: line_no, kind: ParseErrorKind::BadContextByte },
                );
            }
            let v: u8 = value as u8;
            let ghost rec: Record = Record::Ortho(f1, v);
            proof {
                let d0 = c0 as int - 48;
                let d1 = c1 as int - 48;
                let d2 = c2 as int - 48;
                assert(v as int == d0 * 100 + d1 * 10 + d2);
                assert((d0 * 100 + d1 * 10 + d2) / 100 == d0 && ((d0 * 100 + d1 * 10 + d2) / 10)
                    % 10 == d1 && (d0 * 100 + d1 * 10 + d2) % 10 == d2) by (nonlinear_arith)
                    requires
                        0 <= d0 < 10,
                        0 <= d1 < 10,
                        0 <= d2 < 10,
                ;
                assert(spec_digit_char(d0) == c0 && spec_digit_char(d1) == c1 && spec_digit_char(
                    d2,
                ) == c2);
                assert(spec_digits3(v as int) =~= seq![c0, c1, c2]);
                assert(text@.subrange(i as int, j + 5) =~= spec_render_record(rec));
                assert(text@.subrange(0, j + 5) =~= text@.subrange(0, i as int) + text@.subrange(
                    i as int,
                    j + 5,
                ));
                lemma_render_push(recs, rec);
                lemma_records_abbrevs_push(recs, rec);
                lemma_records_starters_push(recs, rec);
                lemma_records_collocations_push(recs, rec);
            }
            let ghost pre: TrainingData = d;
            d.add_orthographic_context_typ(&f1, v);
            proof {
                assert forall|k: Seq<char>| d.ortho_context(k) == spec_records_ortho(
                    recs.push(rec),
                    k,
                ) by {
                    lemma_records_ortho_push(recs, rec, k);
                    if k != f1@ {
                        let w = spec_records_ortho(recs, k);
                        assert((w | 0u8) == w) by (bit_vector);
                    }
                }
                recs = recs.push(rec);
            }
            i = j + 5;
        }
        if line_no < i {
            line_no = line_no + 1;
        }
    }
    proof {
        assert(text@.subrange(0, text@.len() as int) =~= text@);
    }
    Result::Ok(d)
}

} // verus!
