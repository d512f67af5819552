//! Stream entries and the text lines they surface.

use vstd::prelude::*;
use vstd::utf8::{decode_utf8, valid_utf8};

verus! {

/// What the store holds under one field of an entry.
#[derive(Debug, Clone, PartialEq, Eq)]
pub enum FieldValue {
    /// A raw byte payload.
    Data(Vec<u8>),
    /// Anything that is not a byte payload.
    Other,
}

/// One record of a stream: its ID and its field values, in field order.
#[derive(Debug, Clone, PartialEq, Eq)]
pub struct Entry {
    pub id: String,
    pub fields: Vec<FieldValue>,
}

/// Mathematical model of a [`FieldValue`].
pub enum FieldModel {
    Data(Seq<u8>),
    Other,
}

/// Mathematical model of an [`Entry`].
pub struct EntryModel {
    pub id: Seq<char>,
    pub fields: Seq<FieldModel>,
}

impl View for FieldValue {
    type V = FieldModel;

    open spec fn view(&self) -> FieldModel {
        match self {
            FieldValue::Data(bytes) => FieldModel::Data(bytes@),
            FieldValue::Other => FieldModel::Other,
        }
    }
}

impl DeepView for FieldValue {
    type V = FieldModel;

    open spec fn deep_view(&self) -> FieldModel {
        self@
    }
}

impl View for Entry {
    type V = EntryModel;

    open spec fn view(&self) -> EntryModel {
        EntryModel { id: self.id@, fields: self.fields.deep_view() }
    }
}

impl DeepView for Entry {
    type V = EntryModel;

    open spec fn deep_view(&self) -> EntryModel {
        self@
    }
}

/// The text of a field value: the decoding of a byte payload that is valid
/// UTF-8, and nothing for any other value.
pub open spec fn decoded(value: FieldModel) -> Option<Seq<char>> {
    match value {
        FieldModel::Data(bytes) => if valid_utf8(bytes) {
            Some(decode_utf8(bytes))
        } else {
            None
        },
        FieldModel::Other => None,
    }
}

/// The lines that a run of field values surfaces: one per decodable value,
/// in field order.
pub open spec fn field_lines(fields: Seq<FieldModel>) -> Seq<Seq<char>>
    decreases fields.len(),
{
    if fields.len() == 0 {
        Seq::empty()
    } else {
        match decoded(fields.last()) {
            Some(line) => field_lines(fields.drop_last()).push(line),
            None => field_lines(fields.drop_last()),
        }
    }
}

/// The lines that a run of entries surfaces: the lines of each entry, entry
/// after entry.
pub open spec fn lines_of(entries: Seq<EntryModel>) -> Seq<Seq<char>>
    decreases entries.len(),
{
    if entries.len() == 0 {
        Seq::empty()
    } else {
        lines_of(entries.drop_last()) + field_lines(entries.last().fields)
    }
}

/// Whether `term` occurs in `line` as a contiguous run of characters.
pub open spec fn contains_term(line: Seq<char>, term: Seq<char>) -> bool {
    exists|at: int|
        0 <= at && at + term.len() <= line.len() && #[trigger] line.subrange(
            at,
            at + term.len(),
        ) == term
}

/// Whether a line passes the filter: every line does when there is no term.
pub open spec fn keeps(line: Seq<char>, term: Option<Seq<char>>) -> bool {
    match term {
        Some(t) => contains_term(line, t),
        None => true,
    }
}

/// The lines that pass the filter, in their order.
pub open spec fn matching(lines: Seq<Seq<char>>, term: Option<Seq<char>>) -> Seq<Seq<char>>
    decreases lines.len(),
{
    if lines.len() == 0 {
        Seq::empty()
    } else if keeps(lines.last(), term) {
        matching(lines.drop_last(), term).push(lines.last())
    } else {
        matching(lines.drop_last(), term)
    }
}

/// The lines that one page of entries contributes to a result.
pub open spec fn page_lines(entries: Seq<EntryModel>, term: Option<Seq<char>>) -> Seq<Seq<char>> {
    matching(lines_of(entries), term)
}

/// `String::from_utf8`: the bytes are accepted exactly when they are valid
/// UTF-8, and the text is then their decoding.
#[verifier::external_body]
fn utf8_text(bytes: Vec<u8>) -> (r: Option<String>)
    ensures
        r is Some <==> valid_utf8(bytes@),
        r matches Some(text) ==> text@ == decode_utf8(bytes@),
{
    match String::from_utf8(bytes) {
        Ok(text) => Some(text),
        Err(_) => None,
    }
}

/// `str::contains` with a string pattern: whether the pattern matches a
/// sub-slice of the line.
#[verifier::external_body]
fn has_substring(line: &String, term: &String) -> (r: bool)
    ensures
        r == contains_term(line@, term@),
{
    line.contains(term.as_str())
}

/// Decodes one field value to a line, or drops it.
pub fn string_or_none(val: FieldValue) -> (r: Option<String>)
    ensures
        r.deep_view() == decoded(val@),
{
    match val {
        FieldValue::Data(bytes) => utf8_text(bytes),
        FieldValue::Other => None,
    }
}

/// The lines of field values keep the order of the values: the lines of a run
/// are the lines of its front part followed by the lines of its back part,
/// wherever the run is cut.
pub proof fn lemma_field_lines_concat(a: Seq<FieldModel>, b: Seq<FieldModel>)
    ensures
        field_lines(a + b) == field_lines(a) + field_lines(b),
    decreases b.len(),
{
    if b.len() == 0 {
        assert(a + b =~= a);
        assert(field_lines(a) + field_lines(b) =~= field_lines(a));
    } else {
        assert((a + b).drop_last() =~= a + b.drop_last());
        assert((a + b).last() == b.last());
        lemma_field_lines_concat(a, b.drop_last());
        match decoded(b.last()) {
            Some(line) => {
                assert((field_lines(a) + field_lines(b.drop_last())).push(line) =~= field_lines(a)
                    + field_lines(b.drop_last()).push(line));
            },
            None => {},
        }
    }
}

/// Lines keep the order of their entries: the lines of a run of entries are
/// the lines of its front part followed by the lines of its back part,
/// wherever the run is cut. So every line of an earlier entry comes before
/// every line of a later one.
pub proof fn lemma_lines_of_concat(a: Seq<EntryModel>, b: Seq<EntryModel>)
    ensures
        lines_of(a + b) == lines_of(a) + lines_of(b),
    decreases b.len(),
{
    if b.len() == 0 {
        assert(a + b =~= a);
        assert(lines_of(a) + lines_of(b) =~= lines_of(a));
    } else {
        assert((a + b).drop_last() =~= a + b.drop_last());
        assert((a + b).last() == b.last());
        lemma_lines_of_concat(a, b.drop_last());
        assert((lines_of(a) + lines_of(b.drop_last())) + field_lines(b.last().fields) =~= lines_of(a)
            + (lines_of(b.drop_last()) + field_lines(b.last().fields)));
    }
}

/// For each line that a run of entries surfaces, the place in the run of the
/// entry that it comes from.
pub open spec fn line_sources(entries: Seq<EntryModel>) -> Seq<int>
    decreases entries.len(),
{
    if entries.len() == 0 {
        Seq::empty()
    } else {
        line_sources(entries.drop_last()) + Seq::new(
            field_lines(entries.last().fields).len(),
            |k: int| entries.len() - 1,
        )
    }
}

/// Lines follow their entries: every line comes from one entry of the run,
/// and of two lines the later one never comes from an earlier entry.
pub proof fn lemma_lines_follow_entries(entries: Seq<EntryModel>)
    ensures
        line_sources(entries).len() == lines_of(entries).len(),
        forall|k: int|
            0 <= k < lines_of(entries).len() ==> 0 <= #[trigger] line_sources(entries)[k]
                < entries.len() && field_lines(
                entries[line_sources(entries)[k]].fields,
            ).contains(lines_of(entries)[k]),
        forall|j: int, k: int|
            0 <= j <= k < lines_of(entries).len() ==> #[trigger] line_sources(entries)[j]
                <= #[trigger] line_sources(entries)[k],
    decreases entries.len(),
{
    if entries.len() > 0 {
        let rest = entries.drop_last();
        lemma_lines_follow_entries(rest);
        let own = field_lines(entries.last().fields);
        let sources = line_sources(entries);
        let lines = lines_of(entries);
        let earlier = lines_of(rest).len();
        assert forall|k: int| 0 <= k < lines.len() implies 0 <= #[trigger] sources[k]
            < entries.len() && field_lines(entries[sources[k]].fields).contains(lines[k]) by {
            if k < earlier {
                assert(sources[k] == line_sources(rest)[k]);
                assert(lines[k] == lines_of(rest)[k]);
                assert(entries[sources[k]] == rest[sources[k]]);
            } else {
                assert(sources[k] == entries.len() - 1);
                assert(lines[k] == own[k - earlier]);
            }
        }
        assert forall|j: int, k: int| 0 <= j <= k < lines.len() implies #[trigger] sources[j]
            <= #[trigger] sources[k] by {
            if k < earlier {
                assert(sources[j] == line_sources(rest)[j]);
                assert(sources[k] == line_sources(rest)[k]);
            } else if j < earlier {
                assert(sources[j] == line_sources(rest)[j]);
                assert(sources[k] == entries.len() - 1);
            } else {
                assert(sources[j] == entries.len() - 1);
                assert(sources[k] == entries.len() - 1);
            }
        }
    }
}

/// The lines of a single entry are the lines of its field values.
pub proof fn lemma_lines_of_one(entry: EntryModel)
    ensures
        lines_of(seq![entry]) == field_lines(entry.fields),
{
    assert(seq![entry].drop_last() =~= Seq::<EntryModel>::empty());
    assert(lines_of(Seq::<EntryModel>::empty()) + field_lines(entry.fields) =~= field_lines(
        entry.fields,
    ));
}

/// The entry without the field value at place `field`.
pub open spec fn without_field(entry: EntryModel, field: int) -> EntryModel {
    EntryModel { id: entry.id, fields: entry.fields.remove(field) }
}

/// A field value that is not text contributes no line: the lines of a run of
/// entries are those of the same run with that value taken out of its entry.
pub proof fn lemma_undecodable_contributes_nothing(entries: Seq<EntryModel>, at: int, field: int)
    requires
        0 <= at < entries.len(),
        0 <= field < entries[at].fields.len(),
        decoded(entries[at].fields[field]) is None,
    ensures
        lines_of(entries) == lines_of(entries.update(at, without_field(entries[at], field))),
{
    let entry = entries[at];
    let fields = entry.fields;
    let front = fields.take(field);
    let back = fields.skip(field + 1);
    let value = fields[field];
    let trimmed = without_field(entry, field);

    assert(fields =~= front + seq![value] + back);
    assert(fields.remove(field) =~= front + back);
    lemma_field_lines_concat(front + seq![value], back);
    lemma_field_lines_concat(front, seq![value]);
    lemma_field_lines_concat(front, back);
    assert(seq![value].drop_last() =~= Seq::<FieldModel>::empty());
    assert(seq![value].last() == value);
    assert(field_lines(Seq::<FieldModel>::empty()) =~= Seq::<Seq<char>>::empty());
    assert(field_lines(seq![value]) =~= Seq::<Seq<char>>::empty());
    assert(field_lines(front) + field_lines(seq![value]) =~= field_lines(front));
    assert(field_lines(fields) == field_lines(trimmed.fields));

    let before = entries.take(at);
    let after = entries.skip(at + 1);
    assert(entries =~= before + seq![entry] + after);
    assert(entries.update(at, trimmed) =~= before + seq![trimmed] + after);
    lemma_lines_of_concat(before + seq![entry], after);
    lemma_lines_of_concat(before, seq![entry]);
    lemma_lines_of_concat(before + seq![trimmed], after);
    lemma_lines_of_concat(before, seq![trimmed]);
    lemma_lines_of_one(entry);
    lemma_lines_of_one(trimmed);
}

/// Filtering distributes over concatenation.
pub proof fn lemma_matching_concat(a: Seq<Seq<char>>, b: Seq<Seq<char>>, term: Option<Seq<char>>)
    ensures
        matching(a + b, term) == matching(a, term) + matching(b, term),
    decreases b.len(),
{
    if b.len() == 0 {
        assert(a + b =~= a);
        assert(matching(a, term) + matching(b, term) =~= matching(a, term));
    } else {
        assert((a + b).drop_last() =~= a + b.drop_last());
        assert((a + b).last() == b.last());
        lemma_matching_concat(a, b.drop_last(), term);
        if keeps(b.last(), term) {
            assert((matching(a, term) + matching(b.drop_last(), term)).push(b.last())
                =~= matching(a, term) + matching(b.drop_last(), term).push(b.last()));
        }
    }
}

/// With no term, every line passes.
pub proof fn lemma_matching_none(lines: Seq<Seq<char>>)
    ensures
        matching(lines, None) == lines,
    decreases lines.len(),
{
    if lines.len() > 0 {
        lemma_matching_none(lines.drop_last());
        assert(lines.drop_last().push(lines.last()) =~= lines);
    }
}

/// Every line that comes through the filter passes it.
pub proof fn lemma_matching_keeps(lines: Seq<Seq<char>>, term: Option<Seq<char>>)
    ensures
        forall|i: int|
            0 <= i < matching(lines, term).len() ==> keeps(#[trigger] matching(lines, term)[i], term),
    decreases lines.len(),
{
    if lines.len() > 0 {
        lemma_matching_keeps(lines.drop_last(), term);
        let all = matching(lines, term);
        let prev = matching(lines.drop_last(), term);
        assert forall|i: int| 0 <= i < all.len() implies keeps(#[trigger] all[i], term) by {
            if i < prev.len() {
                assert(all[i] == prev[i]);
            }
        }
    }
}

/// Whether a decoded line passes the filter.
fn passes(line: &String, term: &Option<String>) -> (r: bool)
    ensures
        r == keeps(line@, term.deep_view()),
{
    match term {
        Some(t) => has_substring(line, t),
        None => true,
    }
}

/// Appends to `out` the lines of one entry's field values that pass the
/// filter.
fn append_field_lines(fields: Vec<FieldValue>, term: &Option<String>, out: &mut Vec<String>)
    ensures
        final(out).deep_view() == old(out).deep_view() + matching(
            field_lines(fields.deep_view()),
            term.deep_view(),
        ),
{
    let ghost before = out.deep_view();
    let ghost all = fields.deep_view();
    assert(all.take(0) =~= Seq::<FieldModel>::empty());
    assert(out.deep_view() =~= before + matching(field_lines(all.take(0)), term.deep_view()));
    for value in it: fields
        invariant
            all == fields.deep_view(),
            it.seq() == fields@,
            out.deep_view() == before + matching(
                field_lines(all.take(it.index() as int)),
                term.deep_view(),
            ),
    {
        let ghost i = it.index() as int;
        let ghost prev_out = out.deep_view();
        let ghost prev_lines = field_lines(all.take(i));
        proof {
            assert(all.take(i + 1).drop_last() =~= all.take(i));
            assert(all.take(i + 1).last() == value@);
        }
        match string_or_none(value) {
            Some(line) => {
                proof {
                    assert(field_lines(all.take(i + 1)) == prev_lines.push(line@));
                    assert(prev_lines.push(line@).drop_last() =~= prev_lines);
                }
                if passes(&line, term) {
                    let ghost text = line@;
                    out.push(line);
                    assert(out.deep_view() =~= prev_out.push(text));
                    assert(prev_out.push(text) =~= before + matching(
                        prev_lines.push(text),
                        term.deep_view(),
                    ));
                }
            },
            None => {},
        }
    }
    assert(all.take(all.len() as int) =~= all);
}

/// Flattens a page of entries into the text lines of their field values, in
/// entry and field order, dropping payloads that are not text and, when a
/// term is given, lines that do not contain it.
pub fn flatten_xrange(range: Vec<Entry>, term: &Option<String>) -> (lines: Vec<String>)
    ensures
        lines.deep_view() == page_lines(range.deep_view(), term.deep_view()),
{
    let ghost all = range.deep_view();
    let mut lines: Vec<String> = Vec::new();
    assert(all.take(0) =~= Seq::<EntryModel>::empty());
    assert(lines.deep_view() =~= page_lines(all.take(0), term.deep_view()));
    for entry in it: range
        invariant
            all == range.deep_view(),
            it.seq() == range@,
            lines.deep_view() == page_lines(all.take(it.index() as int), term.deep_view()),
    {
        let ghost i = it.index() as int;
        proof {
            assert(all.take(i + 1).drop_last() =~= all.take(i));
            assert(all.take(i + 1).last() == entry@);
            lemma_matching_concat(
                lines_of(all.take(i)),
                field_lines(entry@.fields),
                term.deep_view(),
            );
        }
        append_field_lines(entry.fields, term, &mut lines);
    }
    assert(all.take(all.len() as int) =~= all);
    lines
}

} // verus!
