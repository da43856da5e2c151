//! Records of a definition file: one per line, five fields separated by tabs.
//!
//! ```text
//! feature<TAB>name<TAB>oid<TAB>short name<TAB>description
//! ```
//!
//! Hyphens in the feature are turned into underscores; nothing else is
//! trimmed or checked.

use crate::text::{
    joined, lemma_joined_pieces, lemma_pieces_len, pieces, replace, replaced, split, views,
};
use vstd::prelude::*;
use vstd::slice::slice_to_vec;

verus! {

/// The field separator.
pub const TAB: u8 = 0x09;

/// The byte that opens a comment line.
pub const HASH: u8 = 0x23;

/// Not allowed in a feature's name, so replaced.
pub const HYPHEN: u8 = 0x2d;

/// What a hyphen in a feature's name becomes.
pub const UNDERSCORE: u8 = 0x5f;

/// The number of fields in a record.
pub const FIELDS: usize = 5;

/// The fields of a record, in the order in which a line holds them.
#[derive(Clone, Copy, Debug, PartialEq, Eq, Structural)]
pub enum Field {
    Feature,
    Name,
    Oid,
    ShortName,
    Description,
}

/// A line that holds a record with fewer than five fields.
#[derive(Clone, Copy, Debug, PartialEq, Eq, Structural)]
pub struct MalformedInput {
    /// Index of the line among the lines of the text, from zero.
    pub line: usize,
    /// The first field that the line lacks.
    pub missing: Field,
}

/// The mathematical value of an [`Entry`].
pub struct EntryView {
    pub name: Seq<u8>,
    pub oid: Seq<u8>,
    pub sn: Seq<u8>,
    pub description: Seq<u8>,
}

/// What a record says of one identifier: the name of its constant, the
/// identifier in dotted text, its short name and its description.
#[derive(Debug)]
pub struct Entry {
    name: Vec<u8>,
    oid: Vec<u8>,
    sn: Vec<u8>,
    description: Vec<u8>,
}

impl View for Entry {
    type V = EntryView;

    closed spec fn view(&self) -> EntryView {
        EntryView {
            name: self.name@,
            oid: self.oid@,
            sn: self.sn@,
            description: self.description@,
        }
    }
}

impl Entry {
    /// The name of the constant, or `""` where the entry has none.
    pub fn name(&self) -> (bytes: &[u8])
        ensures
            bytes@ == self@.name,
    {
        self.name.as_slice()
    }

    /// The identifier, in dotted text.
    pub fn oid(&self) -> (bytes: &[u8])
        ensures
            bytes@ == self@.oid,
    {
        self.oid.as_slice()
    }

    /// The short name.
    pub fn sn(&self) -> (bytes: &[u8])
        ensures
            bytes@ == self@.sn,
    {
        self.sn.as_slice()
    }

    /// The description.
    pub fn description(&self) -> (bytes: &[u8])
        ensures
            bytes@ == self@.description,
    {
        self.description.as_slice()
    }
}

/// A record: an entry and the feature that it belongs to.
pub struct RecordView {
    pub feature: Seq<u8>,
    pub entry: EntryView,
}

/// Whether the loader passes over `line`: it is empty or a comment.
pub open spec fn is_skipped(line: Seq<u8>) -> bool {
    line.len() == 0 || line[0] == HASH
}

/// The fields of `line`: it is cut at its first four tabs.
pub open spec fn fields(line: Seq<u8>) -> Seq<Seq<u8>> {
    pieces(line, TAB, FIELDS as nat)
}

/// The field at position `index` of a line.
pub open spec fn field_at(index: int) -> Field {
    if index <= 0 {
        Field::Feature
    } else if index == 1 {
        Field::Name
    } else if index == 2 {
        Field::Oid
    } else if index == 3 {
        Field::ShortName
    } else {
        Field::Description
    }
}

/// The key under which a record with the feature field `raw` is filed.
pub open spec fn feature_key(raw: Seq<u8>) -> Seq<u8> {
    replaced(raw, HYPHEN, UNDERSCORE)
}

/// The record that a line with five fields holds.
pub open spec fn record_of(line: Seq<u8>) -> RecordView {
    let f = fields(line);
    RecordView {
        feature: feature_key(f[0]),
        entry: EntryView { name: f[1], oid: f[2], sn: f[3], description: f[4] },
    }
}

/// What parsing `line` gives: its record, or the first field that it lacks.
pub open spec fn parsed(line: Seq<u8>) -> Result<RecordView, Field> {
    if fields(line).len() == FIELDS {
        Ok(record_of(line))
    } else {
        Err(field_at(fields(line).len() as int))
    }
}

/// The line that holds the record `r`.
pub open spec fn record_line(r: RecordView) -> Seq<u8> {
    joined(seq![r.feature, r.entry.name, r.entry.oid, r.entry.sn, r.entry.description], TAB)
}

/// The fields of a line, joined by tabs, are the line.
pub proof fn lemma_fields_rejoin(line: Seq<u8>)
    ensures
        joined(fields(line), TAB) == line,
{
    lemma_joined_pieces(line, TAB, FIELDS as nat);
}

/// Parsing a line of five fields and writing the record out again gives the
/// line with the hyphens of its feature replaced; where the feature holds no
/// hyphen, that is the line itself, byte for byte.
pub proof fn lemma_parse_then_serialize(line: Seq<u8>)
    requires
        fields(line).len() == FIELDS,
    ensures
        parsed(line) == Ok::<RecordView, Field>(record_of(line)),
        record_line(record_of(line)) == joined(
            fields(line).update(0, feature_key(fields(line)[0])),
            TAB,
        ),
        !fields(line)[0].contains(HYPHEN) ==> record_line(record_of(line)) == line,
{
    let f = fields(line);
    assert(seq![feature_key(f[0]), f[1], f[2], f[3], f[4]] =~= f.update(0, feature_key(f[0])));
    if !f[0].contains(HYPHEN) {
        assert(feature_key(f[0]) =~= f[0]);
        assert(f.update(0, f[0]) =~= f);
        lemma_fields_rejoin(line);
    }
}

/// A line with fewer than five fields fails to parse, and the error names
/// the first field that the line lacks: the one whose position is the number
/// of fields that the line holds.
pub proof fn lemma_short_line_fails(line: Seq<u8>)
    requires
        fields(line).len() < FIELDS,
    ensures
        parsed(line) is Err,
        parsed(line)->Err_0.index() == fields(line).len(),
        1 <= fields(line).len(),
{
    lemma_pieces_len(line, TAB, FIELDS as nat);
}

impl Field {
    /// The position of the field in a line.
    pub open spec fn index(self) -> int {
        match self {
            Field::Feature => 0,
            Field::Name => 1,
            Field::Oid => 2,
            Field::ShortName => 3,
            Field::Description => 4,
        }
    }

    /// The field as error messages call it.
    pub fn label(&self) -> (text: &'static str)
        ensures
            text@ == match *self {
                Field::Feature => "feature"@,
                Field::Name => "name"@,
                Field::Oid => "OID"@,
                Field::ShortName => "short name"@,
                Field::Description => "description"@,
            },
    {
        match self {
            Field::Feature => "feature",
            Field::Name => "name",
            Field::Oid => "OID",
            Field::ShortName => "short name",
            Field::Description => "description",
        }
    }
}

/// Parses one line that is neither empty nor a comment.
pub fn parse_line(line: &[u8]) -> (result: Result<(Vec<u8>, Entry), Field>)
    ensures
        match result {
            Ok((feature, entry)) => parsed(line@) == Ok::<RecordView, Field>(
                RecordView { feature: feature@, entry: entry@ },
            ),
            Err(missing) => parsed(line@) == Err::<RecordView, Field>(missing),
        },
{
    let parts = split(line, TAB, FIELDS);
    proof {
        lemma_pieces_len(line@, TAB, FIELDS as nat);
        assert(views(parts@).len() == parts@.len());
    }
    let count = parts.len();
    if count == 1 {
        return Err(Field::Name);
    }
    if count == 2 {
        return Err(Field::Oid);
    }
    if count == 3 {
        return Err(Field::ShortName);
    }
    if count == 4 {
        return Err(Field::Description);
    }
    assert(forall|i: int| 0 <= i < 5 ==> views(parts@)[i] == parts@[i]@);
    let feature = replace(parts[0], HYPHEN, UNDERSCORE);
    let entry = Entry {
        name: slice_to_vec(parts[1]),
        oid: slice_to_vec(parts[2]),
        sn: slice_to_vec(parts[3]),
        description: slice_to_vec(parts[4]),
    };
    Ok((feature, entry))
}

} // verus!
