//! Loading a definition file: from its text to the table of its entries.
//!
//! Empty lines and lines that begin with `#` are skipped. Every other line
//! holds a record. The first line that holds fewer than five fields ends the
//! load with an error that names the line and the first field it lacks.

use crate::record::{
    fields, field_at, is_skipped, parse_line, parsed, record_of, Field, MalformedInput,
    RecordView, FIELDS, HASH, TAB,
};
use crate::table::{
    is_table, lemma_table_of_is_table, lemma_table_push, table_of, GroupView, LoadedMap,
};
use crate::text::{
    first_index, lemma_first_index, lemma_first_index_is, lemma_pieces_len, lines, position,
    split_lines, views, LF,
};
use vstd::prelude::*;

verus! {

/// The predicate "holds a record", on lines.
pub open spec fn holds_record() -> spec_fn(Seq<u8>) -> bool {
    |line: Seq<u8>| !is_skipped(line)
}

/// The predicate "holds a record with fewer than five fields", on lines.
pub open spec fn is_malformed() -> spec_fn(Seq<u8>) -> bool {
    |line: Seq<u8>| !is_skipped(line) && fields(line).len() < FIELDS
}

/// The function from a line to its record.
pub open spec fn to_record() -> spec_fn(Seq<u8>) -> RecordView {
    |line: Seq<u8>| record_of(line)
}

/// The records of `lines`, in their order.
pub open spec fn records(lines: Seq<Seq<u8>>) -> Seq<RecordView> {
    lines.filter(holds_record()).map_values(to_record())
}

/// Index of the first malformed line, or `lines.len()` when there is none.
pub open spec fn first_malformed(lines: Seq<Seq<u8>>) -> int {
    first_index(lines, is_malformed())
}

/// What loading `text` gives: the table of its records, or the first
/// malformed line with the first field that it lacks.
pub open spec fn loaded(text: Seq<u8>) -> Result<Seq<GroupView>, MalformedInput> {
    let all = lines(text);
    let bad = first_malformed(all);
    if 0 <= bad < all.len() {
        Err(MalformedInput { line: bad as usize, missing: field_at(fields(all[bad]).len() as int) })
    } else {
        Ok(table_of(records(all)))
    }
}

/// One more line adds its record, if it holds one.
pub proof fn lemma_records_push(before: Seq<Seq<u8>>, line: Seq<u8>)
    ensures
        records(before.push(line)) == if is_skipped(line) {
            records(before)
        } else {
            records(before).push(record_of(line))
        },
{
    reveal(Seq::filter);
    let all = before.push(line);
    assert(all.drop_last() =~= before);
    if !is_skipped(line) {
        assert(records(all) =~= records(before).push(record_of(line)));
    }
}

/// Where a line is malformed, loading fails: with the first malformed line,
/// which is that line or one before it, and with the first field that the
/// line named in the error lacks.
pub proof fn lemma_malformed_line_fails(text: Seq<u8>, at: int)
    requires
        text.len() <= usize::MAX,
        0 <= at < lines(text).len(),
        is_malformed()(lines(text)[at]),
    ensures
        loaded(text) is Err,
        loaded(text)->Err_0.line == first_malformed(lines(text)),
        first_malformed(lines(text)) <= at,
        is_malformed()(lines(text)[first_malformed(lines(text))]),
        parsed(lines(text)[first_malformed(lines(text))]) == Err::<RecordView, Field>(
            loaded(text)->Err_0.missing,
        ),
        (forall|i: int| 0 <= i < at ==> !is_malformed()(#[trigger] lines(text)[i]))
            ==> first_malformed(lines(text)) == at,
{
    let all = lines(text);
    lemma_first_index(all, is_malformed());
    if first_malformed(all) > at {
        assert(!is_malformed()(all[at]));
    }
    if forall|i: int| 0 <= i < at ==> !is_malformed()(#[trigger] all[i]) {
        lemma_first_index_is(all, is_malformed(), at);
    }
    lemma_lines_len(text);
}

/// A text has no more lines than bytes.
pub proof fn lemma_lines_len(text: Seq<u8>)
    ensures
        lines(text).len() <= text.len(),
    decreases text.len(),
{
    let p = position(text, LF);
    if text.len() > 0 && 0 <= p < text.len() {
        lemma_lines_len(text.skip(p + 1));
    }
}

/// Where no line is malformed, loading gives the table of the records.
pub proof fn lemma_well_formed_loads(text: Seq<u8>)
    requires
        forall|i: int| 0 <= i < lines(text).len() ==> !is_malformed()(#[trigger] lines(text)[i]),
    ensures
        loaded(text) == Ok::<Seq<GroupView>, MalformedInput>(table_of(records(lines(text)))),
{
    lemma_first_index_is(lines(text), is_malformed(), lines(text).len() as int);
}

/// Loads the definitions that `text` holds.
pub fn load_file(text: &[u8]) -> (result: Result<LoadedMap, MalformedInput>)
    ensures
        match result {
            Ok(map) => loaded(text@) == Ok::<Seq<GroupView>, MalformedInput>(map@) && is_table(
                map@,
            ),
            Err(error) => loaded(text@) == Err::<Seq<GroupView>, MalformedInput>(error),
        },
{
    let all = split_lines(text);
    let mut map = LoadedMap::new();
    let mut k: usize = 0;
    assert(views(all@).take(0) =~= Seq::<Seq<u8>>::empty());
    assert(records(Seq::<Seq<u8>>::empty()) =~= Seq::<RecordView>::empty()) by {
        reveal(Seq::filter);
    }
    assert(table_of(Seq::<RecordView>::empty()) =~= Seq::<GroupView>::empty());
    while k < all.len()
        invariant
            k <= all@.len(),
            views(all@) == lines(text@),
            forall|i: int| 0 <= i < k ==> !is_malformed()(#[trigger] views(all@)[i]),
            map@ == table_of(records(views(all@).take(k as int))),
        decreases all@.len() - k,
    {
        let line = all[k];
        let ghost before = views(all@).take(k as int);
        proof {
            assert(views(all@)[k as int] == line@);
            assert(views(all@).take(k + 1) =~= before.push(line@));
            lemma_records_push(before, line@);
        }
        if line.len() > 0 && line[0] != HASH {
            match parse_line(line) {
                Ok((feature, entry)) => {
                    proof {
                        lemma_table_push(records(before), record_of(line@));
                    }
                    map.add(feature, entry);
                },
                Err(missing) => {
                    proof {
                        lemma_pieces_len(line@, TAB, FIELDS as nat);
                        lemma_first_index_is(views(all@), is_malformed(), k as int);
                    }
                    return Err(MalformedInput { line: k, missing });
                },
            }
        }
        k += 1;
    }
    proof {
        lemma_first_index_is(views(all@), is_malformed(), k as int);
        assert(views(all@).take(k as int) =~= views(all@));
        lemma_table_of_is_table(records(views(all@)));
    }
    Ok(map)
}

} // verus!
