//! Generating source text from a table of definitions.
//!
//! The text declares one constant for each entry that has a name, then an
//! `impl` block with one method for each feature, which inserts the entries
//! of that feature into a registry in the order of the table.

use crate::record::{Entry, EntryView, RecordView};
use crate::table::{
    entries_of, entry_views, group_index, lemma_group_of, lemma_place_in_group,
    lemma_places_ordered, place_in_group, table_of, GroupView, LoadedMap,
};
use crate::text::append;
use vstd::prelude::*;
use vstd::seq_lib::lemma_flatten_concat;
use vstd::string::StringSliceAdditionalSpecFns;

verus! {

/// The double quote.
pub const QUOTE: u8 = 0x22;

/// The bytes of a piece of text.
pub open spec fn lit(text: &str) -> Seq<u8> {
    text.spec_bytes()
}

/// The name of an entry that gets no constant: two double quotes.
pub open spec fn no_constant() -> Seq<u8> {
    seq![QUOTE, QUOTE]
}

/// The line that declares the constant of `e`.
pub open spec fn constant_line(e: EntryView) -> Seq<u8> {
    lit("pub const ") + e.name + lit(": Oid<'static> = oid!(") + e.oid + lit(");\n")
}

/// What `e` adds to the constants: its line, or nothing where it has no name.
pub open spec fn constant_text(e: EntryView) -> Seq<u8> {
    if e.name == no_constant() {
        Seq::empty()
    } else {
        constant_line(e)
    }
}

/// The line that inserts `e` into the registry.
pub open spec fn insert_line(e: EntryView) -> Seq<u8> {
    lit("        self.insert(oid!(") + e.oid + lit("), OidEntry::new(\"") + e.sn + lit("\", \"")
        + e.description + lit("\"));\n")
}

/// The function from an entry to what it adds to the constants.
pub open spec fn to_constant_text() -> spec_fn(EntryView) -> Seq<u8> {
    |e: EntryView| constant_text(e)
}

/// The function from an entry to its insert line.
pub open spec fn to_insert_line() -> spec_fn(EntryView) -> Seq<u8> {
    |e: EntryView| insert_line(e)
}

/// The constants of `entries`, in their order.
pub open spec fn constants_of(entries: Seq<EntryView>) -> Seq<u8> {
    entries.map_values(to_constant_text()).flatten()
}

/// The insert lines of `entries`, in their order.
pub open spec fn inserts_of(entries: Seq<EntryView>) -> Seq<u8> {
    entries.map_values(to_insert_line()).flatten()
}

/// The method that populates a registry with the entries of `group`.
pub open spec fn method_text(group: GroupView) -> Seq<u8> {
    lit("    #[cfg(feature = \"") + group.feature + lit("\")]\n") + lit("    pub fn with_")
        + group.feature + lit("(mut self) -> Self {\n") + inserts_of(group.entries) + lit(
        "        self\n",
    ) + lit("    }\n") + lit("\n")
}

/// The function from a group to the constants of its entries.
pub open spec fn to_constants() -> spec_fn(GroupView) -> Seq<u8> {
    |group: GroupView| constants_of(group.entries)
}

/// The function from a group to its method.
pub open spec fn to_method() -> spec_fn(GroupView) -> Seq<u8> {
    |group: GroupView| method_text(group)
}

/// The source text for `table`: the constants of all groups, an empty line,
/// and the `impl` block with the methods of all groups.
pub open spec fn generated(table: Seq<GroupView>) -> Seq<u8> {
    table.map_values(to_constants()).flatten() + lit("\n") + lit("impl OidRegistry {\n")
        + table.map_values(to_method()).flatten() + lit("}\n")
}

/// Flattening with one more part appends that part.
pub proof fn lemma_flatten_push(parts: Seq<Seq<u8>>, last: Seq<u8>)
    ensures
        parts.push(last).flatten() == parts.flatten() + last,
{
    lemma_flatten_concat(parts, seq![last]);
    seq![last].lemma_flatten_one_element();
    assert(parts.push(last) =~= parts + seq![last]);
}

/// The insert lines of entries that stand one run after the other are those
/// of the first run followed by those of the second.
pub proof fn lemma_inserts_concat(x: Seq<EntryView>, y: Seq<EntryView>)
    ensures
        inserts_of(x + y) == inserts_of(x) + inserts_of(y),
{
    assert((x + y).map_values(to_insert_line()) =~= x.map_values(to_insert_line())
        + y.map_values(to_insert_line()));
    lemma_flatten_concat(x.map_values(to_insert_line()), y.map_values(to_insert_line()));
}

/// The insert lines stand in the order of the entries: the line of an earlier
/// entry ends before the line of a later one begins.
pub proof fn lemma_inserts_in_order(entries: Seq<EntryView>, i: int, j: int)
    requires
        0 <= i < j < entries.len(),
    ensures
        inserts_of(entries) == inserts_of(entries.take(i)) + insert_line(entries[i]) + inserts_of(
            entries.subrange(i + 1, j),
        ) + insert_line(entries[j]) + inserts_of(entries.skip(j + 1)),
{
    let a = entries.take(i);
    let b = entries.subrange(i + 1, j);
    let c = entries.skip(j + 1);
    let first = seq![entries[i]];
    let second = seq![entries[j]];
    assert(entries =~= a + first + b + second + c);
    lemma_inserts_concat(a + first + b + second, c);
    lemma_inserts_concat(a + first + b, second);
    lemma_inserts_concat(a + first, b);
    lemma_inserts_concat(a, first);
    first.map_values(to_insert_line()).lemma_flatten_one_element();
    second.map_values(to_insert_line()).lemma_flatten_one_element();
    assert(first.map_values(to_insert_line()) =~= seq![insert_line(entries[i])]);
    assert(second.map_values(to_insert_line()) =~= seq![insert_line(entries[j])]);
}

/// The generated text holds the method of each group once, between the
/// methods of the groups before it and those of the groups after it.
pub proof fn lemma_method_in_generated(table: Seq<GroupView>, k: int)
    requires
        0 <= k < table.len(),
    ensures
        generated(table) == table.map_values(to_constants()).flatten() + lit("\n") + lit(
            "impl OidRegistry {\n",
        ) + table.take(k).map_values(to_method()).flatten() + method_text(table[k]) + table.skip(
            k + 1,
        ).map_values(to_method()).flatten() + lit("}\n"),
{
    let a = table.take(k).map_values(to_method());
    let b = table.skip(k + 1).map_values(to_method());
    let one = seq![method_text(table[k])];
    assert(table.map_values(to_method()) =~= a + one + b);
    lemma_flatten_concat(a + one, b);
    lemma_flatten_concat(a, one);
    one.lemma_flatten_one_element();
    assert(generated(table) =~= table.map_values(to_constants()).flatten() + lit("\n") + lit(
        "impl OidRegistry {\n",
    ) + a.flatten() + method_text(table[k]) + b.flatten() + lit("}\n"));
}

/// Of two records of one feature, the method of that feature inserts the
/// entry of the earlier record before the entry of the later one.
pub proof fn lemma_inserts_keep_file_order(records: Seq<RecordView>, a: int, b: int)
    requires
        0 <= a < b < records.len(),
        records[a].feature == records[b].feature,
    ensures
        ({
            let table = table_of(records);
            let k = group_index(table, records[a].feature);
            let i = place_in_group(records, a);
            let j = place_in_group(records, b);
            &&& 0 <= k < table.len()
            &&& table[k].feature == records[a].feature
            &&& 0 <= i < j < table[k].entries.len()
            &&& table[k].entries[i] == records[a].entry
            &&& table[k].entries[j] == records[b].entry
            &&& inserts_of(table[k].entries) == inserts_of(table[k].entries.take(i)) + insert_line(
                records[a].entry,
            ) + inserts_of(table[k].entries.subrange(i + 1, j)) + insert_line(records[b].entry)
                + inserts_of(table[k].entries.skip(j + 1))
        }),
{
    let feature = records[a].feature;
    lemma_place_in_group(records, a);
    lemma_place_in_group(records, b);
    lemma_places_ordered(records, a, b);
    lemma_group_of(records, feature);
    lemma_inserts_in_order(
        entries_of(records, feature),
        place_in_group(records, a),
        place_in_group(records, b),
    );
}

/// Whether `name` is the name of an entry that gets no constant.
pub fn is_no_constant(name: &[u8]) -> (none: bool)
    ensures
        none == (name@ == no_constant()),
{
    let none = name.len() == 2 && name[0] == QUOTE && name[1] == QUOTE;
    assert(none ==> name@ =~= no_constant());
    none
}

/// Appends the line that declares the constant of `entry`.
fn push_constant_line(out: &mut Vec<u8>, entry: &Entry)
    ensures
        final(out)@ == old(out)@ + constant_line(entry@),
{
    append(out, "pub const ".as_bytes());
    append(out, entry.name());
    append(out, ": Oid<'static> = oid!(".as_bytes());
    append(out, entry.oid());
    append(out, ");\n".as_bytes());
    assert(out@ =~= old(out)@ + constant_line(entry@));
}

/// Appends the line that inserts `entry`.
fn push_insert_line(out: &mut Vec<u8>, entry: &Entry)
    ensures
        final(out)@ == old(out)@ + insert_line(entry@),
{
    append(out, "        self.insert(oid!(".as_bytes());
    append(out, entry.oid());
    append(out, "), OidEntry::new(\"".as_bytes());
    append(out, entry.sn());
    append(out, "\", \"".as_bytes());
    append(out, entry.description());
    append(out, "\"));\n".as_bytes());
    assert(out@ =~= old(out)@ + insert_line(entry@));
}

/// Appends the constants of `entries`.
fn push_constants(out: &mut Vec<u8>, entries: &[Entry])
    ensures
        final(out)@ == old(out)@ + constants_of(entry_views(entries@)),
{
    let ghost all = entry_views(entries@);
    let mut k: usize = 0;
    assert(out@ =~= old(out)@ + constants_of(all.take(0)));
    while k < entries.len()
        invariant
            k <= entries@.len(),
            all == entry_views(entries@),
            out@ == old(out)@ + constants_of(all.take(k as int)),
        decreases entries@.len() - k,
    {
        let ghost done = all.take(k as int);
        let ghost start = out@;
        let entry = &entries[k];
        if !is_no_constant(entry.name()) {
            push_constant_line(out, entry);
        }
        proof {
            assert(all.take(k + 1) =~= done.push(entry@));
            assert(done.push(entry@).map_values(to_constant_text()) =~= done.map_values(
                to_constant_text(),
            ).push(constant_text(entry@)));
            lemma_flatten_push(done.map_values(to_constant_text()), constant_text(entry@));
            assert(out@ =~= old(out)@ + constants_of(all.take(k + 1)));
        }
        k += 1;
    }
    assert(all.take(k as int) =~= all);
}

/// Appends the insert lines of `entries`.
fn push_inserts(out: &mut Vec<u8>, entries: &[Entry])
    ensures
        final(out)@ == old(out)@ + inserts_of(entry_views(entries@)),
{
    let ghost all = entry_views(entries@);
    let mut k: usize = 0;
    assert(out@ =~= old(out)@ + inserts_of(all.take(0)));
    while k < entries.len()
        invariant
            k <= entries@.len(),
            all == entry_views(entries@),
            out@ == old(out)@ + inserts_of(all.take(k as int)),
        decreases entries@.len() - k,
    {
        let ghost done = all.take(k as int);
        let entry = &entries[k];
        push_insert_line(out, entry);
        proof {
            assert(all.take(k + 1) =~= done.push(entry@));
            assert(done.push(entry@).map_values(to_insert_line()) =~= done.map_values(
                to_insert_line(),
            ).push(insert_line(entry@)));
            lemma_flatten_push(done.map_values(to_insert_line()), insert_line(entry@));
            assert(out@ =~= old(out)@ + inserts_of(all.take(k + 1)));
        }
        k += 1;
    }
    assert(all.take(k as int) =~= all);
}

/// Appends the method that populates a registry with `entries` under `feature`.
fn push_method(out: &mut Vec<u8>, feature: &[u8], entries: &[Entry])
    ensures
        final(out)@ == old(out)@ + method_text(
            GroupView { feature: feature@, entries: entry_views(entries@) },
        ),
{
    append(out, "    #[cfg(feature = \"".as_bytes());
    append(out, feature);
    append(out, "\")]\n".as_bytes());
    append(out, "    pub fn with_".as_bytes());
    append(out, feature);
    append(out, "(mut self) -> Self {\n".as_bytes());
    push_inserts(out, entries);
    append(out, "        self\n".as_bytes());
    append(out, "    }\n".as_bytes());
    append(out, "\n".as_bytes());
    assert(out@ =~= old(out)@ + method_text(
        GroupView { feature: feature@, entries: entry_views(entries@) },
    ));
}

/// Generates the source text for the definitions in `map`.
pub fn generate_file(map: &LoadedMap) -> (out: Vec<u8>)
    ensures
        out@ == generated(map@),
{
    let mut out: Vec<u8> = Vec::new();
    let n = map.len();
    let mut k: usize = 0;
    assert(out@ =~= map@.take(0).map_values(to_constants()).flatten());
    while k < n
        invariant
            k <= n == map@.len(),
            out@ == map@.take(k as int).map_values(to_constants()).flatten(),
        decreases n - k,
    {
        let ghost done = map@.take(k as int);
        push_constants(&mut out, map.entries(k));
        proof {
            let group = map@[k as int];
            assert(map@.take(k + 1) =~= done.push(group));
            assert(done.push(group).map_values(to_constants()) =~= done.map_values(
                to_constants(),
            ).push(constants_of(group.entries)));
            lemma_flatten_push(done.map_values(to_constants()), constants_of(group.entries));
        }
        k += 1;
    }
    assert(map@.take(k as int) =~= map@);
    append(&mut out, "\n".as_bytes());
    append(&mut out, "impl OidRegistry {\n".as_bytes());
    let ghost head = out@;
    k = 0;
    assert(out@ =~= head + map@.take(0).map_values(to_method()).flatten());
    while k < n
        invariant
            k <= n == map@.len(),
            out@ == head + map@.take(k as int).map_values(to_method()).flatten(),
        decreases n - k,
    {
        let ghost done = map@.take(k as int);
        push_method(&mut out, map.feature(k), map.entries(k));
        proof {
            let group = map@[k as int];
            assert(group == GroupView { feature: group.feature, entries: group.entries });
            assert(map@.take(k + 1) =~= done.push(group));
            assert(done.push(group).map_values(to_method()) =~= done.map_values(
                to_method(),
            ).push(method_text(group)));
            lemma_flatten_push(done.map_values(to_method()), method_text(group));
            assert(out@ =~= head + map@.take(k + 1).map_values(to_method()).flatten());
        }
        k += 1;
    }
    assert(map@.take(k as int) =~= map@);
    append(&mut out, "}\n".as_bytes());
    out
}

} // verus!
