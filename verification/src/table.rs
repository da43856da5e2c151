//! The table of a definition file: its entries, grouped by feature.

use crate::record::{Entry, EntryView, RecordView};
use crate::text::{bytes_equal, first_index, lemma_first_index, lemma_first_index_is};
use vstd::prelude::*;

verus! {

/// The entries of one feature, in the order of the file.
pub struct GroupView {
    pub feature: Seq<u8>,
    pub entries: Seq<EntryView>,
}

/// The predicate "belongs to `feature`", on records.
pub open spec fn has_feature(feature: Seq<u8>) -> spec_fn(RecordView) -> bool {
    |r: RecordView| r.feature == feature
}

/// The predicate "is the group of `feature`", on groups.
pub open spec fn names_feature(feature: Seq<u8>) -> spec_fn(GroupView) -> bool {
    |g: GroupView| g.feature == feature
}

/// The entry of a record.
pub open spec fn entry_of() -> spec_fn(RecordView) -> EntryView {
    |r: RecordView| r.entry
}

/// The entries that `records` hold for `feature`, in the order of the records.
pub open spec fn entries_of(records: Seq<RecordView>, feature: Seq<u8>) -> Seq<EntryView> {
    records.filter(has_feature(feature)).map_values(entry_of())
}

/// The features of `records`, each once, in the order in which they first occur.
pub open spec fn features_of(records: Seq<RecordView>) -> Seq<Seq<u8>>
    decreases records.len(),
{
    if records.len() == 0 {
        Seq::empty()
    } else {
        let before = features_of(records.drop_last());
        if before.contains(records.last().feature) {
            before
        } else {
            before.push(records.last().feature)
        }
    }
}

/// The table of `records`: one group for each feature, in the order in which
/// the features first occur, holding that feature's entries in the order of
/// the records.
pub open spec fn table_of(records: Seq<RecordView>) -> Seq<GroupView> {
    Seq::new(
        features_of(records).len(),
        |i: int|
            GroupView {
                feature: features_of(records)[i],
                entries: entries_of(records, features_of(records)[i]),
            },
    )
}

/// Index of the group of `feature` in `table`, or `table.len()` when the
/// table has none.
pub open spec fn group_index(table: Seq<GroupView>, feature: Seq<u8>) -> int {
    first_index(table, names_feature(feature))
}

/// `table` with the record `r` added: its entry goes to the end of the group
/// of its feature; where there is no such group yet, a new last group holds it.
pub open spec fn add_record(table: Seq<GroupView>, r: RecordView) -> Seq<GroupView> {
    let i = group_index(table, r.feature);
    if 0 <= i < table.len() {
        table.update(
            i,
            GroupView { feature: r.feature, entries: table[i].entries.push(r.entry) },
        )
    } else {
        table.push(GroupView { feature: r.feature, entries: seq![r.entry] })
    }
}

/// Whether `table` maps features to entries: no feature has two groups, and
/// no group is empty.
pub open spec fn is_table(table: Seq<GroupView>) -> bool {
    &&& forall|i: int, j: int|
        0 <= i < j < table.len() ==> (#[trigger] table[i]).feature != (#[trigger] table[j]).feature
    &&& forall|i: int| 0 <= i < table.len() ==> (#[trigger] table[i]).entries.len() > 0
}

/// One more record adds its entry to the entries of its feature and leaves
/// those of every other feature as they are.
pub proof fn lemma_entries_push(records: Seq<RecordView>, r: RecordView, feature: Seq<u8>)
    ensures
        entries_of(records.push(r), feature) == if r.feature == feature {
            entries_of(records, feature).push(r.entry)
        } else {
            entries_of(records, feature)
        },
{
    reveal(Seq::filter);
    let all = records.push(r);
    assert(all.drop_last() =~= records);
    if r.feature == feature {
        assert(entries_of(all, feature) =~= entries_of(records, feature).push(r.entry));
    }
}

/// A feature is listed exactly when some record has it, and it is listed once.
pub proof fn lemma_features(records: Seq<RecordView>)
    ensures
        features_of(records).no_duplicates(),
        forall|f: Seq<u8>|
            features_of(records).contains(f) <==> #[trigger] entries_of(records, f).len() > 0,
    decreases records.len(),
{
    if records.len() == 0 {
        reveal(Seq::filter);
    } else {
        let before = records.drop_last();
        let r = records.last();
        lemma_features(before);
        assert(before.push(r) =~= records);
        assert forall|f: Seq<u8>|
            features_of(records).contains(f) <==> #[trigger] entries_of(records, f).len()
                > 0 by {
            lemma_entries_push(before, r, f);
            let fs = features_of(before);
            if fs.contains(r.feature) {
            } else {
                if features_of(records).contains(f) {
                    let i = choose|i: int|
                        0 <= i < features_of(records).len() && features_of(records)[i] == f;
                    if i < fs.len() {
                        assert(fs[i] == f);
                    }
                }
                if f == r.feature {
                    assert(fs.push(r.feature)[fs.len() as int] == f);
                } else if fs.contains(f) {
                    let i = choose|i: int| 0 <= i < fs.len() && fs[i] == f;
                    assert(fs.push(r.feature)[i] == f);
                }
            }
        }
    }
}

/// The table of records is built by adding them one after the other.
pub proof fn lemma_table_push(records: Seq<RecordView>, r: RecordView)
    ensures
        table_of(records.push(r)) == add_record(table_of(records), r),
{
    let all = records.push(r);
    let fs = features_of(records);
    let table = table_of(records);
    let k = group_index(table, r.feature);
    assert(all.drop_last() =~= records);
    lemma_features(records);
    lemma_first_index(table, names_feature(r.feature));
    assert forall|f: Seq<u8>| true implies #[trigger] entries_of(all, f) == if r.feature == f {
        entries_of(records, f).push(r.entry)
    } else {
        entries_of(records, f)
    } by {
        lemma_entries_push(records, r, f);
    }
    if fs.contains(r.feature) {
        let j = choose|j: int| 0 <= j < fs.len() && fs[j] == r.feature;
        if k == table.len() {
            assert(!names_feature(r.feature)(table[j]));
        }
        assert(table[k].feature == r.feature);
        assert(table_of(all) =~= add_record(table, r));
    } else {
        if k < table.len() {
            assert(fs[k] == r.feature);
        }
        assert(entries_of(records, r.feature).len() == 0);
        assert(entries_of(all, r.feature) =~= seq![r.entry]);
        assert(table_of(all) =~= add_record(table, r));
    }
}

/// The entries of records that stand one run after the other are the entries
/// of the first run followed by those of the second.
pub proof fn lemma_entries_concat(x: Seq<RecordView>, y: Seq<RecordView>, feature: Seq<u8>)
    ensures
        entries_of(x + y, feature) == entries_of(x, feature) + entries_of(y, feature),
{
    Seq::filter_distributes_over_add(x, y, has_feature(feature));
    assert(entries_of(x + y, feature) =~= entries_of(x, feature) + entries_of(y, feature));
}

/// The place that the entry of the record at `at` takes among the entries of
/// its feature: the number of earlier records of that feature.
pub open spec fn place_in_group(records: Seq<RecordView>, at: int) -> int {
    entries_of(records.take(at), records[at].feature).len() as int
}

/// The entry of a record stands among the entries of its feature, at its place.
pub proof fn lemma_place_in_group(records: Seq<RecordView>, at: int)
    requires
        0 <= at < records.len(),
    ensures
        0 <= place_in_group(records, at) < entries_of(records, records[at].feature).len(),
        entries_of(records, records[at].feature)[place_in_group(records, at)]
            == records[at].entry,
{
    let r = records[at];
    let head = records.take(at);
    let tail = records.skip(at + 1);
    assert(records =~= head.push(r) + tail);
    lemma_entries_concat(head.push(r), tail, r.feature);
    lemma_entries_push(head, r, r.feature);
}

/// Of two records of one feature, the earlier takes the earlier place.
pub proof fn lemma_places_ordered(records: Seq<RecordView>, a: int, b: int)
    requires
        0 <= a < b < records.len(),
        records[a].feature == records[b].feature,
    ensures
        place_in_group(records, a) < place_in_group(records, b),
{
    let until_b = records.take(b);
    assert(until_b.take(a) =~= records.take(a));
    assert(until_b[a] == records[a]);
    lemma_place_in_group(until_b, a);
}

/// A feature that some record has owns the group at its index in the table,
/// and that group holds the entries of the feature.
pub proof fn lemma_group_of(records: Seq<RecordView>, feature: Seq<u8>)
    requires
        entries_of(records, feature).len() > 0,
    ensures
        0 <= group_index(table_of(records), feature) < table_of(records).len(),
        table_of(records)[group_index(table_of(records), feature)] == (GroupView {
            feature,
            entries: entries_of(records, feature),
        }),
{
    let table = table_of(records);
    let fs = features_of(records);
    lemma_features(records);
    lemma_first_index(table, names_feature(feature));
    let j = choose|j: int| 0 <= j < fs.len() && fs[j] == feature;
    if group_index(table, feature) == table.len() {
        assert(!names_feature(feature)(table[j]));
    }
}

/// Adding a record to a table gives a table.
pub proof fn lemma_add_record_is_table(table: Seq<GroupView>, r: RecordView)
    requires
        is_table(table),
    ensures
        is_table(add_record(table, r)),
{
    let k = group_index(table, r.feature);
    let after = add_record(table, r);
    lemma_first_index(table, names_feature(r.feature));
    assert forall|i: int, j: int| 0 <= i < j < after.len() implies (#[trigger] after[i]).feature
        != (#[trigger] after[j]).feature by {
        if k < table.len() {
            assert(after[i].feature == table[i].feature);
            assert(after[j].feature == table[j].feature);
        } else if j == table.len() {
            assert(!names_feature(r.feature)(table[i]));
        }
    }
}

/// The table of records maps features to entries.
pub proof fn lemma_table_of_is_table(records: Seq<RecordView>)
    ensures
        is_table(table_of(records)),
{
    lemma_features(records);
}

/// The mathematical values of a run of entries.
pub open spec fn entry_views(entries: Seq<Entry>) -> Seq<EntryView> {
    Seq::new(entries.len(), |i: int| entries[i]@)
}

/// The entries of one feature.
#[derive(Debug)]
struct Group {
    feature: Vec<u8>,
    entries: Vec<Entry>,
}

impl View for Group {
    type V = GroupView;

    closed spec fn view(&self) -> GroupView {
        GroupView { feature: self.feature@, entries: entry_views(self.entries@) }
    }
}

/// The entries of a definition file, grouped by feature.
///
/// The groups stand in the order in which their features first occur in the
/// file, and each holds its entries in the order of the file.
#[derive(Debug)]
pub struct LoadedMap {
    groups: Vec<Group>,
}

impl View for LoadedMap {
    type V = Seq<GroupView>;

    closed spec fn view(&self) -> Seq<GroupView> {
        Seq::new(self.groups@.len(), |i: int| self.groups@[i]@)
    }
}

impl LoadedMap {
    /// The table without entries.
    pub fn new() -> (map: LoadedMap)
        ensures
            map@ == Seq::<GroupView>::empty(),
    {
        let map = LoadedMap { groups: Vec::new() };
        assert(map@ =~= Seq::<GroupView>::empty());
        map
    }

    /// The number of features.
    pub fn len(&self) -> (n: usize)
        ensures
            n == self@.len(),
    {
        self.groups.len()
    }

    /// The feature of the group at `index`.
    pub fn feature(&self, index: usize) -> (feature: &[u8])
        requires
            index < self@.len(),
        ensures
            feature@ == self@[index as int].feature,
    {
        self.groups[index].feature.as_slice()
    }

    /// The entries of the group at `index`.
    pub fn entries(&self, index: usize) -> (entries: &[Entry])
        requires
            index < self@.len(),
        ensures
            entry_views(entries@) == self@[index as int].entries,
    {
        self.groups[index].entries.as_slice()
    }

    /// The index of the group of `feature`, or `len()` when there is none.
    pub fn index_of(&self, feature: &[u8]) -> (index: usize)
        ensures
            index == group_index(self@, feature@),
            index <= self@.len(),
    {
        let mut k: usize = 0;
        while k < self.groups.len() && !bytes_equal(self.groups[k].feature.as_slice(), feature)
            invariant
                k <= self@.len(),
                self@.len() == self.groups@.len(),
                forall|i: int| 0 <= i < k ==> !names_feature(feature@)(#[trigger] self@[i]),
            decreases self@.len() - k,
        {
            k += 1;
        }
        proof {
            lemma_first_index_is(self@, names_feature(feature@), k as int);
        }
        k
    }

    /// The entries of `feature`, where the table has any.
    pub fn get(&self, feature: &[u8]) -> (found: Option<&[Entry]>)
        ensures
            match found {
                Some(entries) => {
                    &&& group_index(self@, feature@) < self@.len()
                    &&& entry_views(entries@) == self@[group_index(self@, feature@)].entries
                },
                None => group_index(self@, feature@) == self@.len(),
            },
    {
        let k = self.index_of(feature);
        if k < self.groups.len() {
            Some(self.groups[k].entries.as_slice())
        } else {
            None
        }
    }

    /// Adds one record.
    pub(crate) fn add(&mut self, feature: Vec<u8>, entry: Entry)
        ensures
            final(self)@ == add_record(
                old(self)@,
                RecordView { feature: feature@, entry: entry@ },
            ),
            is_table(old(self)@) ==> is_table(final(self)@),
    {
        proof {
            if is_table(self@) {
                lemma_add_record_is_table(self@, RecordView { feature: feature@, entry: entry@ });
            }
        }
        let k = self.index_of(feature.as_slice());
        let ghost before = self@;
        let ghost e = entry@;
        if k < self.groups.len() {
            let ghost entries = self.groups@[k as int].entries@;
            self.groups[k].entries.push(entry);
            proof {
                lemma_first_index(before, names_feature(feature@));
                assert(entry_views(entries.push(entry)) =~= entry_views(entries).push(e));
                assert(self@ =~= add_record(
                    before,
                    RecordView { feature: feature@, entry: e },
                ));
            }
        } else {
            let mut entries: Vec<Entry> = Vec::new();
            entries.push(entry);
            assert(entry_views(entries@) =~= seq![e]);
            self.groups.push(Group { feature, entries });
            assert(self@ =~= add_record(before, RecordView { feature: feature@, entry: e }));
        }
    }
}

} // verus!
