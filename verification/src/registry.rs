//! The registry: a map from identifiers to entries.

use crate::entry::{OidEntry, OidEntryView};
use crate::oid::{oid_text, Oid, OidView};
use crate::text::{first_index, lemma_first_index, lemma_first_index_is};
use vstd::prelude::*;
use vstd::string::StringExecFns;

verus! {

/// One identifier with its entry.
#[derive(Debug)]
struct Slot {
    oid: Oid,
    entry: OidEntry,
}

/// Registry of known identifiers.
///
/// `OidRegistry::default()` is the empty registry. An identifier has at most
/// one entry: inserting under an identifier that is present replaces its entry.
#[derive(Debug)]
pub struct OidRegistry {
    slots: Vec<Slot>,
}

/// The predicate "is the identifier `oid`".
pub open spec fn is_oid(oid: OidView) -> spec_fn(OidView) -> bool {
    |other: OidView| other == oid
}

/// What `map` holds for `oid`, if anything.
pub open spec fn lookup(map: Map<OidView, OidEntryView>, oid: OidView) -> Option<OidEntryView> {
    if map.contains_key(oid) {
        Some(map[oid])
    } else {
        None
    }
}

/// Maps that hold the same for every identifier are the same map.
pub proof fn lemma_same_lookup(a: Map<OidView, OidEntryView>, b: Map<OidView, OidEntryView>)
    requires
        forall|oid: OidView| #[trigger] lookup(a, oid) == lookup(b, oid),
    ensures
        a == b,
{
    assert forall|oid: OidView| #[trigger] a.dom().contains(oid) == b.dom().contains(oid) by {
        assert(lookup(a, oid) == lookup(b, oid));
    }
    assert forall|oid: OidView| a.dom().contains(oid) implies #[trigger] a[oid] == b[oid] by {
        assert(lookup(a, oid) == lookup(b, oid));
    }
    assert(a.dom() =~= b.dom());
    assert(a =~= b);
}

/// The last write wins. After inserting `first` under `oid`, the map holds
/// `first` for it; inserting `second` under `oid` then finds `first` there,
/// and afterwards the map holds `second`. What the map holds for any other
/// identifier stays as it was, so no identifier is ever lost.
pub proof fn lemma_last_write_wins(
    map: Map<OidView, OidEntryView>,
    oid: OidView,
    first: OidEntryView,
    second: OidEntryView,
)
    ensures
        lookup(map.insert(oid, first), oid) == Some(first),
        lookup(map.insert(oid, first).insert(oid, second), oid) == Some(second),
        map.insert(oid, first).insert(oid, second) == map.insert(oid, second),
        forall|other: OidView|
            other != oid ==> #[trigger] lookup(map.insert(oid, first), other) == lookup(map, other),
        map.dom().subset_of(map.insert(oid, first).dom()),
{
    assert(map.insert(oid, first).insert(oid, second) =~= map.insert(oid, second));
}

/// The mathematical value of an entry that may be absent.
pub open spec fn entry_view(entry: Option<OidEntry>) -> Option<OidEntryView> {
    match entry {
        Some(e) => Some(e@),
        None => None,
    }
}

/// The mathematical value of a reference to an entry that may be absent.
pub open spec fn entry_ref_view(entry: Option<&OidEntry>) -> Option<OidEntryView> {
    match entry {
        Some(e) => Some(e@),
        None => None,
    }
}

/// The mathematical values of a run of identifiers.
pub open spec fn oid_views(oids: Seq<&Oid>) -> Seq<OidView> {
    Seq::new(oids.len(), |i: int| oids[i]@)
}

/// The mathematical values of a run of entries.
pub open spec fn entry_views(entries: Seq<&OidEntry>) -> Seq<OidEntryView> {
    Seq::new(entries.len(), |i: int| entries[i]@)
}

/// The mathematical values of a run of pairs.
pub open spec fn pair_views(pairs: Seq<(&Oid, &OidEntry)>) -> Seq<(OidView, OidEntryView)> {
    Seq::new(pairs.len(), |i: int| (pairs[i].0@, pairs[i].1@))
}

/// Whether `keys` list the identifiers of `map`, each once.
pub open spec fn lists_keys(keys: Seq<OidView>, map: Map<OidView, OidEntryView>) -> bool {
    &&& keys.no_duplicates()
    &&& forall|oid: OidView| keys.contains(oid) <==> map.contains_key(oid)
    &&& map.dom().finite()
    &&& keys.len() == map.len()
}

/// The text for an identifier with the short name `sn` and the dotted text
/// `text`: the short name, then the dotted text in round brackets.
pub open spec fn labelled(sn: Seq<char>, text: Seq<char>) -> Seq<char> {
    sn + seq![' ', '('] + text + seq![')']
}

/// The text for an identifier with the dotted text `text` of which a
/// registry holds `entry`, or nothing.
pub open spec fn formatted(entry: Option<OidEntryView>, text: Seq<char>) -> Seq<char> {
    match entry {
        Some(e) => labelled(e.sn, text),
        None => text,
    }
}

/// The identifiers of `slots`, in their order.
spec fn keys_of(slots: Seq<Slot>) -> Seq<OidView> {
    Seq::new(slots.len(), |i: int| slots[i].oid@)
}

impl View for OidRegistry {
    type V = Map<OidView, OidEntryView>;

    closed spec fn view(&self) -> Map<OidView, OidEntryView> {
        Map::new(
            |oid: OidView| first_index(self.order(), is_oid(oid)) < self.slots@.len(),
            |oid: OidView| self.slots@[first_index(self.order(), is_oid(oid))].entry@,
        )
    }
}

impl OidRegistry {
    /// The identifiers of the registry in the order in which `keys`, `values`
    /// and `iter` go through it.
    pub closed spec fn order(&self) -> Seq<OidView> {
        keys_of(self.slots@)
    }

    /// The function from an identifier to the entry that the registry holds for it.
    pub open spec fn entry_at(&self) -> spec_fn(OidView) -> OidEntryView {
        |oid: OidView| self@[oid]
    }

    /// The function from an identifier to the pair of it and its entry.
    pub open spec fn pair_at(&self) -> spec_fn(OidView) -> (OidView, OidEntryView) {
        |oid: OidView| (oid, self@[oid])
    }

    #[verifier::type_invariant]
    spec fn distinct(&self) -> bool {
        self.order().no_duplicates()
    }

    /// The index of the slot of `oid`, or the number of slots.
    fn slot_of(&self, oid: &Oid) -> (k: usize)
        ensures
            k == first_index(self.order(), is_oid(oid@)),
            k <= self.slots@.len(),
            k < self.slots@.len() <==> self@.contains_key(oid@),
            k < self.slots@.len() ==> self.slots@[k as int].oid@ == oid@,
    {
        let mut k: usize = 0;
        while k < self.slots.len() && !(self.slots[k].oid == *oid)
            invariant
                k <= self.slots@.len(),
                self.order().len() == self.slots@.len(),
                forall|i: int| 0 <= i < k ==> !is_oid(oid@)(#[trigger] self.order()[i]),
            decreases self.slots@.len() - k,
        {
            k += 1;
        }
        proof {
            lemma_first_index_is(self.order(), is_oid(oid@), k as int);
        }
        k
    }

    /// Moves the slots out and leaves the registry empty.
    fn take_slots(&mut self) -> (slots: Vec<Slot>)
        ensures
            slots@ == old(self).slots@,
    {
        let mut taken = OidRegistry { slots: Vec::new() };
        std::mem::swap(self, &mut taken);
        let OidRegistry { slots } = taken;
        slots
    }

    /// Inserts `entry` under `oid` and returns the entry that was there before.
    pub fn insert(&mut self, oid: Oid, entry: OidEntry) -> (previous: Option<OidEntry>)
        ensures
            final(self)@ == old(self)@.insert(oid@, entry@),
            entry_view(previous) == lookup(old(self)@, oid@),
            final(self).order() == if old(self)@.contains_key(oid@) {
                old(self).order()
            } else {
                old(self).order().push(oid@)
            },
    {
        proof {
            use_type_invariant(&*self);
        }
        let k = self.slot_of(&oid);
        let ghost before = *self;
        let ghost key = oid@;
        let ghost value = entry@;
        let mut slots = self.take_slots();
        if k < slots.len() {
            let mut slot = Slot { oid, entry };
            std::mem::swap(&mut slots[k], &mut slot);
            assert(keys_of(slots@) =~= before.order());
            *self = OidRegistry { slots };
            proof {
                assert(self.order() == before.order());
                assert forall|other: OidView| #[trigger]
                    lookup(self@, other) == lookup(before@.insert(key, value), other) by {
                    lemma_first_index(before.order(), is_oid(other));
                }
                lemma_same_lookup(self@, before@.insert(key, value));
            }
            Some(slot.entry)
        } else {
            slots.push(Slot { oid, entry });
            proof {
                assert(keys_of(slots@) =~= before.order().push(key));
                lemma_first_index(before.order(), is_oid(key));
                assert forall|i: int| 0 <= i < before.order().len() implies before.order()[i]
                    != key by {
                    assert(!is_oid(key)(before.order()[i]));
                }
            }
            *self = OidRegistry { slots };
            proof {
                assert(self.order() == before.order().push(key));
                assert forall|other: OidView| #[trigger]
                    lookup(self@, other) == lookup(before@.insert(key, value), other) by {
                    lemma_first_index(before.order(), is_oid(other));
                    let j = first_index(before.order(), is_oid(other));
                    let target = if other != key && j == before.order().len() {
                        j + 1
                    } else {
                        j
                    };
                    lemma_first_index_is(self.order(), is_oid(other), target);
                }
                lemma_same_lookup(self@, before@.insert(key, value));
            }
            None
        }
    }

    /// The entry of `oid`, if the registry holds one.
    pub fn get(&self, oid: &Oid) -> (found: Option<&OidEntry>)
        ensures
            entry_ref_view(found) == lookup(self@, oid@),
    {
        let k = self.slot_of(oid);
        if k < self.slots.len() {
            Some(&self.slots[k].entry)
        } else {
            None
        }
    }

    /// The identifiers of the registry.
    pub fn keys(&self) -> (keys: Vec<&Oid>)
        ensures
            oid_views(keys@) == self.order(),
            lists_keys(self.order(), self@),
    {
        proof {
            use_type_invariant(self);
            lemma_slots(self.slots@);
            assert(self@.dom() =~= self.order().to_set());
        }
        let mut keys: Vec<&Oid> = Vec::new();
        let mut k: usize = 0;
        while k < self.slots.len()
            invariant
                k <= self.slots@.len(),
                self.order().len() == self.slots@.len(),
                oid_views(keys@) == self.order().take(k as int),
            decreases self.slots@.len() - k,
        {
            let ghost done = oid_views(keys@);
            keys.push(&self.slots[k].oid);
            assert(self.order()[k as int] == self.slots@[k as int].oid@);
            assert(oid_views(keys@) =~= done.push(self.order()[k as int]));
            k += 1;
            assert(self.order().take(k as int) =~= self.order().take(k - 1).push(
                self.order()[k - 1],
            ));
        }
        assert(self.order().take(k as int) =~= self.order());
        keys
    }

    /// The entries of the registry, each at the place of its identifier in `keys`.
    pub fn values(&self) -> (values: Vec<&OidEntry>)
        ensures
            entry_views(values@) == self.order().map_values(self.entry_at()),
            lists_keys(self.order(), self@),
    {
        proof {
            use_type_invariant(self);
            lemma_slots(self.slots@);
            assert(self@.dom() =~= self.order().to_set());
        }
        let mut values: Vec<&OidEntry> = Vec::new();
        let mut k: usize = 0;
        while k < self.slots.len()
            invariant
                k <= self.slots@.len(),
                self.order().len() == self.slots@.len(),
                forall|i: int|
                    0 <= i < self.slots@.len() ==> first_index(
                        self.order(),
                        is_oid(#[trigger] self.order()[i]),
                    ) == i,
                entry_views(values@) == self.order().take(k as int).map_values(self.entry_at()),
            decreases self.slots@.len() - k,
        {
            let ghost done = entry_views(values@);
            let ghost oid = self.order()[k as int];
            values.push(&self.slots[k].entry);
            assert(self@[oid] == self.slots@[k as int].entry@);
            assert(entry_views(values@) =~= done.push(self@[oid]));
            k += 1;
            assert(self.order().take(k as int).map_values(self.entry_at()) =~= self.order().take(
                k - 1,
            ).map_values(self.entry_at()).push(self@[oid]));
        }
        assert(self.order().take(k as int) =~= self.order());
        values
    }

    /// The identifiers of the registry, each with its entry.
    pub fn iter(&self) -> (pairs: Vec<(&Oid, &OidEntry)>)
        ensures
            pair_views(pairs@) == self.order().map_values(self.pair_at()),
            lists_keys(self.order(), self@),
    {
        proof {
            use_type_invariant(self);
            lemma_slots(self.slots@);
            assert(self@.dom() =~= self.order().to_set());
        }
        let mut pairs: Vec<(&Oid, &OidEntry)> = Vec::new();
        let mut k: usize = 0;
        while k < self.slots.len()
            invariant
                k <= self.slots@.len(),
                self.order().len() == self.slots@.len(),
                forall|i: int|
                    0 <= i < self.slots@.len() ==> first_index(
                        self.order(),
                        is_oid(#[trigger] self.order()[i]),
                    ) == i,
                pair_views(pairs@) == self.order().take(k as int).map_values(self.pair_at()),
            decreases self.slots@.len() - k,
        {
            let ghost done = pair_views(pairs@);
            let ghost oid = self.order()[k as int];
            pairs.push((&self.slots[k].oid, &self.slots[k].entry));
            assert(oid == self.slots@[k as int].oid@);
            assert(self@[oid] == self.slots@[k as int].entry@);
            assert(pair_views(pairs@) =~= done.push((oid, self@[oid])));
            k += 1;
            assert(self.order().take(k as int).map_values(self.pair_at()) =~= self.order().take(
                k - 1,
            ).map_values(self.pair_at()).push((oid, self@[oid])));
        }
        assert(self.order().take(k as int) =~= self.order());
        pairs
    }

}

/// Where no identifier has two slots, each identifier is found at its slot,
/// and the identifiers found are those of the slots.
proof fn lemma_slots(slots: Seq<Slot>)
    requires
        keys_of(slots).no_duplicates(),
    ensures
        forall|i: int|
            0 <= i < slots.len() ==> first_index(
                keys_of(slots),
                is_oid(#[trigger] keys_of(slots)[i]),
            ) == i,
        forall|oid: OidView|
            keys_of(slots).contains(oid) <==> #[trigger] first_index(keys_of(slots), is_oid(oid))
                < slots.len(),
        keys_of(slots).to_set().finite(),
        keys_of(slots).to_set().len() == slots.len(),
{
    let keys = keys_of(slots);
    keys.unique_seq_to_set();
    assert forall|i: int| 0 <= i < slots.len() implies first_index(
        keys,
        is_oid(#[trigger] keys[i]),
    ) == i by {
        lemma_first_index_is(keys, is_oid(keys[i]), i);
    }
    assert forall|oid: OidView|
        keys.contains(oid) <==> #[trigger] first_index(keys, is_oid(oid)) < slots.len() by {
        lemma_first_index(keys, is_oid(oid));
        if keys.contains(oid) {
            let i = choose|i: int| 0 <= i < keys.len() && keys[i] == oid;
            assert(is_oid(oid)(keys[i]));
        }
    }
}

/// Formats an identifier of which `text` is the dotted text and `entry` what
/// a registry holds for it.
pub fn format_with(entry: Option<&OidEntry>, text: &str) -> (out: String)
    ensures
        out@ == formatted(entry_ref_view(entry), text@),
{
    match entry {
        Some(e) => {
            let mut out = e.sn().to_owned();
            out.append(" (");
            out.append(text);
            out.append(")");
            proof {
                reveal_strlit(" (");
                reveal_strlit(")");
                assert(out@ =~= labelled(e@.sn, text@));
            }
            out
        },
        None => text.to_owned(),
    }
}

/// Formats an identifier, with its short name where `registry` holds an
/// entry for it.
pub fn format_oid(oid: &Oid, registry: &OidRegistry) -> (out: String)
    ensures
        out@ == formatted(lookup(registry@, oid@), oid_text(oid@)),
{
    let text = oid.to_id_text();
    format_with(registry.get(oid), text.as_str())
}

impl Default for OidRegistry {
    /// The empty registry.
    fn default() -> (registry: OidRegistry)
        ensures
            registry@ == Map::<OidView, OidEntryView>::empty(),
    {
        let registry = OidRegistry { slots: Vec::new() };
        assert(registry@ =~= Map::<OidView, OidEntryView>::empty());
        registry
    }
}

} // verus!
