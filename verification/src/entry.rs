//! What a registry holds for an identifier.

use vstd::prelude::*;

verus! {

/// The mathematical value of an [`OidEntry`].
pub struct OidEntryView {
    pub sn: Seq<char>,
    pub description: Seq<char>,
}

/// An entry stored in the registry: a short name and a description.
#[derive(Debug)]
pub struct OidEntry {
    sn: String,
    description: String,
}

impl View for OidEntry {
    type V = OidEntryView;

    closed spec fn view(&self) -> OidEntryView {
        OidEntryView { sn: self.sn@, description: self.description@ }
    }
}

impl OidEntry {
    /// A new entry.
    pub fn new(sn: &str, description: &str) -> (entry: OidEntry)
        ensures
            entry@ == (OidEntryView { sn: sn@, description: description@ }),
    {
        OidEntry { sn: sn.to_owned(), description: description.to_owned() }
    }

    /// The short name.
    #[inline]
    pub fn sn(&self) -> (text: &str)
        ensures
            text@ == self@.sn,
    {
        self.sn.as_str()
    }

    /// The description.
    #[inline]
    pub fn description(&self) -> (text: &str)
        ensures
            text@ == self@.description,
    {
        self.description.as_str()
    }
}

impl From<(&'static str, &'static str)> for OidEntry {
    /// The entry with the short name `t.0` and the description `t.1`.
    fn from(t: (&'static str, &'static str)) -> (entry: OidEntry)
        ensures
            entry@ == (OidEntryView { sn: t.0@, description: t.1@ }),
    {
        OidEntry::new(t.0, t.1)
    }
}

impl vstd::std_specs::convert::FromSpecImpl<(&'static str, &'static str)> for OidEntry {
    open spec fn obeys_from_spec() -> bool {
        false
    }

    open spec fn from_spec(t: (&'static str, &'static str)) -> OidEntry {
        choose|entry: OidEntry|
            #[trigger] entry.view() == (OidEntryView { sn: t.0@, description: t.1@ })
    }
}

} // verus!
