//! Object identifiers, held in their encoded form.

use crate::text::bytes_equal;
use std::borrow::Cow;
use vstd::prelude::*;

verus! {

/// The mathematical value of an [`Oid`]: the content octets of its encoding,
/// and whether the identifier is relative.
pub struct OidView {
    pub encoded: Seq<u8>,
    pub relative: bool,
}

/// An object identifier, kept as the content octets of its encoding.
///
/// Two identifiers are the same key exactly when their octets and their
/// `relative` flags agree.
#[derive(Debug)]
pub struct Oid {
    encoded: Vec<u8>,
    relative: bool,
}

/// Whether an encoding is short enough to be held: seven times its length,
/// and seven more, fit in `usize`. The identifier's text is computed with
/// counts of that size.
pub open spec fn fits(encoded: Seq<u8>) -> bool {
    7 * encoded.len() + 7 <= usize::MAX
}

impl View for Oid {
    type V = OidView;

    closed spec fn view(&self) -> OidView {
        OidView { encoded: self.encoded@, relative: self.relative }
    }
}

impl PartialEq for Oid {
    fn eq(&self, other: &Oid) -> (same: bool) {
        self.relative == other.relative && bytes_equal(
            self.encoded.as_slice(),
            other.encoded.as_slice(),
        )
    }
}

impl vstd::std_specs::cmp::PartialEqSpecImpl for Oid {
    open spec fn obeys_eq_spec() -> bool {
        true
    }

    open spec fn eq_spec(&self, other: &Oid) -> bool {
        self@ == other@
    }
}

impl Eq for Oid {

}

impl Clone for Oid {
    fn clone(&self) -> (copy: Oid)
        ensures
            copy@ == self@,
    {
        proof {
            use_type_invariant(self);
        }
        Oid { encoded: self.encoded.clone(), relative: self.relative }
    }
}

/// The text that `der_parser::oid::Oid` displays for the absolute identifier
/// whose content octets are `encoded`.
pub uninterp spec fn absolute_oid_text(encoded: Seq<u8>) -> Seq<char>;

/// The text that `der_parser::oid::Oid` displays for the relative identifier
/// whose content octets are `encoded`.
pub uninterp spec fn relative_oid_text(encoded: Seq<u8>) -> Seq<char>;

/// The displayed text of an identifier.
pub open spec fn oid_text(oid: OidView) -> Seq<char> {
    if oid.relative {
        relative_oid_text(oid.encoded)
    } else {
        absolute_oid_text(oid.encoded)
    }
}

/// Builds `der_parser::oid::Oid` (the type of `asn1_rs`, re-exported) with
/// `Oid::new` over the given octets and formats it with its `Display` impl.
/// The contract only names the outcome: the text is a function of the octets.
/// The octets are few enough for the bit counts that `Display` adds up.
#[verifier::external_body]
fn display_absolute(encoded: &[u8]) -> (text: String)
    requires
        fits(encoded@),
    ensures
        text@ == absolute_oid_text(encoded@),
{
    der_parser::oid::Oid::new(Cow::Borrowed(encoded)).to_string()
}

/// Builds `der_parser::oid::Oid` with `Oid::new_relative` over the given
/// octets and formats it with its `Display` impl. The contract only names the
/// outcome: the text is a function of the octets. The octets are few enough
/// for the bit counts that `Display` adds up.
#[verifier::external_body]
fn display_relative(encoded: &[u8]) -> (text: String)
    requires
        fits(encoded@),
    ensures
        text@ == relative_oid_text(encoded@),
{
    der_parser::oid::Oid::new_relative(Cow::Borrowed(encoded)).to_string()
}

/// Whether `encoded` is short enough to be held in an [`Oid`].
pub fn can_hold(encoded: &[u8]) -> (ok: bool)
    ensures
        ok == fits(encoded@),
{
    encoded.len() <= (usize::MAX - 7) / 7
}

impl Oid {
    #[verifier::type_invariant]
    spec fn short_enough(&self) -> bool {
        fits(self.encoded@)
    }

    /// An absolute identifier from the content octets of its encoding.
    pub fn new(encoded: Vec<u8>) -> (oid: Oid)
        requires
            fits(encoded@),
        ensures
            oid@ == (OidView { encoded: encoded@, relative: false }),
    {
        Oid { encoded, relative: false }
    }

    /// A relative identifier from the content octets of its encoding.
    pub fn new_relative(encoded: Vec<u8>) -> (oid: Oid)
        requires
            fits(encoded@),
        ensures
            oid@ == (OidView { encoded: encoded@, relative: true }),
    {
        Oid { encoded, relative: true }
    }

    /// The content octets of the encoding.
    pub fn as_bytes(&self) -> (bytes: &[u8])
        ensures
            bytes@ == self@.encoded,
            fits(bytes@),
    {
        proof {
            use_type_invariant(self);
        }
        self.encoded.as_slice()
    }

    /// Whether the identifier is relative.
    pub fn is_relative(&self) -> (relative: bool)
        ensures
            relative == self@.relative,
    {
        self.relative
    }

    /// The identifier as text, in the dotted form that `der_parser` displays.
    pub fn to_id_text(&self) -> (text: String)
        ensures
            text@ == oid_text(self@),
    {
        proof {
            use_type_invariant(self);
        }
        if self.relative {
            display_relative(self.encoded.as_slice())
        } else {
            display_absolute(self.encoded.as_slice())
        }
    }
}

} // verus!
