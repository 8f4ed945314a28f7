//! Short interned strings that name inputs and traces in the catalog and in
//! the worker registries.

use vstd::prelude::*;

verus! {

/// Declares `compact_str::CompactString` so it can stand in fields; the
/// value is opaque, described only through `compact_chars`.
#[verifier::external_type_specification]
#[verifier::external_body]
pub struct ExCompactString(compact_str::CompactString);

/// The characters a `CompactString` holds, in order.
pub uninterp spec fn compact_chars(s: compact_str::CompactString) -> Seq<char>;

/// Relies on `CompactString::new`, which copies the given string's contents.
#[verifier::external_body]
fn compact_new(text: &str) -> (r: compact_str::CompactString)
    ensures
        compact_chars(r) == text@,
{
    compact_str::CompactString::new(text)
}

/// Relies on `CompactString::as_str`, which returns the entire contents.
#[verifier::external_body]
fn compact_as_string(s: &compact_str::CompactString) -> (r: String)
    ensures
        r@ == compact_chars(*s),
{
    s.as_str().to_string()
}

/// Relies on `str` equality under `CompactString::as_str`: two strings are
/// equal exactly when they hold the same characters.
#[verifier::external_body]
fn compact_eq(a: &compact_str::CompactString, b: &compact_str::CompactString) -> (r: bool)
    ensures
        r == (compact_chars(*a) == compact_chars(*b)),
{
    a.as_str() == b.as_str()
}

/// Relies on `CompactString::clone`, which copies the contents.
#[verifier::external_body]
fn compact_clone(s: &compact_str::CompactString) -> (r: compact_str::CompactString)
    ensures
        compact_chars(r) == compact_chars(*s),
{
    s.clone()
}

/// The name of an input or a trace. Names compare by their characters.
#[derive(Debug)]
pub struct Name {
    s: compact_str::CompactString,
}

impl View for Name {
    type V = Seq<char>;

    closed spec fn view(&self) -> Seq<char> {
        compact_chars(self.s)
    }
}

impl Name {
    /// Intern the given text as a name.
    pub fn new(text: &str) -> (r: Name)
        ensures
            r@ == text@,
    {
        Name { s: compact_new(text) }
    }

    /// The name's text.
    pub fn text(&self) -> (r: String)
        ensures
            r@ == self@,
    {
        compact_as_string(&self.s)
    }
}

impl Clone for Name {
    fn clone(&self) -> (r: Name)
        ensures
            r@ == self@,
    {
        Name { s: compact_clone(&self.s) }
    }
}

impl PartialEq for Name {
    fn eq(&self, other: &Name) -> (r: bool) {
        compact_eq(&self.s, &other.s)
    }
}

impl vstd::std_specs::cmp::PartialEqSpecImpl for Name {
    open spec fn obeys_eq_spec() -> bool {
        true
    }

    open spec fn eq_spec(&self, other: &Name) -> bool {
        self@ == other@
    }
}

} // verus!
