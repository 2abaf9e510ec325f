//! An identifier kept as text.
use vstd::prelude::*;
use ::uuid::Uuid;

verus! {

/// An identifier in its textual form.
#[derive(Debug, Clone, PartialEq, Eq, PartialOrd, Ord, Hash)]
pub struct UUID(String);

impl View for UUID {
    type V = Seq<char>;

    closed spec fn view(&self) -> Seq<char> {
        self.0@
    }
}

/// Draws a random identifier with `uuid::Uuid::new_v4` and writes it in the
/// hyphenated form, which has 36 characters.
#[verifier::external_body]
fn random_identifier() -> (text: String)
    ensures
        text@.len() == 36,
{
    Uuid::new_v4().to_hyphenated().to_string()
}

impl UUID {
    /// Wraps the text of an identifier.
    pub fn new(str: String) -> (res: UUID)
        ensures
            res@ == str@,
    {
        UUID(str)
    }

    /// A fresh random identifier, in the hyphenated form of 36 characters.
    pub fn generate() -> (res: UUID)
        ensures
            res@.len() == 36,
    {
        UUID(random_identifier())
    }

    /// The text of the identifier.
    pub fn as_str(&self) -> (res: &str)
        ensures
            res@ == self@,
    {
        self.0.as_str()
    }

    /// Whether two identifiers have the same text.
    pub fn same(&self, other: &UUID) -> (b: bool)
        ensures
            b == (self@ == other@),
    {
        self.0 == other.0
    }

    /// A copy of the identifier.
    pub fn duplicate(&self) -> (res: UUID)
        ensures
            res@ == self@,
    {
        UUID(self.0.clone())
    }
}

} // verus!
