//! Stable search identifiers.

use vstd::prelude::*;
use vstd::string::StringExecFns;

verus! {

/// Error returned by id constructors.
#[derive(Clone, Debug, PartialEq, Eq, Structural)]
pub enum EvolutionError {
    /// A stable id was empty.
    EmptyIdentifier,
}

/// Result alias used by the library's fallible constructors.
pub type EvolutionResult<T> = Result<T, EvolutionError>;

/// Stable candidate identifier. Its text is never empty.
#[derive(Debug, Eq, Hash, Ord, PartialEq, PartialOrd)]
pub struct CandidateId(String);

impl Clone for CandidateId {
    /// A copy of the id with the same text.
    fn clone(&self) -> (copy: Self)
        ensures
            copy@ == self@,
    {
        self.duplicate()
    }
}

impl View for CandidateId {
    type V = Seq<char>;

    open spec fn view(&self) -> Seq<char> {
        self.text()
    }
}

impl CandidateId {
    /// The identifier's text.
    pub closed spec fn text(&self) -> Seq<char> {
        self.0@
    }

    /// An identifier always has some text.
    #[verifier::type_invariant]
    spec fn non_empty(self) -> bool {
        self.0@.len() > 0
    }

    /// Creates a non-empty candidate id; an empty text is refused.
    pub fn new(value: &str) -> (result: EvolutionResult<Self>)
        ensures
            value@.len() == 0 <==> result == Err::<Self, EvolutionError>(EvolutionError::EmptyIdentifier),
            result matches Ok(id) ==> id@ == value@,
    {
        if value.is_empty() {
            return Err(EvolutionError::EmptyIdentifier);
        }
        Ok(CandidateId(String::from_str(value)))
    }

    /// Returns the id text, which is never empty.
    pub fn as_str(&self) -> (text: &str)
        ensures
            text@ == self@,
            text@.len() > 0,
    {
        proof {
            use_type_invariant(self);
        }
        self.0.as_str()
    }

    /// Builds an id from a non-empty text that the library composed.
    pub(crate) fn from_text(text: String) -> (id: Self)
        requires
            text@.len() > 0,
        ensures
            id@ == text@,
    {
        CandidateId(text)
    }

    /// A copy of this id with the same text.
    pub(crate) fn duplicate(&self) -> (copy: Self)
        ensures
            copy@ == self@,
    {
        proof {
            use_type_invariant(self);
        }
        CandidateId(self.0.clone())
    }

    /// Whether two ids hold the same text.
    pub(crate) fn same_as(&self, other: &CandidateId) -> (same: bool)
        ensures
            same == (self@ == other@),
    {
        self.0 == other.0
    }
}

} // verus!
