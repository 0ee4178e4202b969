//! Traits that tie a type to its tag or to its identifiers.
use vstd::prelude::*;
use crate::id::Id;
use crate::prefix::Prefix;

verus! {

/// A type with a constant tag.
pub trait Tagged {
    /// The tag of this type.
    const PREFIX: Prefix;
}

/// A type whose identifiers carry a tag given as text.
pub trait Type {
    /// The tag text for identifiers of this type.
    const PREFIX: &'static str;
}

/// A type whose values are identified by an `Id`.
pub trait Identifiable {
    /// The identifier of this value.
    fn id(&self) -> Id;
}

impl Identifiable for Id {
    fn id(&self) -> (r: Id)
        ensures
            r == *self,
    {
        *self
    }
}

} // verus!
