//! Small capability traits for the arrows of the ontology: having an author,
//! an actor, an affector, or an identity of one's own.
//!
//! Identifiers are plain `u64` values; uniqueness is scoped to entities of
//! the same kind (message identifiers never meet agent identifiers).

use vstd::prelude::*;

verus! {

/// An object which has an author.
pub trait Authored {
    /// The identifier of the author, as a specification-level value.
    spec fn author_id_spec(&self) -> u64;

    /// Returns the identifier of the author of this object.
    fn author_id(&self) -> (r: u64)
        ensures
            r == self.author_id_spec(),
    ;
}

/// An object which has an actor: the agent that enacts it.
pub trait Actored {
    /// The identifier of the actor, as a specification-level value.
    spec fn actor_id_spec(&self) -> u64;

    /// Returns the identifier of the actor of this object.
    fn actor_id(&self) -> (r: u64)
        ensures
            r == self.actor_id_spec(),
    ;
}

/// An object which has an affector: the agent that an effect applies to.
pub trait Affectored {
    /// The identifier of the affector, as a specification-level value.
    spec fn affector_id_spec(&self) -> u64;

    /// Returns the identifier of the affector of this object.
    fn affector_id(&self) -> (r: u64)
        ensures
            r == self.affector_id_spec(),
    ;
}

/// An object which is uniquely identifiable among entities of its kind.
pub trait Identifiable {
    /// The identifier of this object, as a specification-level value.
    spec fn id_spec(&self) -> u64;

    /// Returns the identifier of this object.
    fn id(&self) -> (r: u64)
        ensures
            r == self.id_spec(),
    ;
}

} // verus!
