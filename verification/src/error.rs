//! The two ways in which the component store refuses a request.

use crate::attribute::AttributeKind;
use crate::entity::Entity;
use crate::text::{decimal, push_decimal};
use vstd::prelude::*;

verus! {

/// An attribute was attached to an entity that already has a value of that
/// type. Attributes are written once, so this is a mistake in seeding.
#[derive(Clone, Copy, Debug, PartialEq, Eq, Structural)]
pub struct DuplicateAttributeError {
    /// The entity that already has the attribute.
    pub entity: Entity,
    /// The type of the attribute.
    pub kind: AttributeKind,
}

/// An attribute was requested of an entity to which it was never attached.
#[derive(Clone, Copy, Debug, PartialEq, Eq, Structural)]
pub struct MissingAttributeError {
    /// The entity that lacks the attribute.
    pub entity: Entity,
    /// The type of the attribute.
    pub kind: AttributeKind,
}

impl DuplicateAttributeError {
    /// The diagnostic for this error: which entity already has which
    /// attribute.
    pub open spec fn message_spec(&self) -> Seq<char> {
        "entity "@ + decimal(self.entity.id as nat) + " already has attribute "@
            + self.kind.name_spec()
    }

    /// The diagnostic for this error, to be shown before the operation is
    /// given up.
    pub fn message(&self) -> (text: String)
        ensures
            text@ == self.message_spec(),
    {
        let mut text = String::new();
        text.append("entity ");
        push_decimal(&mut text, self.entity.id);
        text.append(" already has attribute ");
        text.append(self.kind.name());
        assert(text@ =~= self.message_spec());
        text
    }
}

impl MissingAttributeError {
    /// The diagnostic for this error: which entity lacks which attribute.
    pub open spec fn message_spec(&self) -> Seq<char> {
        "entity "@ + decimal(self.entity.id as nat) + " has no attribute "@ + self.kind.name_spec()
    }

    /// The diagnostic for this error, to be shown before the operation is
    /// given up.
    pub fn message(&self) -> (text: String)
        ensures
            text@ == self.message_spec(),
    {
        let mut text = String::new();
        text.append("entity ");
        push_decimal(&mut text, self.entity.id);
        text.append(" has no attribute ");
        text.append(self.kind.name());
        assert(text@ =~= self.message_spec());
        text
    }
}

} // verus!
