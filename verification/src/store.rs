//! The component store: per entity, at most one value of each attribute
//! type, written once.

use crate::attribute::{Attribute, AttributeKind, AttributeValue, NetworkAddress};
use crate::entity::Entity;
use crate::error::{DuplicateAttributeError, MissingAttributeError};
use std::collections::HashMap;
use vstd::prelude::*;

verus! {

broadcast use vstd::std_specs::hash::group_hash_axioms;

/// What one entity carries: one slot for each attribute type.
#[derive(Clone, Debug)]
struct Slots {
    name: Option<String>,
    health: Option<u8>,
    killable: Option<bool>,
    address: Option<NetworkAddress>,
}

impl Slots {
    /// The value in the slot for `kind`, if the slot is filled.
    spec fn value(&self, kind: AttributeKind) -> Option<AttributeValue> {
        match kind {
            AttributeKind::Name => match self.name {
                Some(text) => Some(AttributeValue::Name(text@)),
                None => None,
            },
            AttributeKind::Health => match self.health {
                Some(points) => Some(AttributeValue::Health(points)),
                None => None,
            },
            AttributeKind::Killable => match self.killable {
                Some(flag) => Some(AttributeValue::Killable(flag)),
                None => None,
            },
            AttributeKind::NetworkAddress => match self.address {
                Some(address) => Some(AttributeValue::NetworkAddress(address)),
                None => None,
            },
        }
    }

    fn empty() -> (slots: Self)
        ensures
            forall|kind: AttributeKind| slots.value(kind) is None,
    {
        Slots { name: None, health: None, killable: None, address: None }
    }

    /// A copy of the value in the slot for `kind`.
    fn read(&self, kind: AttributeKind) -> (found: Option<Attribute>)
        ensures
            match found {
                Some(attribute) => self.value(kind) == Some(attribute@),
                None => self.value(kind) is None,
            },
    {
        match kind {
            AttributeKind::Name => match &self.name {
                Some(text) => Some(Attribute::Name(text.clone())),
                None => None,
            },
            AttributeKind::Health => match self.health {
                Some(points) => Some(Attribute::Health(points)),
                None => None,
            },
            AttributeKind::Killable => match self.killable {
                Some(flag) => Some(Attribute::Killable(flag)),
                None => None,
            },
            AttributeKind::NetworkAddress => match self.address {
                Some(address) => Some(Attribute::NetworkAddress(address)),
                None => None,
            },
        }
    }

    /// Fills the slot of the attribute's type, unless it is filled already.
    /// Returns whether the value was stored.
    fn fill(&mut self, attribute: Attribute) -> (stored: bool)
        ensures
            stored == (old(self).value(attribute@.kind()) is None),
            stored ==> final(self).value(attribute@.kind()) == Some(attribute@),
            !stored ==> *final(self) == *old(self),
            forall|kind: AttributeKind|
                kind != attribute@.kind() ==> final(self).value(kind) == old(self).value(kind),
    {
        match attribute {
            Attribute::Name(text) => {
                if self.name.is_some() {
                    false
                } else {
                    self.name = Some(text);
                    true
                }
            },
            Attribute::Health(points) => {
                if self.health.is_some() {
                    false
                } else {
                    self.health = Some(points);
                    true
                }
            },
            Attribute::Killable(flag) => {
                if self.killable.is_some() {
                    false
                } else {
                    self.killable = Some(flag);
                    true
                }
            },
            Attribute::NetworkAddress(address) => {
                if self.address.is_some() {
                    false
                } else {
                    self.address = Some(address);
                    true
                }
            },
        }
    }
}

/// Maps each pair of an entity and an attribute type to at most one value.
/// A value, once attached, is never changed or removed.
#[derive(Clone, Debug)]
pub struct ComponentStore {
    records: HashMap<u64, Slots>,
}

impl View for ComponentStore {
    type V = Map<(Entity, AttributeKind), AttributeValue>;

    /// The stored values, keyed by entity and attribute type.
    closed spec fn view(&self) -> Map<(Entity, AttributeKind), AttributeValue> {
        Map::new(
            |key: (Entity, AttributeKind)|
                self.records@.contains_key(key.0.id) && self.records@[key.0.id].value(key.1)
                    is Some,
            |key: (Entity, AttributeKind)| self.records@[key.0.id].value(key.1)->0,
        )
    }
}

/// The contents of a component store: the values, keyed by entity and
/// attribute type.
pub type Stored = Map<(Entity, AttributeKind), AttributeValue>;

/// What attaching `value` to `entity` does to a store that holds `stored`:
/// the contents afterwards, and the error, if the entity already had a
/// value of that type. A refused value changes nothing.
pub open spec fn attach_spec(
    stored: Stored,
    entity: Entity,
    value: AttributeValue,
) -> (Stored, Option<DuplicateAttributeError>) {
    if stored.contains_key((entity, value.kind())) {
        (stored, Some(DuplicateAttributeError { entity, kind: value.kind() }))
    } else {
        (stored.insert((entity, value.kind()), value), None)
    }
}

/// Attributes are written once: after a value was attached to an entity,
/// attaching a second value of the same type to it fails, naming the
/// entity and the type, and leaves the store as it was, the first value in
/// place.
pub proof fn lemma_write_once(
    stored: Stored,
    entity: Entity,
    first: AttributeValue,
    second: AttributeValue,
)
    requires
        first.kind() == second.kind(),
    ensures
        ({
            let after = attach_spec(stored, entity, first).0;
            &&& attach_spec(after, entity, second).1 == Some(
                DuplicateAttributeError { entity, kind: first.kind() },
            )
            &&& attach_spec(after, entity, second).0 == after
            &&& attach_spec(stored, entity, first).1 is None ==> after[(entity, first.kind())]
                == first
        }),
{
}

/// The first of `kinds` for which `entity` has no value in `stored`, by its
/// position, or `kinds.len()` if the entity has them all.
pub open spec fn first_missing(
    stored: Stored,
    entity: Entity,
    kinds: Seq<AttributeKind>,
) -> int
    decreases kinds.len(),
{
    if kinds.len() == 0 {
        0
    } else if !stored.contains_key((entity, kinds[0])) {
        0
    } else {
        1 + first_missing(stored, entity, kinds.drop_first())
    }
}

/// `first_missing` is the least position whose attribute type is absent.
pub proof fn lemma_first_missing(
    stored: Stored,
    entity: Entity,
    kinds: Seq<AttributeKind>,
)
    ensures
        0 <= first_missing(stored, entity, kinds) <= kinds.len(),
        forall|i: int|
            0 <= i < first_missing(stored, entity, kinds) ==> stored.contains_key(
                (entity, #[trigger] kinds[i]),
            ),
        first_missing(stored, entity, kinds) < kinds.len() ==> !stored.contains_key(
            (entity, kinds[first_missing(stored, entity, kinds)]),
        ),
    decreases kinds.len(),
{
    if kinds.len() > 0 && stored.contains_key((entity, kinds[0])) {
        let rest = kinds.drop_first();
        lemma_first_missing(stored, entity, rest);
        assert forall|i: int|
            0 <= i < first_missing(stored, entity, kinds) implies stored.contains_key(
            (entity, #[trigger] kinds[i]),
        ) by {
            if i > 0 {
                assert(kinds[i] == rest[i - 1]);
            }
        }
    }
}

impl ComponentStore {
    /// A store that holds nothing.
    pub fn new() -> (store: Self)
        ensures
            store@ == Map::<(Entity, AttributeKind), AttributeValue>::empty(),
    {
        let store = ComponentStore { records: HashMap::new() };
        assert(store@ =~= Map::<(Entity, AttributeKind), AttributeValue>::empty());
        store
    }

    /// Every stored value is of the type it is stored under.
    pub proof fn lemma_kinds(&self)
        ensures
            forall|key: (Entity, AttributeKind)| #[trigger]
                self@.contains_key(key) ==> self@[key].kind() == key.1,
    {
    }

    /// Stores one attribute value for one entity.
    ///
    /// Attributes are written once: if the entity already has a value of
    /// this type, the store is left as it was and the error names the
    /// entity and the type.
    pub fn attach(&mut self, entity: Entity, attribute: Attribute) -> (result: Result<
        (),
        DuplicateAttributeError,
    >)
        ensures
            final(self)@ == attach_spec(old(self)@, entity, attribute@).0,
            match result {
                Ok(()) => attach_spec(old(self)@, entity, attribute@).1 is None,
                Err(error) => attach_spec(old(self)@, entity, attribute@).1 == Some(error),
            },
    {
        let kind = attribute.kind();
        let ghost value = attribute@;
        let mut slots = match self.records.remove(&entity.id) {
            Some(slots) => slots,
            None => Slots::empty(),
        };
        let stored = slots.fill(attribute);
        self.records.insert(entity.id, slots);
        if stored {
            assert(final(self)@ =~= old(self)@.insert((entity, kind), value));
            Ok(())
        } else {
            assert(final(self)@ =~= old(self)@);
            Err(DuplicateAttributeError { entity, kind })
        }
    }

    /// Whether the entity has a value of the given type.
    pub fn has(&self, entity: Entity, kind: AttributeKind) -> (present: bool)
        ensures
            present == self@.contains_key((entity, kind)),
    {
        match self.records.get(&entity.id) {
            Some(slots) => slots.read(kind).is_some(),
            None => false,
        }
    }

    /// A copy of the entity's value of the given type, or `None` if none
    /// was attached.
    pub fn get(&self, entity: Entity, kind: AttributeKind) -> (found: Option<Attribute>)
        ensures
            match found {
                Some(attribute) => self@.contains_key((entity, kind)) && attribute@ == self@[(
                    entity,
                    kind,
                )],
                None => !self@.contains_key((entity, kind)),
            },
    {
        match self.records.get(&entity.id) {
            Some(slots) => slots.read(kind),
            None => None,
        }
    }

    /// The entity's values of the requested types, in the order requested.
    ///
    /// Succeeds exactly when the entity has a value of every requested
    /// type. Otherwise the error names the first requested type that was
    /// never attached.
    pub fn get_all(&self, entity: Entity, kinds: &Vec<AttributeKind>) -> (result: Result<
        Vec<Attribute>,
        MissingAttributeError,
    >)
        ensures
            match result {
                Ok(values) => {
                    &&& first_missing(self@, entity, kinds@) == kinds@.len()
                    &&& values@.len() == kinds@.len()
                    &&& forall|i: int|
                        0 <= i < kinds@.len() ==> self@.contains_key((entity, kinds@[i]))
                            && (#[trigger] values@[i])@ == self@[(entity, kinds@[i])]
                },
                Err(error) => {
                    &&& first_missing(self@, entity, kinds@) < kinds@.len()
                    &&& error == (MissingAttributeError {
                        entity,
                        kind: kinds@[first_missing(self@, entity, kinds@)],
                    })
                },
            },
    {
        let mut values: Vec<Attribute> = Vec::new();
        let count: usize = kinds.len();
        let mut i: usize = 0;
        let ghost limit = first_missing(self@, entity, kinds@);
        proof {
            lemma_first_missing(self@, entity, kinds@);
        }
        while i < count
            invariant
                count == kinds@.len(),
                limit == first_missing(self@, entity, kinds@),
                i <= limit <= count,
                values@.len() == i,
                forall|j: int| 0 <= j < limit ==> self@.contains_key((entity, #[trigger] kinds@[j])),
                limit < count ==> !self@.contains_key((entity, kinds@[limit])),
                forall|j: int|
                    0 <= j < i ==> (#[trigger] values@[j])@ == self@[(entity, kinds@[j])],
            decreases count - i,
        {
            let kind = kinds[i];
            match self.get(entity, kind) {
                Some(attribute) => {
                    values.push(attribute);
                },
                None => {
                    return Err(MissingAttributeError { entity, kind });
                },
            }
            i += 1;
        }
        Ok(values)
    }
}

} // verus!
