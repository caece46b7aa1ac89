//! The world: the entity registry and the component store together, and
//! the queries that combine them.

use crate::attribute::{Attribute, AttributeKind, AttributeValue, Tag};
use crate::entity::{lemma_tagged, next_entity, tagged, Entity, EntityRegistry};
use crate::error::{DuplicateAttributeError, MissingAttributeError};
use crate::store::{first_missing, lemma_first_missing, ComponentStore, Stored};
use vstd::prelude::*;

verus! {

/// The values that `entity` has of the types `kinds`, in that order.
pub open spec fn row_of(stored: Stored, entity: Entity, kinds: Seq<AttributeKind>) -> Seq<
    AttributeValue,
> {
    Seq::new(kinds.len(), |j: int| stored[(entity, kinds[j])])
}

/// The position of the first of `entities` that lacks a value of one of
/// `kinds`, or `entities.len()` if each of them has them all.
pub open spec fn first_incomplete(
    stored: Stored,
    entities: Seq<Entity>,
    kinds: Seq<AttributeKind>,
) -> int
    decreases entities.len(),
{
    if entities.len() == 0 {
        0
    } else if first_missing(stored, entities[0], kinds) < kinds.len() {
        0
    } else {
        1 + first_incomplete(stored, entities.drop_first(), kinds)
    }
}

/// `first_incomplete` is the least position of an entity that lacks one of
/// the requested types.
pub proof fn lemma_first_incomplete(
    stored: Stored,
    entities: Seq<Entity>,
    kinds: Seq<AttributeKind>,
)
    ensures
        0 <= first_incomplete(stored, entities, kinds) <= entities.len(),
        forall|i: int|
            0 <= i < first_incomplete(stored, entities, kinds) ==> first_missing(
                stored,
                #[trigger] entities[i],
                kinds,
            ) == kinds.len(),
        first_incomplete(stored, entities, kinds) < entities.len() ==> first_missing(
            stored,
            entities[first_incomplete(stored, entities, kinds)],
            kinds,
        ) < kinds.len(),
    decreases entities.len(),
{
    if entities.len() > 0 {
        lemma_first_missing(stored, entities[0], kinds);
        if first_missing(stored, entities[0], kinds) == kinds.len() {
            let rest = entities.drop_first();
            lemma_first_incomplete(stored, rest, kinds);
            assert forall|i: int|
                0 <= i < first_incomplete(stored, entities, kinds) implies first_missing(
                stored,
                #[trigger] entities[i],
                kinds,
            ) == kinds.len() by {
                if i > 0 {
                    assert(entities[i] == rest[i - 1]);
                }
            }
        }
    }
}

/// What a query for the entities tagged `tag` and their attributes of the
/// types `kinds` returns, in a world whose entities carry `tags` and whose
/// store holds `stored`.
///
/// The rows stand in allocation order of their entities, one row for each
/// entity that carries the tag, the values of a row in the order of
/// `kinds`. If some such entity lacks a requested type, the query fails
/// for the first such entity and the first type that it lacks.
pub open spec fn query_spec(
    tags: Seq<Tag>,
    stored: Stored,
    tag: Tag,
    kinds: Seq<AttributeKind>,
) -> Result<Seq<Seq<AttributeValue>>, MissingAttributeError> {
    let entities = tagged(tags, tag);
    let at = first_incomplete(stored, entities, kinds);
    if at == entities.len() {
        Ok(Seq::new(entities.len(), |i: int| row_of(stored, entities[i], kinds)))
    } else {
        Err(
            MissingAttributeError {
                entity: entities[at],
                kind: kinds[first_missing(stored, entities[at], kinds)],
            },
        )
    }
}

/// The position of the first of `values` that cannot be attached to
/// `entity`, when they are attached one after the other to a store that
/// holds `stored`; `values.len()` if all of them can. A value cannot be
/// attached when the entity already has one of its type, from the store or
/// from an earlier value.
pub open spec fn first_clash(stored: Stored, entity: Entity, values: Seq<AttributeValue>) -> int
    decreases values.len(),
{
    if values.len() == 0 {
        0
    } else if stored.contains_key((entity, values[0].kind())) {
        0
    } else {
        1 + first_clash(
            stored.insert((entity, values[0].kind()), values[0]),
            entity,
            values.drop_first(),
        )
    }
}

/// `first_clash` is a position in `values`, or their number.
pub proof fn lemma_first_clash_bounds(stored: Stored, entity: Entity, values: Seq<AttributeValue>)
    ensures
        0 <= first_clash(stored, entity, values) <= values.len(),
    decreases values.len(),
{
    if values.len() > 0 && !stored.contains_key((entity, values[0].kind())) {
        lemma_first_clash_bounds(
            stored.insert((entity, values[0].kind()), values[0]),
            entity,
            values.drop_first(),
        );
    }
}

/// The store after `values` were attached to `entity` one after the other,
/// up to the first that could not be.
pub open spec fn attached(stored: Stored, entity: Entity, values: Seq<AttributeValue>) -> Stored
    decreases values.len(),
{
    if values.len() == 0 {
        stored
    } else if stored.contains_key((entity, values[0].kind())) {
        stored
    } else {
        attached(
            stored.insert((entity, values[0].kind()), values[0]),
            entity,
            values.drop_first(),
        )
    }
}

/// Whether every allocated entity has exactly the attributes that its tag
/// calls for, and nothing is stored for an identity that was never
/// allocated.
pub open spec fn complete(tags: Seq<Tag>, stored: Stored) -> bool {
    forall|entity: Entity, kind: AttributeKind| #[trigger]
        stored.contains_key((entity, kind)) <==> (entity.id < tags.len() && tags[entity.id as int]
            .mandates_spec(kind))
}

/// The rows of a query result, or its error.
pub open spec fn answer(result: Result<Vec<Vec<Attribute>>, MissingAttributeError>) -> Result<
    Seq<Seq<AttributeValue>>,
    MissingAttributeError,
> {
    match result {
        Ok(rows) => Ok(rows.deep_view()),
        Err(error) => Err(error),
    }
}

/// Partitions are exclusive: the rows of a query belong, one for one and in
/// order, to the entities that carry the tag asked for, so an entity that
/// carries another tag contributes no row. In particular the entities
/// listed for one tag and those listed for a different tag have nothing in
/// common.
pub proof fn lemma_partition_exclusive(
    world: World,
    tag: Tag,
    kinds: Seq<AttributeKind>,
    rows: Seq<Seq<AttributeValue>>,
)
    requires
        query_spec(world.registry@, world.store@, tag, kinds) == Ok::<
            Seq<Seq<AttributeValue>>,
            MissingAttributeError,
        >(rows),
    ensures
        rows.len() == tagged(world.registry@, tag).len(),
        forall|i: int|
            0 <= i < rows.len() ==> {
                let entity = #[trigger] tagged(world.registry@, tag)[i];
                &&& entity.id < world.registry@.len()
                &&& world.registry@[entity.id as int] == tag
                &&& rows[i] == row_of(world.store@, entity, kinds)
            },
        forall|entity: Entity|
            entity.id < world.registry@.len() && world.registry@[entity.id as int] != tag
                ==> !(#[trigger] tagged(world.registry@, tag).contains(entity)),
        forall|entity: Entity, other: Tag|
            other != tag && #[trigger] tagged(world.registry@, tag).contains(entity)
                ==> !(#[trigger] tagged(world.registry@, other).contains(entity)),
{
    world.registry.lemma_len_bounded();
    let tags = world.registry@;
    lemma_tagged(tags, tag);
    let entities = tagged(tags, tag);
    assert forall|i: int| 0 <= i < rows.len() implies {
        let entity = #[trigger] entities[i];
        &&& entity.id < tags.len()
        &&& tags[entity.id as int] == tag
        &&& rows[i] == row_of(world.store@, entity, kinds)
    } by {
        assert(entities.contains(entities[i]));
    }
    assert forall|entity: Entity, other: Tag|
        other != tag && #[trigger] tagged(tags, tag).contains(entity) implies !(
    #[trigger] tagged(tags, other).contains(entity)) by {
        lemma_tagged(tags, other);
    }
}

/// Queries are repeatable: two queries for the same tag and attribute
/// types, on worlds with the same entities and the same stored values,
/// give the same rows in the same order, or the same error.
pub proof fn lemma_query_repeatable(
    before: World,
    after: World,
    tag: Tag,
    kinds: Seq<AttributeKind>,
    first: Result<Vec<Vec<Attribute>>, MissingAttributeError>,
    second: Result<Vec<Vec<Attribute>>, MissingAttributeError>,
)
    requires
        after.registry@ == before.registry@,
        after.store@ == before.store@,
        answer(first) == query_spec(before.registry@, before.store@, tag, kinds),
        answer(second) == query_spec(after.registry@, after.store@, tag, kinds),
    ensures
        answer(first) == answer(second),
{
}

/// In a complete world, a query for attribute types that the tag calls
/// for finds every requested value.
pub proof fn lemma_complete_query_succeeds(
    tags: Seq<Tag>,
    stored: Stored,
    tag: Tag,
    kinds: Seq<AttributeKind>,
)
    requires
        tags.len() <= u64::MAX,
        complete(tags, stored),
        forall|j: int| 0 <= j < kinds.len() ==> tag.mandates_spec(#[trigger] kinds[j]),
    ensures
        query_spec(tags, stored, tag, kinds) is Ok,
{
    let entities = tagged(tags, tag);
    lemma_tagged(tags, tag);
    lemma_first_incomplete(stored, entities, kinds);
    let at = first_incomplete(stored, entities, kinds);
    if at < entities.len() {
        let entity = entities[at];
        assert(entities.contains(entity));
        lemma_first_missing(stored, entity, kinds);
        let lacking = first_missing(stored, entity, kinds);
        assert(tag.mandates_spec(kinds[lacking]));
        assert(stored.contains_key((entity, kinds[lacking])));
    }
}

/// One population of characters: who exists, and what each carries.
#[derive(Clone, Debug)]
pub struct World {
    /// Who exists, and with which tag.
    pub registry: EntityRegistry,
    /// What each entity carries.
    pub store: ComponentStore,
}

impl World {
    /// Whether every entity of this world has exactly the attributes that
    /// its tag calls for.
    pub open spec fn is_complete(&self) -> bool {
        complete(self.registry@, self.store@)
    }

    /// A world without entities.
    pub fn new() -> (world: Self)
        ensures
            world.registry@ == Seq::<Tag>::empty(),
            world.store@ == Map::<(Entity, AttributeKind), AttributeValue>::empty(),
            world.is_complete(),
    {
        World { registry: EntityRegistry::new(), store: ComponentStore::new() }
    }

    /// Creates an entity with the given tag and attaches the given
    /// attributes to it, one after the other.
    ///
    /// The entity is allocated in any case. If one of the attributes cannot
    /// be attached, because the entity already has a value of its type, the
    /// attributes before it stay attached, it and those after it are not,
    /// and the error names it.
    pub fn spawn_with(&mut self, tag: Tag, attributes: &Vec<Attribute>) -> (result: Result<
        Entity,
        DuplicateAttributeError,
    >)
        ensures
            final(self).registry@ == old(self).registry@.push(tag),
            final(self).store@ == attached(
                old(self).store@,
                next_entity(old(self).registry@),
                attributes.deep_view(),
            ),
            match result {
                Ok(entity) => {
                    &&& entity == next_entity(old(self).registry@)
                    &&& entity.id == old(self).registry@.len()
                    &&& first_clash(old(self).store@, entity, attributes.deep_view())
                        == attributes@.len()
                },
                Err(error) => {
                    let entity = next_entity(old(self).registry@);
                    let at = first_clash(old(self).store@, entity, attributes.deep_view());
                    &&& 0 <= at < attributes@.len()
                    &&& error == (DuplicateAttributeError { entity, kind: attributes@[at]@.kind() })
                },
            },
    {
        let entity = self.registry.spawn(tag);
        let ghost values = attributes.deep_view();
        let count: usize = attributes.len();
        let mut i: usize = 0;
        proof {
            assert(values.skip(0) =~= values);
            lemma_first_clash_bounds(old(self).store@, entity, values);
        }
        while i < count
            invariant
                count == attributes@.len(),
                i <= count,
                values == attributes.deep_view(),
                values.len() == count,
                self.registry@ == old(self).registry@.push(tag),
                entity.id == old(self).registry@.len(),
                attached(old(self).store@, entity, values) == attached(
                    self.store@,
                    entity,
                    values.skip(i as int),
                ),
                first_clash(old(self).store@, entity, values) == i + first_clash(
                    self.store@,
                    entity,
                    values.skip(i as int),
                ),
            decreases count - i,
        {
            let ghost rest = values.skip(i as int);
            proof {
                assert(rest[0] == attributes@[i as int]@);
                assert(rest.drop_first() == values.skip(i + 1));
            }
            match self.store.attach(entity, attributes[i].duplicate()) {
                Ok(()) => {},
                Err(error) => {
                    return Err(error);
                },
            }
            i += 1;
        }
        proof {
            assert(values.skip(count as int).len() == 0);
        }
        Ok(entity)
    }

    /// Every entity that carries `tag`, with its attributes of the types
    /// `kinds`: one row for each such entity, in allocation order, the
    /// values of a row in the order of `kinds`.
    ///
    /// The position of a row is the number under which its entity is
    /// listed. Entities that carry another tag never appear. The query
    /// changes nothing, and its answer depends on the world's contents
    /// alone.
    pub fn query(&self, tag: Tag, kinds: &Vec<AttributeKind>) -> (result: Result<
        Vec<Vec<Attribute>>,
        MissingAttributeError,
    >)
        ensures
            answer(result) == query_spec(self.registry@, self.store@, tag, kinds@),
    {
        let entities = self.registry.entities_with(tag);
        let mut rows: Vec<Vec<Attribute>> = Vec::new();
        let count: usize = entities.len();
        let mut i: usize = 0;
        let ghost stored = self.store@;
        let ghost limit = first_incomplete(stored, entities@, kinds@);
        proof {
            lemma_first_incomplete(stored, entities@, kinds@);
        }
        while i < count
            invariant
                count == entities@.len(),
                entities@ == tagged(self.registry@, tag),
                stored == self.store@,
                limit == first_incomplete(stored, entities@, kinds@),
                i <= limit <= count,
                rows@.len() == i,
                forall|j: int|
                    0 <= j < limit ==> first_missing(stored, #[trigger] entities@[j], kinds@)
                        == kinds@.len(),
                limit < count ==> first_missing(stored, entities@[limit], kinds@) < kinds@.len(),
                forall|j: int|
                    0 <= j < i ==> (#[trigger] rows@[j]).deep_view() == row_of(
                        stored,
                        entities@[j],
                        kinds@,
                    ),
            decreases count - i,
        {
            match self.store.get_all(entities[i], kinds) {
                Ok(values) => {
                    assert(values.deep_view() =~= row_of(stored, entities@[i as int], kinds@));
                    rows.push(values);
                },
                Err(error) => {
                    return Err(error);
                },
            }
            i += 1;
        }
        proof {
            assert(rows.deep_view() =~= Seq::new(
                entities@.len(),
                |i: int| row_of(stored, entities@[i], kinds@),
            ));
        }
        Ok(rows)
    }
}

} // verus!
