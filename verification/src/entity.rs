//! Entity identities and the registry that allocates them.

use crate::attribute::Tag;
use vstd::prelude::*;

verus! {

/// The identity of one character. Identities are handed out by an
/// [`EntityRegistry`], in increasing order, and never reused.
#[derive(Clone, Copy, Debug, PartialEq, Eq, Structural, Hash)]
pub struct Entity {
    /// The handle: the number of entities allocated before this one.
    pub id: u64,
}

/// The entity that the next spawn creates in a registry that holds `tags`.
pub open spec fn next_entity(tags: Seq<Tag>) -> Entity {
    Entity { id: tags.len() as u64 }
}

/// The entities that carry `tag`, in allocation order, among the entities
/// whose tags are `tags` (the entity with identity `i` carries `tags[i]`).
pub open spec fn tagged(tags: Seq<Tag>, tag: Tag) -> Seq<Entity>
    decreases tags.len(),
{
    if tags.len() == 0 {
        Seq::empty()
    } else {
        let earlier = tagged(tags.drop_last(), tag);
        if tags.last() == tag {
            earlier.push(Entity { id: (tags.len() - 1) as u64 })
        } else {
            earlier
        }
    }
}

/// `tagged` holds exactly the allocated entities that carry the tag, each
/// once, by increasing identity.
pub proof fn lemma_tagged(tags: Seq<Tag>, tag: Tag)
    requires
        tags.len() <= u64::MAX,
    ensures
        tagged(tags, tag).len() <= tags.len(),
        forall|e: Entity| #[trigger]
            tagged(tags, tag).contains(e) <==> (e.id < tags.len() && tags[e.id as int] == tag),
        forall|i: int, j: int|
            0 <= i < j < tagged(tags, tag).len() ==> (#[trigger] tagged(tags, tag)[i]).id < (
            #[trigger] tagged(tags, tag)[j]).id,
    decreases tags.len(),
{
    if tags.len() > 0 {
        let shorter = tags.drop_last();
        let earlier = tagged(shorter, tag);
        lemma_tagged(shorter, tag);
        let newest = Entity { id: (tags.len() - 1) as u64 };
        let all = tagged(tags, tag);
        assert forall|e: Entity| #[trigger]
            all.contains(e) <==> (e.id < tags.len() && tags[e.id as int] == tag) by {
            if tags.last() == tag {
                assert(all == earlier.push(newest));
                if all.contains(e) {
                    let k = choose|k: int| 0 <= k < all.len() && all[k] == e;
                    if k < earlier.len() {
                        assert(earlier[k] == e);
                        assert(earlier.contains(e));
                    }
                }
                if e.id < tags.len() && tags[e.id as int] == tag {
                    if e.id < shorter.len() {
                        assert(shorter[e.id as int] == tags[e.id as int]);
                        assert(earlier.contains(e));
                        let k = choose|k: int| 0 <= k < earlier.len() && earlier[k] == e;
                        assert(all[k] == e);
                    } else {
                        assert(e == newest);
                        assert(all[earlier.len() as int] == e);
                    }
                }
            } else {
                if e.id < tags.len() && tags[e.id as int] == tag {
                    assert(e.id < shorter.len());
                    assert(shorter[e.id as int] == tags[e.id as int]);
                }
                if all.contains(e) {
                    assert(earlier.contains(e));
                    assert(shorter[e.id as int] == tags[e.id as int]);
                }
            }
        }
        assert forall|i: int, j: int| 0 <= i < j < all.len() implies (#[trigger] all[i]).id < (
        #[trigger] all[j]).id by {
            if j == earlier.len() {
                assert(earlier.contains(earlier[i]));
            }
        }
    }
}

/// Allocates entity identities and records the tag of each entity.
#[derive(Clone, Debug)]
pub struct EntityRegistry {
    tags: Vec<Tag>,
}

impl View for EntityRegistry {
    type V = Seq<Tag>;

    /// The tags of the entities allocated so far: the entity with identity
    /// `i` carries the tag at position `i`.
    closed spec fn view(&self) -> Seq<Tag> {
        self.tags@
    }
}

impl EntityRegistry {
    /// A registry with no entities.
    pub fn new() -> (registry: Self)
        ensures
            registry@ == Seq::<Tag>::empty(),
    {
        EntityRegistry { tags: Vec::new() }
    }

    /// A registry never holds more entities than there are identities.
    pub proof fn lemma_len_bounded(&self)
        ensures
            self@.len() <= usize::MAX,
    {
        assert(self.tags.len() == self.tags@.len());
    }

    /// The number of entities allocated so far.
    pub fn len(&self) -> (count: usize)
        ensures
            count == self@.len(),
    {
        self.tags.len()
    }

    /// Allocates a fresh identity and records its tag. The new identity is
    /// the number of entities allocated before it, so no identity is ever
    /// handed out twice, and the entities allocated earlier keep theirs.
    pub fn spawn(&mut self, tag: Tag) -> (entity: Entity)
        ensures
            final(self)@ == old(self)@.push(tag),
            entity.id == old(self)@.len(),
    {
        let id: u64 = self.tags.len() as u64;
        self.tags.push(tag);
        Entity { id }
    }

    /// The tag of an entity, or `None` for an identity that was never
    /// allocated here.
    pub fn tag_of(&self, entity: Entity) -> (tag: Option<Tag>)
        ensures
            tag == (if entity.id < self@.len() {
                Some(self@[entity.id as int])
            } else {
                None
            }),
    {
        if entity.id < self.tags.len() as u64 {
            Some(self.tags[entity.id as usize])
        } else {
            None
        }
    }

    /// The entities that carry `tag`, in allocation order. The answer
    /// depends on the registry's contents alone, so asking again without
    /// spawning in between gives the same sequence.
    pub fn entities_with(&self, tag: Tag) -> (found: Vec<Entity>)
        ensures
            found@ == tagged(self@, tag),
            forall|e: Entity| #[trigger]
                found@.contains(e) <==> (e.id < self@.len() && self@[e.id as int] == tag),
            forall|i: int, j: int|
                0 <= i < j < found@.len() ==> (#[trigger] found@[i]).id < (#[trigger] found@[j]).id,
    {
        let mut found: Vec<Entity> = Vec::new();
        let count: usize = self.tags.len();
        let mut i: usize = 0;
        while i < count
            invariant
                count == self.tags@.len(),
                i <= count,
                found@ == tagged(self.tags@.take(i as int), tag),
            decreases count - i,
        {
            proof {
                let next = self.tags@.take(i + 1);
                assert(next.drop_last() == self.tags@.take(i as int));
                assert(next.last() == self.tags@[i as int]);
            }
            if self.tags[i] == tag {
                found.push(Entity { id: i as u64 });
            }
            i += 1;
        }
        proof {
            assert(self.tags@.take(count as int) == self.tags@);
            lemma_tagged(self@, tag);
        }
        found
    }
}

} // verus!
