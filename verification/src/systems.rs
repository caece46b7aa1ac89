//! The four systems: two that create the population at startup, and two
//! that list it.

use crate::attribute::{Attribute, AttributeKind, AttributeValue, NetworkAddress, Tag};
use crate::entity::{next_entity, Entity};
use crate::error::{DuplicateAttributeError, MissingAttributeError};
use crate::report::{block_text, bold, emphasize, render_block};
use crate::store::Stored;
use crate::world::{
    attached, complete, first_clash, lemma_complete_query_succeeds, lemma_first_clash_bounds,
    query_spec, World,
};
use vstd::prelude::*;

verus! {

/// The attributes of the one non-player character.
pub open spec fn fisherman() -> Seq<AttributeValue> {
    seq![
        AttributeValue::Name("Fisherman"@),
        AttributeValue::Health(100),
        AttributeValue::Killable(true),
    ]
}

/// The attributes of the first player, who connects from the IPv4
/// loopback address.
pub open spec fn player_zero() -> Seq<AttributeValue> {
    seq![
        AttributeValue::Name("player-0"@),
        AttributeValue::Health(100),
        AttributeValue::Killable(true),
        AttributeValue::NetworkAddress(NetworkAddress::V4([127u8, 0u8, 0u8, 1u8])),
    ]
}

/// The attributes of the second player, who connects from the IPv6
/// loopback address.
pub open spec fn player_one() -> Seq<AttributeValue> {
    seq![
        AttributeValue::Name("player-1"@),
        AttributeValue::Health(100),
        AttributeValue::Killable(true),
        AttributeValue::NetworkAddress(
            NetworkAddress::V6([0u16, 0u16, 0u16, 0u16, 0u16, 0u16, 0u16, 1u16]),
        ),
    ]
}

/// The attribute types listed for a non-player character, in the order of
/// their lines.
pub open spec fn npc_kinds() -> Seq<AttributeKind> {
    seq![AttributeKind::Name, AttributeKind::Health, AttributeKind::Killable]
}

/// The attribute types listed for a player, in the order of their lines.
pub open spec fn player_kinds() -> Seq<AttributeKind> {
    seq![
        AttributeKind::Name,
        AttributeKind::Health,
        AttributeKind::Killable,
        AttributeKind::NetworkAddress,
    ]
}

/// Whether `result` is what listing the entities tagged `tag` gives, under
/// the header `header`, in a world whose entities carry `tags` and whose
/// store holds `stored`.
///
/// Where the query for the types `kinds` fails, the listing fails with the
/// same error. Otherwise it is the report block for the rows of the query.
/// Its header is set in bold type where styling is in use, and stands as
/// it is where it is not; the rest of the block is the same either way.
pub open spec fn is_listing(
    tags: Seq<Tag>,
    stored: Stored,
    tag: Tag,
    kinds: Seq<AttributeKind>,
    header: Seq<char>,
    result: Result<String, MissingAttributeError>,
) -> bool {
    match query_spec(tags, stored, tag, kinds) {
        Ok(rows) => match result {
            Ok(text) => text@ == block_text(header, rows) || text@ == block_text(
                bold(header),
                rows,
            ),
            Err(_) => false,
        },
        Err(error) => match result {
            Ok(_) => false,
            Err(reported) => reported == error,
        },
    }
}

/// Attaching a name, health and a killable flag to a new non-player entity
/// of a complete world succeeds and leaves the world complete.
pub proof fn lemma_seed_non_player(tags: Seq<Tag>, stored: Stored, values: Seq<AttributeValue>)
    requires
        tags.len() <= u64::MAX,
        complete(tags, stored),
        values.len() == 3,
        values[0].kind() == AttributeKind::Name,
        values[1].kind() == AttributeKind::Health,
        values[2].kind() == AttributeKind::Killable,
    ensures
        first_clash(stored, next_entity(tags), values) == 3,
        attached(stored, next_entity(tags), values) == stored.insert(
            (next_entity(tags), AttributeKind::Name),
            values[0],
        ).insert((next_entity(tags), AttributeKind::Health), values[1]).insert(
            (next_entity(tags), AttributeKind::Killable),
            values[2],
        ),
        complete(tags.push(Tag::NonPlayer), attached(stored, next_entity(tags), values)),
{
    let entity = next_entity(tags);
    let first = stored.insert((entity, AttributeKind::Name), values[0]);
    let second = first.insert((entity, AttributeKind::Health), values[1]);
    let third = second.insert((entity, AttributeKind::Killable), values[2]);
    let tail = values.drop_first();
    let last = tail.drop_first();
    assert(!stored.contains_key((entity, AttributeKind::Name)));
    assert(tail[0] == values[1] && last[0] == values[2]);
    assert(last.drop_first().len() == 0);
    reveal_with_fuel(first_clash, 4);
    reveal_with_fuel(attached, 4);
    assert(first_clash(third, entity, last.drop_first()) == 0);
    assert(attached(third, entity, last.drop_first()) == third);
    assert(attached(stored, entity, values) == third);
    let grown = tags.push(Tag::NonPlayer);
    assert forall|e: Entity, kind: AttributeKind| #[trigger]
        third.contains_key((e, kind)) <==> (e.id < grown.len() && grown[e.id as int].mandates_spec(
            kind,
        )) by {
        if e.id < tags.len() {
            assert(grown[e.id as int] == tags[e.id as int]);
            assert(stored.contains_key((e, kind)) <==> third.contains_key((e, kind)));
        } else if e == entity {
        } else {
            assert(stored.contains_key((e, kind)) <==> third.contains_key((e, kind)));
        }
    }
}

/// Attaching a name, health, a killable flag and a network address to a
/// new player entity of a complete world succeeds and leaves the world
/// complete.
pub proof fn lemma_seed_player(tags: Seq<Tag>, stored: Stored, values: Seq<AttributeValue>)
    requires
        tags.len() <= u64::MAX,
        complete(tags, stored),
        values.len() == 4,
        values[0].kind() == AttributeKind::Name,
        values[1].kind() == AttributeKind::Health,
        values[2].kind() == AttributeKind::Killable,
        values[3].kind() == AttributeKind::NetworkAddress,
    ensures
        first_clash(stored, next_entity(tags), values) == 4,
        attached(stored, next_entity(tags), values) == stored.insert(
            (next_entity(tags), AttributeKind::Name),
            values[0],
        ).insert((next_entity(tags), AttributeKind::Health), values[1]).insert(
            (next_entity(tags), AttributeKind::Killable),
            values[2],
        ).insert((next_entity(tags), AttributeKind::NetworkAddress), values[3]),
        complete(tags.push(Tag::Player), attached(stored, next_entity(tags), values)),
{
    let entity = next_entity(tags);
    let first = stored.insert((entity, AttributeKind::Name), values[0]);
    let second = first.insert((entity, AttributeKind::Health), values[1]);
    let third = second.insert((entity, AttributeKind::Killable), values[2]);
    let fourth = third.insert((entity, AttributeKind::NetworkAddress), values[3]);
    let tail = values.drop_first();
    let shorter = tail.drop_first();
    let last = shorter.drop_first();
    assert(!stored.contains_key((entity, AttributeKind::Name)));
    assert(tail[0] == values[1] && shorter[0] == values[2] && last[0] == values[3]);
    assert(last.drop_first().len() == 0);
    reveal_with_fuel(first_clash, 5);
    reveal_with_fuel(attached, 5);
    assert(first_clash(fourth, entity, last.drop_first()) == 0);
    assert(attached(fourth, entity, last.drop_first()) == fourth);
    assert(attached(stored, entity, values) == fourth);
    let grown = tags.push(Tag::Player);
    assert forall|e: Entity, kind: AttributeKind| #[trigger]
        fourth.contains_key((e, kind)) <==> (e.id < grown.len() && grown[e.id as int].mandates_spec(
            kind,
        )) by {
        if e.id < tags.len() {
            assert(grown[e.id as int] == tags[e.id as int]);
            assert(stored.contains_key((e, kind)) <==> fourth.contains_key((e, kind)));
        } else if e == entity {
        } else {
            assert(stored.contains_key((e, kind)) <==> fourth.contains_key((e, kind)));
        }
    }
}

/// What creating the non-player character does to a world whose entities
/// carry `tags` and whose store holds `stored`: the tags and the store
/// afterwards, and the error, if one of the attributes could not be
/// attached.
pub open spec fn add_npcs_spec(tags: Seq<Tag>, stored: Stored) -> (
    Seq<Tag>,
    Stored,
    Option<DuplicateAttributeError>,
) {
    let entity = next_entity(tags);
    let clash = first_clash(stored, entity, fisherman());
    (
        tags.push(Tag::NonPlayer),
        attached(stored, entity, fisherman()),
        if 0 <= clash < 3 {
            Some(DuplicateAttributeError { entity, kind: fisherman()[clash].kind() })
        } else {
            None
        },
    )
}

/// Creates the non-player population: one character named `Fisherman`,
/// with health 100, who can be killed.
///
/// The character is a new entity tagged as a non-player, and its
/// attributes are attached in the order name, health, killable flag. In a
/// complete world this always succeeds and leaves the world complete. If
/// the store already holds one of these attributes for the new identity,
/// the attributes before it stay attached and the error names it.
pub fn add_npcs(world: &mut World) -> (result: Result<(), DuplicateAttributeError>)
    ensures
        final(world).registry@ == add_npcs_spec(old(world).registry@, old(world).store@).0,
        final(world).store@ == add_npcs_spec(old(world).registry@, old(world).store@).1,
        match result {
            Ok(()) => add_npcs_spec(old(world).registry@, old(world).store@).2 is None,
            Err(error) => add_npcs_spec(old(world).registry@, old(world).store@).2 == Some(error),
        },
        old(world).is_complete() ==> result is Ok && final(world).is_complete(),
{
    let mut attributes: Vec<Attribute> = Vec::new();
    attributes.push(Attribute::Name("Fisherman".to_string()));
    attributes.push(Attribute::Health(100));
    attributes.push(Attribute::Killable(true));
    proof {
        world.registry.lemma_len_bounded();
        assert(attributes.deep_view() =~= fisherman());
        lemma_first_clash_bounds(world.store@, next_entity(world.registry@), fisherman());
        if old(world).is_complete() {
            lemma_seed_non_player(old(world).registry@, old(world).store@, fisherman());
        }
    }
    match world.spawn_with(Tag::NonPlayer, &attributes) {
        Ok(_) => Ok(()),
        Err(error) => {
            proof {
                let at = first_clash(
                    old(world).store@,
                    next_entity(old(world).registry@),
                    fisherman(),
                );
                assert(attributes.deep_view()[at] == attributes@[at]@);
            }
            Err(error)
        },
    }
}

/// What creating the two players does to a world whose entities carry
/// `tags` and whose store holds `stored`: the tags and the store afterwards,
/// and the error, if one of the attributes could not be attached.
///
/// The first player is created and its attributes are attached in the
/// order name, health, killable flag, address. Only if that went through
/// is the second player created, in the same way.
pub open spec fn add_players_spec(tags: Seq<Tag>, stored: Stored) -> (
    Seq<Tag>,
    Stored,
    Option<DuplicateAttributeError>,
) {
    let first = next_entity(tags);
    let clash = first_clash(stored, first, player_zero());
    let between = attached(stored, first, player_zero());
    let grown = tags.push(Tag::Player);
    if 0 <= clash < 4 {
        (
            grown,
            between,
            Some(DuplicateAttributeError { entity: first, kind: player_zero()[clash].kind() }),
        )
    } else {
        let second = next_entity(grown);
        let clash = first_clash(between, second, player_one());
        (
            grown.push(Tag::Player),
            attached(between, second, player_one()),
            if 0 <= clash < 4 {
                Some(DuplicateAttributeError { entity: second, kind: player_one()[clash].kind() })
            } else {
                None
            },
        )
    }
}

/// Creates the player population: `player-0`, who connects from
/// 127.0.0.1, then `player-1`, who connects from ::1, each with health 100
/// and able to be killed.
///
/// Each player is a new entity tagged as a player. In a complete world
/// this always succeeds and leaves the world complete. If an attribute
/// cannot be attached, the system stops there and the error names it.
pub fn add_players(world: &mut World) -> (result: Result<(), DuplicateAttributeError>)
    ensures
        final(world).registry@ == add_players_spec(old(world).registry@, old(world).store@).0,
        final(world).store@ == add_players_spec(old(world).registry@, old(world).store@).1,
        match result {
            Ok(()) => add_players_spec(old(world).registry@, old(world).store@).2 is None,
            Err(error) => add_players_spec(old(world).registry@, old(world).store@).2 == Some(
                error,
            ),
        },
        old(world).is_complete() ==> result is Ok && final(world).is_complete(),
{
    let mut zero: Vec<Attribute> = Vec::new();
    zero.push(Attribute::Name("player-0".to_string()));
    zero.push(Attribute::Health(100));
    zero.push(Attribute::Killable(true));
    zero.push(Attribute::NetworkAddress(NetworkAddress::V4([127, 0, 0, 1])));
    let mut one: Vec<Attribute> = Vec::new();
    one.push(Attribute::Name("player-1".to_string()));
    one.push(Attribute::Health(100));
    one.push(Attribute::Killable(true));
    one.push(Attribute::NetworkAddress(NetworkAddress::V6([0, 0, 0, 0, 0, 0, 0, 1])));
    let ghost tags = world.registry@;
    let ghost stored = world.store@;
    proof {
        world.registry.lemma_len_bounded();
        assert(zero.deep_view() =~= player_zero());
        assert(one.deep_view() =~= player_one());
        lemma_first_clash_bounds(stored, next_entity(tags), player_zero());
        if world.is_complete() {
            lemma_seed_player(tags, stored, player_zero());
        }
    }
    match world.spawn_with(Tag::Player, &zero) {
        Ok(_) => {},
        Err(error) => {
            proof {
                let at = first_clash(stored, next_entity(tags), player_zero());
                assert(zero.deep_view()[at] == zero@[at]@);
            }
            return Err(error);
        },
    }
    let ghost between = world.store@;
    let ghost grown = world.registry@;
    proof {
        world.registry.lemma_len_bounded();
        lemma_first_clash_bounds(between, next_entity(grown), player_one());
        if old(world).is_complete() {
            lemma_seed_player(grown, between, player_one());
        }
    }
    match world.spawn_with(Tag::Player, &one) {
        Ok(_) => Ok(()),
        Err(error) => {
            proof {
                let at = first_clash(between, next_entity(grown), player_one());
                assert(one.deep_view()[at] == one@[at]@);
            }
            Err(error)
        },
    }
}

/// Lists the entities tagged `tag` with their attributes of the types
/// `kinds`, under a header marked for emphasis.
fn list(world: &World, tag: Tag, kinds: &Vec<AttributeKind>, header: &str) -> (result: Result<
    String,
    MissingAttributeError,
>)
    requires
        !header@.contains('\x1b'),
    ensures
        is_listing(world.registry@, world.store@, tag, kinds@, header@, result),
{
    match world.query(tag, kinds) {
        Ok(rows) => {
            let styled = emphasize(header);
            Ok(render_block(styled.as_str(), &rows))
        },
        Err(error) => Err(error),
    }
}

/// Lists the non-player characters, under the header `NPCs`: for each, the
/// number under which it is listed, its name, its health and whether it
/// can be killed.
///
/// The world is only read. In a complete world the listing always
/// succeeds.
pub fn list_npcs(world: &World) -> (result: Result<String, MissingAttributeError>)
    ensures
        is_listing(world.registry@, world.store@, Tag::NonPlayer, npc_kinds(), "NPCs"@, result),
        world.is_complete() ==> result is Ok,
{
    let mut kinds: Vec<AttributeKind> = Vec::new();
    kinds.push(AttributeKind::Name);
    kinds.push(AttributeKind::Health);
    kinds.push(AttributeKind::Killable);
    proof {
        reveal_strlit("NPCs");
        assert(kinds@ =~= npc_kinds());
        world.registry.lemma_len_bounded();
        if world.is_complete() {
            lemma_complete_query_succeeds(
                world.registry@,
                world.store@,
                Tag::NonPlayer,
                npc_kinds(),
            );
        }
    }
    list(world, Tag::NonPlayer, &kinds, "NPCs")
}

/// Lists the players, under the header `PLAYERS`: for each, the number
/// under which it is listed, its name, its health, whether it can be
/// killed, and its network address.
///
/// The world is only read. In a complete world the listing always
/// succeeds.
pub fn list_players(world: &World) -> (result: Result<String, MissingAttributeError>)
    ensures
        is_listing(
            world.registry@,
            world.store@,
            Tag::Player,
            player_kinds(),
            "PLAYERS"@,
            result,
        ),
        world.is_complete() ==> result is Ok,
{
    let mut kinds: Vec<AttributeKind> = Vec::new();
    kinds.push(AttributeKind::Name);
    kinds.push(AttributeKind::Health);
    kinds.push(AttributeKind::Killable);
    kinds.push(AttributeKind::NetworkAddress);
    proof {
        reveal_strlit("PLAYERS");
        assert(kinds@ =~= player_kinds());
        world.registry.lemma_len_bounded();
        if world.is_complete() {
            lemma_complete_query_succeeds(
                world.registry@,
                world.store@,
                Tag::Player,
                player_kinds(),
            );
        }
    }
    list(world, Tag::Player, &kinds, "PLAYERS")
}

} // verus!
