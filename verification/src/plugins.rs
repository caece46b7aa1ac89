//! The two stages of the pipeline, each a fixed list of systems in a fixed
//! order.

use crate::attribute::{AttributeKind, AttributeValue, Tag};
use crate::entity::{next_entity, tagged, Entity};
use crate::error::{DuplicateAttributeError, MissingAttributeError};
use crate::store::{first_missing, lemma_first_missing, Stored};
use crate::systems::{
    add_npcs, add_npcs_spec, add_players, add_players_spec, fisherman, is_listing,
    lemma_seed_non_player, lemma_seed_player, list_npcs, list_players, npc_kinds, player_kinds,
    player_one, player_zero,
};
use crate::timer::IntervalTimer;
use crate::world::{attached, complete, first_incomplete, query_spec, row_of, World};
use vstd::prelude::*;

verus! {

/// The time between two reports: two seconds, in nanoseconds.
pub const LIST_INTERVAL: u64 = 2_000_000_000;

/// What the startup stage does to a world whose entities carry `tags` and
/// whose store holds `stored`: the tags and the store afterwards, and the
/// error, if seeding failed.
///
/// The non-player character is created first. Only if that went through
/// are the players created.
pub open spec fn init_spec(tags: Seq<Tag>, stored: Stored) -> (
    Seq<Tag>,
    Stored,
    Option<DuplicateAttributeError>,
) {
    let npcs = add_npcs_spec(tags, stored);
    if npcs.2 is Some {
        npcs
    } else {
        add_players_spec(npcs.0, npcs.1)
    }
}

/// Seeding an empty world once gives exactly the expected population: one
/// non-player character, the fisherman, and behind it the two players in
/// their order, each with the attributes that its tag calls for and no
/// others.
pub proof fn lemma_seeded_population()
    ensures
        ({
            let seeded = init_spec(Seq::empty(), Map::empty());
            &&& seeded.2 is None
            &&& seeded.0 == seq![Tag::NonPlayer, Tag::Player, Tag::Player]
            &&& complete(seeded.0, seeded.1)
            &&& query_spec(seeded.0, seeded.1, Tag::NonPlayer, npc_kinds()) == Ok::<
                Seq<Seq<AttributeValue>>,
                MissingAttributeError,
            >(seq![fisherman()])
            &&& query_spec(seeded.0, seeded.1, Tag::Player, player_kinds()) == Ok::<
                Seq<Seq<AttributeValue>>,
                MissingAttributeError,
            >(seq![player_zero(), player_one()])
        }),
{
    let none = Seq::<Tag>::empty();
    let nothing = Map::<(Entity, AttributeKind), AttributeValue>::empty();
    let one = none.push(Tag::NonPlayer);
    let two = one.push(Tag::Player);
    let three = two.push(Tag::Player);
    lemma_seed_non_player(none, nothing, fisherman());
    let after_npcs = add_npcs_spec(none, nothing).1;
    lemma_seed_player(one, after_npcs, player_zero());
    let after_zero = attached(after_npcs, next_entity(one), player_zero());
    lemma_seed_player(two, after_zero, player_one());
    let seeded = init_spec(none, nothing);
    assert(seeded.0 == three);
    assert(three =~= seq![Tag::NonPlayer, Tag::Player, Tag::Player]);
    let stored = seeded.1;
    let fisher = Entity { id: 0 };
    let zero = Entity { id: 1 };
    let other = Entity { id: 2 };
    assert(next_entity(none) == fisher && next_entity(one) == zero && next_entity(two) == other);

    assert(three.drop_last() =~= two);
    assert(two.drop_last() =~= one);
    assert(one.drop_last() =~= none);
    reveal_with_fuel(tagged, 5);
    assert(tagged(three, Tag::NonPlayer) =~= seq![fisher]);
    assert(tagged(three, Tag::Player) =~= seq![zero, other]);

    lemma_row(stored, fisher, npc_kinds(), fisherman());
    lemma_row(stored, zero, player_kinds(), player_zero());
    lemma_row(stored, other, player_kinds(), player_one());

    let npcs = seq![fisher];
    assert(npcs.drop_first().len() == 0);
    let players = seq![zero, other];
    assert(players.drop_first() =~= seq![other]);
    assert(players.drop_first().drop_first().len() == 0);
    reveal_with_fuel(first_incomplete, 4);
    assert(first_incomplete(stored, npcs, npc_kinds()) == 1);
    assert(first_incomplete(stored, players, player_kinds()) == 2);
    assert(Seq::new(npcs.len(), |i: int| row_of(stored, npcs[i], npc_kinds())) =~= seq![
        fisherman(),
    ]);
    assert(Seq::new(players.len(), |i: int| row_of(stored, players[i], player_kinds())) =~= seq![
        player_zero(),
        player_one(),
    ]);
}

/// An entity that has the values `values` under the types `kinds`, one for
/// one, lacks none of these types, and its row for them is `values`.
proof fn lemma_row(
    stored: Stored,
    entity: Entity,
    kinds: Seq<AttributeKind>,
    values: Seq<AttributeValue>,
)
    requires
        kinds.len() == values.len(),
        forall|j: int|
            0 <= j < kinds.len() ==> stored.contains_key((entity, #[trigger] kinds[j])) && stored[(
                entity,
                kinds[j],
            )] == values[j],
    ensures
        first_missing(stored, entity, kinds) == kinds.len(),
        row_of(stored, entity, kinds) == values,
{
    lemma_first_missing(stored, entity, kinds);
    assert(row_of(stored, entity, kinds) =~= values);
}

/// The startup stage: the systems that create the population.
#[derive(Clone, Copy, Debug)]
pub struct InitPlugin;

/// The reporting stage: the systems that list the population, and the
/// interval at which they do.
#[derive(Clone, Copy, Debug)]
pub struct ListPlugin;

impl InitPlugin {
    /// Runs the stage: creates the non-player characters, then the
    /// players.
    ///
    /// On a world without entities, or any other complete world, the stage
    /// succeeds and leaves the world complete. The first system that fails
    /// ends the stage: the players are not created after a failure to
    /// create the non-player character.
    pub fn run(&self, world: &mut World) -> (result: Result<(), DuplicateAttributeError>)
        ensures
            final(world).registry@ == init_spec(old(world).registry@, old(world).store@).0,
            final(world).store@ == init_spec(old(world).registry@, old(world).store@).1,
            match result {
                Ok(()) => init_spec(old(world).registry@, old(world).store@).2 is None,
                Err(error) => init_spec(old(world).registry@, old(world).store@).2 == Some(error),
            },
            old(world).is_complete() ==> result is Ok && final(world).is_complete(),
    {
        match add_npcs(world) {
            Ok(()) => add_players(world),
            Err(error) => Err(error),
        }
    }
}

impl ListPlugin {
    /// The timer of the stage, freshly started: it completes every
    /// [`LIST_INTERVAL`] nanoseconds.
    pub fn timer(&self) -> (timer: IntervalTimer)
        ensures
            timer.period_spec() == LIST_INTERVAL,
            timer.elapsed_spec() == 0,
            !timer.just_finished_spec(),
    {
        IntervalTimer::new(LIST_INTERVAL)
    }

    /// Runs the stage: lists the non-player characters, then the players.
    ///
    /// The two reports come back in the order in which they are to be
    /// shown. A report that fails does not keep the other from being made,
    /// and the world is only read. In a complete world both succeed.
    pub fn run(&self, world: &World) -> (reports: Vec<Result<String, MissingAttributeError>>)
        ensures
            reports@.len() == 2,
            is_listing(
                world.registry@,
                world.store@,
                Tag::NonPlayer,
                npc_kinds(),
                "NPCs"@,
                reports@[0],
            ),
            is_listing(
                world.registry@,
                world.store@,
                Tag::Player,
                player_kinds(),
                "PLAYERS"@,
                reports@[1],
            ),
            world.is_complete() ==> reports@[0] is Ok && reports@[1] is Ok,
    {
        let mut reports: Vec<Result<String, MissingAttributeError>> = Vec::new();
        reports.push(list_npcs(world));
        reports.push(list_players(world));
        reports
    }
}

} // verus!
