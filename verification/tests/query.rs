use characters::attribute::{Attribute, AttributeKind, NetworkAddress, Tag};
use characters::entity::Entity;
use characters::error::{DuplicateAttributeError, MissingAttributeError};
use characters::plugins::InitPlugin;
use characters::systems::{add_npcs, add_players};
use characters::world::World;

fn npc_kinds() -> Vec<AttributeKind> {
    vec![AttributeKind::Name, AttributeKind::Health, AttributeKind::Killable]
}

fn player_kinds() -> Vec<AttributeKind> {
    vec![
        AttributeKind::Name,
        AttributeKind::Health,
        AttributeKind::Killable,
        AttributeKind::NetworkAddress,
    ]
}

fn fisherman() -> Vec<Attribute> {
    vec![
        Attribute::Name("Fisherman".to_string()),
        Attribute::Health(100),
        Attribute::Killable(true),
    ]
}

fn player(name: &str, address: NetworkAddress) -> Vec<Attribute> {
    vec![
        Attribute::Name(name.to_string()),
        Attribute::Health(100),
        Attribute::Killable(true),
        Attribute::NetworkAddress(address),
    ]
}

#[test]
fn seeding_once_populates_the_expected_set() {
    let mut world = World::new();
    assert_eq!(InitPlugin.run(&mut world), Ok(()));
    assert_eq!(world.registry.len(), 3);
    assert_eq!(world.registry.tag_of(Entity { id: 0 }), Some(Tag::NonPlayer));
    assert_eq!(world.registry.tag_of(Entity { id: 1 }), Some(Tag::Player));
    assert_eq!(world.registry.tag_of(Entity { id: 2 }), Some(Tag::Player));
    assert_eq!(world.query(Tag::NonPlayer, &npc_kinds()), Ok(vec![fisherman()]));
    assert_eq!(
        world.query(Tag::Player, &player_kinds()),
        Ok(vec![
            player("player-0", NetworkAddress::V4([127, 0, 0, 1])),
            player("player-1", NetworkAddress::V6([0, 0, 0, 0, 0, 0, 0, 1])),
        ])
    );
    assert!(!world.store.has(Entity { id: 0 }, AttributeKind::NetworkAddress));
    assert!(!world.store.has(Entity { id: 3 }, AttributeKind::Name));
}

#[test]
fn systems_seed_in_their_own_right() {
    let mut world = World::new();
    assert_eq!(add_players(&mut world), Ok(()));
    assert_eq!(add_npcs(&mut world), Ok(()));
    assert_eq!(
        world.registry.entities_with(Tag::Player),
        vec![Entity { id: 0 }, Entity { id: 1 }]
    );
    assert_eq!(world.registry.entities_with(Tag::NonPlayer), vec![Entity { id: 2 }]);
    assert_eq!(world.query(Tag::NonPlayer, &npc_kinds()), Ok(vec![fisherman()]));
}

#[test]
fn partitions_do_not_leak() {
    let mut world = World::new();
    InitPlugin.run(&mut world).unwrap();
    let names = vec![AttributeKind::Name];
    assert_eq!(
        world.query(Tag::NonPlayer, &names),
        Ok(vec![vec![Attribute::Name("Fisherman".to_string())]])
    );
    assert_eq!(
        world.query(Tag::Player, &names),
        Ok(vec![
            vec![Attribute::Name("player-0".to_string())],
            vec![Attribute::Name("player-1".to_string())],
        ])
    );
}

#[test]
fn query_twice_gives_the_same_rows() {
    let mut world = World::new();
    InitPlugin.run(&mut world).unwrap();
    let first = world.query(Tag::Player, &player_kinds());
    let second = world.query(Tag::Player, &player_kinds());
    assert!(first.is_ok());
    assert_eq!(first, second);
}

#[test]
fn query_fields_follow_the_order_requested() {
    let mut world = World::new();
    add_npcs(&mut world).unwrap();
    let kinds = vec![AttributeKind::Health, AttributeKind::Name];
    assert_eq!(
        world.query(Tag::NonPlayer, &kinds),
        Ok(vec![vec![Attribute::Health(100), Attribute::Name("Fisherman".to_string())]])
    );
}

#[test]
fn query_on_an_empty_world_has_no_rows() {
    let world = World::new();
    assert_eq!(world.query(Tag::Player, &player_kinds()), Ok(Vec::new()));
}

#[test]
fn query_reports_the_first_missing_attribute() {
    let mut world = World::new();
    InitPlugin.run(&mut world).unwrap();
    assert_eq!(
        world.query(Tag::NonPlayer, &player_kinds()),
        Err(MissingAttributeError {
            entity: Entity { id: 0 },
            kind: AttributeKind::NetworkAddress,
        })
    );
    let bare = world.registry.spawn(Tag::Player);
    assert_eq!(
        world.query(Tag::Player, &player_kinds()),
        Err(MissingAttributeError { entity: bare, kind: AttributeKind::Name })
    );
}

#[test]
fn spawn_with_attaches_in_order() {
    let mut world = World::new();
    let entity = world.spawn_with(Tag::NonPlayer, &fisherman());
    assert_eq!(entity, Ok(Entity { id: 0 }));
    assert_eq!(world.store.get_all(Entity { id: 0 }, &npc_kinds()), Ok(fisherman()));
}

#[test]
fn spawn_with_stops_at_a_repeated_type() {
    let mut world = World::new();
    let attributes = vec![
        Attribute::Name("Twice".to_string()),
        Attribute::Health(1),
        Attribute::Health(2),
        Attribute::Killable(true),
    ];
    let entity = Entity { id: 0 };
    assert_eq!(
        world.spawn_with(Tag::NonPlayer, &attributes),
        Err(DuplicateAttributeError { entity, kind: AttributeKind::Health })
    );
    assert_eq!(world.registry.len(), 1);
    assert_eq!(world.store.get(entity, AttributeKind::Health), Some(Attribute::Health(1)));
    assert_eq!(
        world.store.get(entity, AttributeKind::Name),
        Some(Attribute::Name("Twice".to_string()))
    );
    assert_eq!(world.store.get(entity, AttributeKind::Killable), None);
}

#[test]
fn seeding_fails_where_the_store_is_taken() {
    let mut world = World::new();
    let taken = Entity { id: 0 };
    world.store.attach(taken, Attribute::Health(1)).unwrap();
    assert_eq!(
        add_npcs(&mut world),
        Err(DuplicateAttributeError { entity: taken, kind: AttributeKind::Health })
    );
    assert_eq!(world.store.get(taken, AttributeKind::Health), Some(Attribute::Health(1)));
    assert_eq!(
        world.store.get(taken, AttributeKind::Name),
        Some(Attribute::Name("Fisherman".to_string()))
    );
    assert_eq!(world.store.get(taken, AttributeKind::Killable), None);
}

#[test]
fn players_are_not_seeded_after_a_failure() {
    let mut world = World::new();
    world.store.attach(Entity { id: 0 }, Attribute::Name("x".to_string())).unwrap();
    assert_eq!(
        InitPlugin.run(&mut world),
        Err(DuplicateAttributeError { entity: Entity { id: 0 }, kind: AttributeKind::Name })
    );
    assert_eq!(world.registry.len(), 1);
    assert_eq!(world.registry.entities_with(Tag::Player), Vec::new());

    let mut other = World::new();
    other.store.attach(Entity { id: 2 }, Attribute::Killable(false)).unwrap();
    assert_eq!(
        InitPlugin.run(&mut other),
        Err(DuplicateAttributeError { entity: Entity { id: 2 }, kind: AttributeKind::Killable })
    );
    assert_eq!(other.registry.len(), 3);
    assert_eq!(
        other.store.get(Entity { id: 2 }, AttributeKind::Health),
        Some(Attribute::Health(100))
    );
    assert_eq!(other.store.get(Entity { id: 2 }, AttributeKind::NetworkAddress), None);
}
