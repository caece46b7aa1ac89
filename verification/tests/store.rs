use characters::attribute::{Attribute, AttributeKind, NetworkAddress};
use characters::entity::Entity;
use characters::error::{DuplicateAttributeError, MissingAttributeError};
use characters::store::ComponentStore;

#[test]
fn attach_then_get_returns_the_value() {
    let mut store = ComponentStore::new();
    let entity = Entity { id: 7 };
    assert_eq!(store.attach(entity, Attribute::Name("Fisherman".to_string())), Ok(()));
    assert_eq!(store.attach(entity, Attribute::Health(100)), Ok(()));
    assert_eq!(
        store.get(entity, AttributeKind::Name),
        Some(Attribute::Name("Fisherman".to_string()))
    );
    assert_eq!(store.get(entity, AttributeKind::Health), Some(Attribute::Health(100)));
    assert_eq!(store.get(entity, AttributeKind::Killable), None);
    assert!(store.has(entity, AttributeKind::Name));
    assert!(!store.has(entity, AttributeKind::NetworkAddress));
    assert!(!store.has(Entity { id: 8 }, AttributeKind::Name));
}

#[test]
fn second_health_is_refused_and_first_stays() {
    let mut store = ComponentStore::new();
    let entity = Entity { id: 0 };
    assert_eq!(store.attach(entity, Attribute::Health(100)), Ok(()));
    assert_eq!(
        store.attach(entity, Attribute::Health(5)),
        Err(DuplicateAttributeError { entity, kind: AttributeKind::Health })
    );
    assert_eq!(store.get(entity, AttributeKind::Health), Some(Attribute::Health(100)));
}

#[test]
fn duplicate_is_refused_for_every_attribute_type() {
    let mut store = ComponentStore::new();
    let entity = Entity { id: 3 };
    let first = vec![
        Attribute::Name("a".to_string()),
        Attribute::Health(0),
        Attribute::Killable(false),
        Attribute::NetworkAddress(NetworkAddress::V4([10, 0, 0, 1])),
    ];
    let second = vec![
        Attribute::Name("b".to_string()),
        Attribute::Health(255),
        Attribute::Killable(true),
        Attribute::NetworkAddress(NetworkAddress::V6([0, 0, 0, 0, 0, 0, 0, 1])),
    ];
    for value in &first {
        assert_eq!(store.attach(entity, value.clone()), Ok(()));
    }
    for (old, new) in first.iter().zip(second.iter()) {
        assert_eq!(
            store.attach(entity, new.clone()),
            Err(DuplicateAttributeError { entity, kind: new.kind() })
        );
        assert_eq!(store.get(entity, old.kind()), Some(old.clone()));
    }
}

#[test]
fn entities_do_not_share_values() {
    let mut store = ComponentStore::new();
    let one = Entity { id: 1 };
    let two = Entity { id: 2 };
    assert_eq!(store.attach(one, Attribute::Health(10)), Ok(()));
    assert_eq!(store.attach(two, Attribute::Health(20)), Ok(()));
    assert_eq!(store.get(one, AttributeKind::Health), Some(Attribute::Health(10)));
    assert_eq!(store.get(two, AttributeKind::Health), Some(Attribute::Health(20)));
}

#[test]
fn get_all_keeps_the_order_asked_for() {
    let mut store = ComponentStore::new();
    let entity = Entity { id: 4 };
    store.attach(entity, Attribute::Health(42)).unwrap();
    store.attach(entity, Attribute::Name("Smith".to_string())).unwrap();
    store.attach(entity, Attribute::Killable(false)).unwrap();
    let kinds = vec![AttributeKind::Killable, AttributeKind::Name, AttributeKind::Health];
    assert_eq!(
        store.get_all(entity, &kinds),
        Ok(vec![
            Attribute::Killable(false),
            Attribute::Name("Smith".to_string()),
            Attribute::Health(42),
        ])
    );
    assert_eq!(store.get_all(entity, &Vec::new()), Ok(Vec::new()));
}

#[test]
fn get_all_names_the_first_missing_type() {
    let mut store = ComponentStore::new();
    let entity = Entity { id: 4 };
    store.attach(entity, Attribute::Name("Smith".to_string())).unwrap();
    let kinds = vec![
        AttributeKind::Name,
        AttributeKind::Killable,
        AttributeKind::Health,
    ];
    assert_eq!(
        store.get_all(entity, &kinds),
        Err(MissingAttributeError { entity, kind: AttributeKind::Killable })
    );
    let stranger = Entity { id: 99 };
    assert_eq!(
        store.get_all(stranger, &kinds),
        Err(MissingAttributeError { entity: stranger, kind: AttributeKind::Name })
    );
}

#[test]
fn error_messages_name_entity_and_attribute() {
    let duplicate =
        DuplicateAttributeError { entity: Entity { id: 12 }, kind: AttributeKind::Health };
    assert_eq!(duplicate.message(), "entity 12 already has attribute Health");
    let missing =
        MissingAttributeError { entity: Entity { id: 0 }, kind: AttributeKind::NetworkAddress };
    assert_eq!(missing.message(), "entity 0 has no attribute NetworkAddress");
    assert_eq!(AttributeKind::Name.name(), "Name");
    assert_eq!(AttributeKind::Killable.name(), "Killable");
}

#[test]
fn attribute_kind_and_copy() {
    let name = Attribute::Name("x".to_string());
    assert_eq!(name.kind(), AttributeKind::Name);
    assert_eq!(name.duplicate(), name);
    assert_eq!(Attribute::Health(1).kind(), AttributeKind::Health);
    assert_eq!(Attribute::Killable(true).kind(), AttributeKind::Killable);
    let address = Attribute::NetworkAddress(NetworkAddress::V4([1, 2, 3, 4]));
    assert_eq!(address.kind(), AttributeKind::NetworkAddress);
    assert_eq!(address.duplicate(), address);
}
