use characters::attribute::{Attribute, AttributeKind, Tag};
use characters::entity::Entity;
use characters::error::{DuplicateAttributeError, MissingAttributeError};
use characters::plugins::ListPlugin;
use characters::scheduler::{Phase, Scheduler};
use characters::systems::{list_npcs, list_players};
use characters::world::World;

const NPCS: &str = "NPCs\n\tID 0:\n\t\tName:\t\tFisherman\n\t\tHealth:\t\t100\n\t\tKillable:\ttrue\n";

const PLAYERS: &str = "PLAYERS\n\tID 0:\n\t\tName:\t\tplayer-0\n\t\tHealth:\t\t100\n\t\tKillable:\ttrue\n\t\tIP:\t\t127.0.0.1\n\tID 1:\n\t\tName:\t\tplayer-1\n\t\tHealth:\t\t100\n\t\tKillable:\ttrue\n\t\tIP:\t\t::1\n";

fn plain() {
    colored::control::set_override(false);
}

#[test]
fn reports_fire_on_the_second_tick_not_the_first() {
    plain();
    let mut world = World::new();
    let mut scheduler = Scheduler::with_period(2);
    assert_eq!(scheduler.startup(&mut world), Ok(()));
    assert_eq!(scheduler.tick(&world, 1), Vec::new());
    assert_eq!(scheduler.tick(&world, 1), vec![Ok(NPCS.to_string()), Ok(PLAYERS.to_string())]);
    assert_eq!(scheduler.tick(&world, 1), Vec::new());
    assert_eq!(scheduler.tick(&world, 1).len(), 2);
}

#[test]
fn end_to_end_output() {
    plain();
    let mut world = World::new();
    let mut scheduler = Scheduler::new();
    assert_eq!(scheduler.phase(), Phase::Startup);
    assert_eq!(scheduler.startup(&mut world), Ok(()));
    assert_eq!(scheduler.phase(), Phase::Running);
    let mut captured = String::new();
    for _ in 0..3 {
        for report in scheduler.tick(&world, 700_000_000) {
            captured.push_str(&report.unwrap());
        }
    }
    assert!(captured.starts_with("NPCs\n"));
    assert_eq!(captured, format!("{}{}", NPCS, PLAYERS));
    assert_eq!(captured.matches("\tID ").count(), 3);
    assert_eq!(scheduler.timer().elapsed(), 100_000_000);
}

#[test]
fn nothing_is_reported_before_startup() {
    plain();
    let world = World::new();
    let mut scheduler = Scheduler::with_period(2);
    assert_eq!(scheduler.tick(&world, 10), Vec::new());
    assert_eq!(scheduler.tick(&world, 10), Vec::new());
    assert_eq!(scheduler.phase(), Phase::Startup);
    assert_eq!(scheduler.timer().elapsed(), 0);
}

#[test]
fn non_players_are_reported_before_players() {
    plain();
    let mut world = World::new();
    let mut scheduler = Scheduler::with_period(5);
    scheduler.startup(&mut world).unwrap();
    let reports = scheduler.tick(&world, 5);
    assert_eq!(reports.len(), 2);
    assert!(reports[0].as_ref().unwrap().starts_with("NPCs\n"));
    assert!(reports[1].as_ref().unwrap().starts_with("PLAYERS\n"));
    let later = scheduler.tick(&world, 12);
    assert_eq!(later, reports);
    assert_eq!(scheduler.timer().elapsed(), 2);
    assert!(!scheduler.timer().just_finished());
}

#[test]
fn startup_runs_once() {
    plain();
    let mut world = World::new();
    let mut scheduler = Scheduler::with_period(1);
    assert_eq!(scheduler.startup(&mut world), Ok(()));
    assert_eq!(scheduler.startup(&mut world), Ok(()));
    assert_eq!(world.registry.len(), 3);
    assert_eq!(scheduler.phase(), Phase::Running);
}

#[test]
fn failed_startup_stops_the_scheduler() {
    plain();
    let mut world = World::new();
    world.store.attach(Entity { id: 1 }, Attribute::Health(3)).unwrap();
    let mut scheduler = Scheduler::with_period(1);
    assert_eq!(
        scheduler.startup(&mut world),
        Err(DuplicateAttributeError { entity: Entity { id: 1 }, kind: AttributeKind::Health })
    );
    assert_eq!(scheduler.phase(), Phase::Failed);
    assert_eq!(scheduler.tick(&world, 5), Vec::new());
    assert_eq!(scheduler.startup(&mut world), Ok(()));
    assert_eq!(scheduler.phase(), Phase::Failed);
    assert_eq!(world.registry.len(), 2);
}

#[test]
fn a_failing_report_does_not_stop_the_other_or_later_ticks() {
    plain();
    let mut world = World::new();
    let mut scheduler = Scheduler::with_period(2);
    scheduler.startup(&mut world).unwrap();
    let bare = world.registry.spawn(Tag::NonPlayer);
    let missing = MissingAttributeError { entity: bare, kind: AttributeKind::Name };
    assert_eq!(scheduler.tick(&world, 2), vec![Err(missing), Ok(PLAYERS.to_string())]);
    assert_eq!(scheduler.tick(&world, 1), Vec::new());
    assert_eq!(scheduler.tick(&world, 1), vec![Err(missing), Ok(PLAYERS.to_string())]);
    assert_eq!(world.registry.len(), 4);
    assert_eq!(scheduler.phase(), Phase::Running);
}

#[test]
fn listing_systems_on_their_own() {
    plain();
    let mut world = World::new();
    assert_eq!(list_npcs(&world), Ok("NPCs\n".to_string()));
    assert_eq!(list_players(&world), Ok("PLAYERS\n".to_string()));
    Scheduler::new().startup(&mut world).unwrap();
    assert_eq!(list_npcs(&world), Ok(NPCS.to_string()));
    assert_eq!(list_players(&world), Ok(PLAYERS.to_string()));
    assert_eq!(ListPlugin.run(&world), vec![Ok(NPCS.to_string()), Ok(PLAYERS.to_string())]);
}
