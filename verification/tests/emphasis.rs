use characters::plugins::ListPlugin;
use characters::systems::{list_npcs, list_players};
use characters::world::World;

fn styled() {
    colored::control::set_override(true);
}

#[test]
fn headers_are_set_in_bold_where_styling_is_on() {
    styled();
    let world = World::new();
    assert_eq!(list_npcs(&world), Ok("\x1b[1mNPCs\x1b[0m\n".to_string()));
    assert_eq!(list_players(&world), Ok("\x1b[1mPLAYERS\x1b[0m\n".to_string()));
}

#[test]
fn only_the_header_is_styled() {
    styled();
    let mut world = World::new();
    characters::systems::add_npcs(&mut world).unwrap();
    let reports = ListPlugin.run(&world);
    assert_eq!(
        reports[0],
        Ok("\x1b[1mNPCs\x1b[0m\n\tID 0:\n\t\tName:\t\tFisherman\n\t\tHealth:\t\t100\n\t\tKillable:\ttrue\n".to_string())
    );
    assert_eq!(reports[1], Ok("\x1b[1mPLAYERS\x1b[0m\n".to_string()));
}
