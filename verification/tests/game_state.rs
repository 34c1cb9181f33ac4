use arena_physics::game::{
    find_effects, Effect, GameConfig, GameConfigFile, GameState, MapModificationConfigFile,
    MapModificationModifier, MyrraState,
};
use arena_physics::map::{Category, Direction, Entity, Shape};
use arena_physics::shapes::Position;

fn effect(name: &str) -> Effect {
    Effect { name: String::from(name) }
}

fn names(list: &[&str]) -> Vec<String> {
    list.iter().map(|n| String::from(*n)).collect()
}

fn config_file(outside: &[&str], inside: &[&str]) -> GameConfigFile {
    GameConfigFile {
        width: 1000,
        height: 2000,
        loot_interval_ms: 7000,
        map_modification: MapModificationConfigFile {
            starting_radius: 900,
            minimum_radius: 100,
            max_radius: 950,
            outside_radius_effects: names(outside),
            inside_radius_effects: names(inside),
            modification: MapModificationModifier::Multiplicative(980),
        },
    }
}

fn config() -> GameConfig {
    GameConfig::from_config_file(config_file(&[], &[]), &Vec::new())
}

fn loot(id: u64) -> Entity {
    Entity {
        id,
        category: Category::Zone,
        shape: Shape::Point,
        position: Position { x: 5, y: 6 },
        direction: Direction { x: 0, y: 0 },
        speed: 0,
        is_moving: false,
    }
}

#[test]
fn effects_are_found_by_name_in_the_order_of_the_names() {
    let effects = vec![effect("burn"), effect("slow"), effect("heal")];
    let found = find_effects(&names(&["heal", "burn", "heal"]), &effects);
    assert_eq!(found, vec![effect("heal"), effect("burn"), effect("heal")]);
}

#[test]
fn no_names_no_effects() {
    let effects = vec![effect("burn")];
    assert_eq!(find_effects(&Vec::new(), &effects), Vec::new());
    assert_eq!(find_effects(&Vec::new(), &Vec::new()), Vec::new());
}

#[test]
fn effect_names_are_matched_exactly() {
    let effects = vec![effect("Burn"), effect("burn "), effect("burn")];
    assert_eq!(find_effects(&names(&["burn"]), &effects), vec![effect("burn")]);
}

#[test]
fn config_takes_over_what_the_file_states() {
    let effects = vec![effect("burn"), effect("slow"), effect("heal")];
    let config = GameConfig::from_config_file(config_file(&["burn", "slow"], &["heal"]), &effects);
    assert_eq!(config.width, 1000);
    assert_eq!(config.height, 2000);
    assert_eq!(config.loot_interval_ms, 7000);
    assert_eq!(config.map_modification.starting_radius, 900);
    assert_eq!(config.map_modification.minimum_radius, 100);
    assert_eq!(config.map_modification.max_radius, 950);
    assert_eq!(config.map_modification.modification, MapModificationModifier::Multiplicative(980));
    assert_eq!(config.map_modification.outside_radius_effects, vec![effect("burn"), effect("slow")]);
    assert_eq!(config.map_modification.inside_radius_effects, vec![effect("heal")]);
}

#[test]
fn new_game_is_empty() {
    let state = GameState::new(config());
    assert!(state.players.is_empty());
    assert!(state.loots.is_empty());
    assert!(state.myrra_state.entities.is_empty());
    assert_eq!(state.config.width, 1000);
}

#[test]
fn identifiers_count_up_from_zero() {
    let mut state = GameState::new(config());
    assert_eq!(state.next_id(), 0);
    assert_eq!(state.next_id(), 1);
    assert_eq!(state.next_id(), 2);
    for expected in 3..100 {
        assert_eq!(state.next_id(), expected);
    }
}

#[test]
fn loots_are_kept_in_the_order_pushed() {
    let mut state = GameState::new(config());
    state.push_loot(loot(4));
    state.push_loot(loot(2));
    state.push_loot(loot(9));
    assert_eq!(state.loots, vec![loot(4), loot(2), loot(9)]);
    assert!(state.players.is_empty());
}

#[test]
fn pushing_a_loot_hands_out_no_identifier() {
    let mut state = GameState::new(config());
    assert_eq!(state.next_id(), 0);
    state.push_loot(loot(4));
    assert_eq!(state.next_id(), 1);
}

#[test]
fn myrra_state_is_replaced() {
    let mut state = GameState::new(config());
    state.push_loot(loot(4));
    state.update_myrra_state(MyrraState { entities: vec![loot(1), loot(2)] });
    assert_eq!(state.myrra_state.entities, vec![loot(1), loot(2)]);
    assert_eq!(state.loots, vec![loot(4)]);
    state.update_myrra_state(MyrraState::new());
    assert!(state.myrra_state.entities.is_empty());
    assert_eq!(state.next_id(), 0);
}
