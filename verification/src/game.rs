//! The state of one game and its configuration.

use crate::map::Entity;
use vstd::prelude::*;

verus! {

/// An effect that a configuration can name.
#[derive(Debug, PartialEq, Eq)]
pub struct Effect {
    pub name: String,
}

impl View for Effect {
    type V = Seq<char>;

    open spec fn view(&self) -> Seq<char> {
        self.name@
    }
}

impl Clone for Effect {
    fn clone(&self) -> (copy: Effect)
        ensures
            copy@ == self@,
    {
        Effect { name: self.name.clone() }
    }
}

/// How the playable radius changes at each modification: by a fixed amount,
/// or by a factor given in thousandths.
#[derive(Clone, Copy, Debug, PartialEq, Eq, Structural)]
pub enum MapModificationModifier {
    Additive(u64),
    Multiplicative(u64),
}

/// The map modification as a configuration file states it, its effects by
/// name.
pub struct MapModificationConfigFile {
    pub starting_radius: u64,
    pub minimum_radius: u64,
    pub max_radius: u64,
    pub outside_radius_effects: Vec<String>,
    pub inside_radius_effects: Vec<String>,
    pub modification: MapModificationModifier,
}

/// The game as a configuration file states it.
pub struct GameConfigFile {
    pub width: u64,
    pub height: u64,
    pub loot_interval_ms: u64,
    pub map_modification: MapModificationConfigFile,
}

/// The map modification, with its effects.
pub struct MapModificationConfig {
    pub starting_radius: u64,
    pub minimum_radius: u64,
    pub max_radius: u64,
    pub outside_radius_effects: Vec<Effect>,
    pub inside_radius_effects: Vec<Effect>,
    pub modification: MapModificationModifier,
}

/// The configuration of a game.
pub struct GameConfig {
    pub width: u64,
    pub height: u64,
    pub loot_interval_ms: u64,
    pub map_modification: MapModificationConfig,
}

/// Effect `j` is the first of the effects that goes by `name`.
pub open spec fn is_first_named(effects: Seq<Effect>, name: Seq<char>, j: int) -> bool {
    &&& 0 <= j < effects.len()
    &&& effects[j]@ == name
    &&& forall|k: int| 0 <= k < j ==> (#[trigger] effects[k])@ != name
}

/// Some effect goes by `name`.
pub open spec fn has_effect(effects: Seq<Effect>, name: Seq<char>) -> bool {
    exists|j: int| 0 <= j < effects.len() && (#[trigger] effects[j])@ == name
}

/// Every one of the names is the name of some effect.
pub open spec fn all_known(names: Seq<String>, effects: Seq<Effect>) -> bool {
    forall|n: int| 0 <= n < names.len() ==> has_effect(effects, (#[trigger] names[n])@)
}

/// `copy` is a copy of the first of the effects that goes by `name`.
pub open spec fn is_first_effect(copy: Effect, name: Seq<char>, effects: Seq<Effect>) -> bool {
    exists|j: int| #[trigger] is_first_named(effects, name, j) && copy@ == effects[j]@
}

/// `found` holds, for each of the names in order, a copy of the first
/// effect that goes by it.
pub open spec fn are_effects_of(found: Seq<Effect>, names: Seq<String>, effects: Seq<Effect>) -> bool {
    &&& found.len() == names.len()
    &&& forall|n: int|
        0 <= n < names.len() ==> is_first_effect(#[trigger] found[n], names[n]@, effects)
}

/// Looks up the first effect that goes by `name`.
fn find_effect(name: &String, effects: &Vec<Effect>) -> (found: Effect)
    requires
        has_effect(effects@, name@),
    ensures
        is_first_effect(found, name@, effects@),
{
    let ghost known = choose|j: int| 0 <= j < effects.len() && (#[trigger] effects[j])@ == name@;
    let mut i: usize = 0;
    while !(*name == effects[i].name)
        invariant
            0 <= i <= known < effects.len(),
            effects[known]@ == name@,
            forall|k: int| 0 <= k < i ==> (#[trigger] effects[k])@ != name@,
        decreases effects.len() - i,
    {
        i = i + 1;
    }
    assert(is_first_named(effects@, name@, i as int));
    effects[i].clone()
}

/// Looks up the effects that a configuration names: for each name, in
/// order, the first effect that goes by it.
pub fn find_effects(config_effects_names: &Vec<String>, effects: &Vec<Effect>) -> (found: Vec<
    Effect,
>)
    requires
        all_known(config_effects_names@, effects@),
    ensures
        are_effects_of(found@, config_effects_names@, effects@),
{
    let mut found: Vec<Effect> = Vec::new();
    let mut n: usize = 0;
    while n < config_effects_names.len()
        invariant
            0 <= n <= config_effects_names.len(),
            all_known(config_effects_names@, effects@),
            found.len() == n,
            forall|m: int|
                0 <= m < n ==> is_first_effect(
                    #[trigger] found[m],
                    config_effects_names[m]@,
                    effects@,
                ),
        decreases config_effects_names.len() - n,
    {
        let effect = find_effect(&config_effects_names[n], effects);
        found.push(effect);
        n = n + 1;
    }
    found
}

impl GameConfig {
    /// Builds the configuration of a game from what its file states, with
    /// the effects that the file names.
    pub fn from_config_file(game_config: GameConfigFile, effects: &Vec<Effect>) -> (config:
        GameConfig)
        requires
            all_known(game_config.map_modification.outside_radius_effects@, effects@),
            all_known(game_config.map_modification.inside_radius_effects@, effects@),
        ensures
            config.width == game_config.width,
            config.height == game_config.height,
            config.loot_interval_ms == game_config.loot_interval_ms,
            config.map_modification.starting_radius == game_config.map_modification.starting_radius,
            config.map_modification.minimum_radius == game_config.map_modification.minimum_radius,
            config.map_modification.max_radius == game_config.map_modification.max_radius,
            config.map_modification.modification == game_config.map_modification.modification,
            are_effects_of(
                config.map_modification.outside_radius_effects@,
                game_config.map_modification.outside_radius_effects@,
                effects@,
            ),
            are_effects_of(
                config.map_modification.inside_radius_effects@,
                game_config.map_modification.inside_radius_effects@,
                effects@,
            ),
    {
        let outside_effects = find_effects(
            &game_config.map_modification.outside_radius_effects,
            effects,
        );
        let inside_effects = find_effects(
            &game_config.map_modification.inside_radius_effects,
            effects,
        );
        GameConfig {
            width: game_config.width,
            height: game_config.height,
            loot_interval_ms: game_config.loot_interval_ms,
            map_modification: MapModificationConfig {
                starting_radius: game_config.map_modification.starting_radius,
                minimum_radius: game_config.map_modification.minimum_radius,
                max_radius: game_config.map_modification.max_radius,
                outside_radius_effects: outside_effects,
                inside_radius_effects: inside_effects,
                modification: game_config.map_modification.modification,
            },
        }
    }
}

/// The state that the Myrra engine keeps of a game, carried along.
pub struct MyrraState {
    pub entities: Vec<Entity>,
}

impl MyrraState {
    /// A state that holds nothing yet.
    pub fn new() -> (state: MyrraState)
        ensures
            state.entities@ == Seq::<Entity>::empty(),
    {
        MyrraState { entities: Vec::new() }
    }
}

/// One game: its configuration, its players and loots, and the source of
/// fresh identifiers.
pub struct GameState {
    pub config: GameConfig,
    pub players: Vec<Entity>,
    pub loots: Vec<Entity>,
    pub myrra_state: MyrraState,
    next_id: u64,
}

/// What a game holds, as contracts see it.
pub ghost struct GameStateView {
    pub config: GameConfig,
    pub players: Seq<Entity>,
    pub loots: Seq<Entity>,
    pub myrra_state: MyrraState,
    /// The identifier that will be handed out next.
    pub next_id: u64,
}

impl View for GameState {
    type V = GameStateView;

    closed spec fn view(&self) -> GameStateView {
        GameStateView {
            config: self.config,
            players: self.players@,
            loots: self.loots@,
            myrra_state: self.myrra_state,
            next_id: self.next_id,
        }
    }
}

impl GameState {
    /// A game with no players and no loots, whose identifiers start at 0.
    pub fn new(config: GameConfig) -> (state: Self)
        ensures
            state@ == (GameStateView {
                config,
                players: Seq::empty(),
                loots: Seq::empty(),
                myrra_state: state@.myrra_state,
                next_id: 0,
            }),
            state@.myrra_state.entities@ == Seq::<Entity>::empty(),
    {
        Self {
            config,
            players: Vec::new(),
            loots: Vec::new(),
            next_id: 0,
            myrra_state: MyrraState::new(),
        }
    }

    /// A game put together from its parts, with the identifier that is to be
    /// handed out next.
    pub fn resume(
        config: GameConfig,
        players: Vec<Entity>,
        loots: Vec<Entity>,
        myrra_state: MyrraState,
        next_id: u64,
    ) -> (state: Self)
        ensures
            state@ == (GameStateView {
                config,
                players: players@,
                loots: loots@,
                myrra_state,
                next_id,
            }),
    {
        Self { config, players, loots, myrra_state, next_id }
    }

    /// The configuration of the game.
    pub fn config(&self) -> (config: &GameConfig)
        ensures
            *config == self@.config,
    {
        &self.config
    }

    /// The players, in the order in which they joined.
    pub fn players(&self) -> (players: &Vec<Entity>)
        ensures
            players@ == self@.players,
    {
        &self.players
    }

    /// The loots, in the order in which they were pushed.
    pub fn loots(&self) -> (loots: &Vec<Entity>)
        ensures
            loots@ == self@.loots,
    {
        &self.loots
    }

    /// The state of the Myrra engine.
    pub fn myrra_state(&self) -> (myrra_state: &MyrraState)
        ensures
            *myrra_state == self@.myrra_state,
    {
        &self.myrra_state
    }

    /// The identifier that the next call of `next_id` will return.
    pub fn upcoming_id(&self) -> (id: u64)
        ensures
            id == self@.next_id,
    {
        self.next_id
    }

    /// Hands out a fresh identifier: each call returns the successor of what
    /// the call before returned.
    pub fn next_id(&mut self) -> (id: u64)
        requires
            old(self)@.next_id < u64::MAX,
        ensures
            id == old(self)@.next_id,
            final(self)@ == (GameStateView { next_id: (id + 1) as u64, ..old(self)@ }),
    {
        let id = self.next_id;
        self.next_id += 1;
        id
    }

    /// Adds a loot after those already there.
    pub fn push_loot(&mut self, loot: Entity)
        ensures
            final(self)@ == (GameStateView { loots: old(self)@.loots.push(loot), ..old(self)@ }),
    {
        self.loots.push(loot);
    }

    /// Replaces the state of the Myrra engine.
    pub fn update_myrra_state(&mut self, myrra_state: MyrraState)
        ensures
            final(self)@ == (GameStateView { myrra_state, ..old(self)@ }),
    {
        self.myrra_state = myrra_state;
    }
}

} // verus!
