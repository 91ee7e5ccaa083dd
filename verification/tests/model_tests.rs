use lkjmcrs::model::{GameMode, PlayerDefaults};

#[test]
fn game_modes_map_to_vanilla_ids() {
    assert_eq!(GameMode::Survival.vanilla_id(), 0);
    assert_eq!(GameMode::Creative.vanilla_id(), 1);
}

#[test]
fn game_mode_names_round_trip() {
    for mode in [GameMode::Survival, GameMode::Creative] {
        assert_eq!(GameMode::parse(mode.as_str()), Some(mode));
    }
    assert_eq!(GameMode::parse("adventure"), None);
    assert_eq!(GameMode::Creative.ability_flags(), 0x0d);
    assert_eq!(GameMode::Survival.ability_flags(), 0);
    assert_eq!(GameMode::default_new_player(), GameMode::Creative);
    assert_eq!(PlayerDefaults::default().game_mode, GameMode::Survival);
}
