use lkjmcrs::config::{
    check_session_server_scheme, validate_distance, validate_session_server_url, Config,
    ConfigError, DistanceSetting, RawConfig,
};
use lkjmcrs::model::GameMode;
use lkjmcrs::terrain::{TerrainGeneratorName, default_terrain_generator, default_world_seed};

fn validate(raw: RawConfig) -> Result<Config, ConfigError> {
    raw.validate()
}

#[test]
fn json_defaults_match_canon() {
    let config = validate(RawConfig::default()).unwrap();
    assert_eq!(config.bind, "0.0.0.0:25565");
    assert_eq!(config.motd, "lkjmcrs 1.21.11");
    assert_eq!(config.max_players, 100);
    assert!(!config.online_mode);
    assert_eq!(config.data_dir, "data");
    assert_eq!(config.default_game_mode, GameMode::Survival);
    assert_eq!(config.view_distance, 32);
    assert_eq!(config.simulation_distance, 8);
    assert_eq!(config.terrain_generator, TerrainGeneratorName::Natural);
    assert_eq!(config.world_seed, 0);
    assert_eq!(config.session_server_url, "https://sessionserver.mojang.com");
    assert!(!config.allow_insecure_session_server);
    assert!(config.operator_uuids.is_empty());
}

#[test]
fn parses_explicit_json_config() {
    let raw = RawConfig {
        bind: "127.0.0.1:25566".to_string(),
        motd: "survival".to_string(),
        max_players: 20,
        data_dir: "/data".to_string(),
        default_game_mode: "survival".to_string(),
        view_distance: 3,
        simulation_distance: Some(4),
        terrain_generator: "flat".to_string(),
        world_seed: -42,
        online_mode: true,
        operator_uuids: vec![7],
        ..RawConfig::default()
    };
    let config = validate(raw).unwrap();
    assert_eq!(config.default_game_mode, GameMode::Survival);
    assert_eq!(config.simulation_distance, 4);
    assert_eq!(config.terrain_generator, TerrainGeneratorName::Flat);
    assert_eq!(config.world_seed, -42);
    assert!(config.online_mode);
    assert!(config.is_op(7));
}

#[test]
fn rejects_unknown_terrain_generator() {
    let raw = RawConfig { terrain_generator: "terra".to_string(), ..RawConfig::default() };
    assert!(matches!(validate(raw), Err(ConfigError::TerrainGenerator(_))));
}

#[test]
fn rejects_insecure_session_server_without_fixture_allowance() {
    let raw = RawConfig {
        session_server_url: Some("http://fixture:25566".to_string()),
        ..RawConfig::default()
    };
    assert!(matches!(validate(raw), Err(ConfigError::InsecureSessionServer)));
    let allowed = RawConfig {
        session_server_url: Some("http://fixture:25566".to_string()),
        allow_insecure_session_server: true,
        ..RawConfig::default()
    };
    assert!(validate(allowed).is_ok());
}

#[test]
fn rejects_invalid_session_server_urls() {
    let raw = RawConfig {
        session_server_url: Some("sessionserver".to_string()),
        ..RawConfig::default()
    };
    assert!(matches!(validate(raw), Err(ConfigError::InvalidSessionServerUrl)));
    let raw = RawConfig {
        session_server_url: Some("ftp://sessionserver".to_string()),
        ..RawConfig::default()
    };
    assert!(matches!(validate(raw), Err(ConfigError::InvalidSessionServerUrl)));
}

#[test]
fn rejects_range_failures() {
    let raw = RawConfig { view_distance: 32, ..RawConfig::default() };
    assert!(validate(raw).is_ok());
    let raw = RawConfig { view_distance: 1, ..RawConfig::default() };
    assert!(matches!(
        validate(raw),
        Err(ConfigError::DistanceRange(DistanceSetting::ViewDistance))
    ));
    let raw = RawConfig { view_distance: 33, ..RawConfig::default() };
    assert!(matches!(
        validate(raw),
        Err(ConfigError::DistanceRange(DistanceSetting::ViewDistance))
    ));
    let raw = RawConfig { simulation_distance: Some(8), ..RawConfig::default() };
    assert!(validate(raw).is_ok());
    let raw = RawConfig { simulation_distance: Some(9), ..RawConfig::default() };
    assert!(matches!(
        validate(raw),
        Err(ConfigError::DistanceRange(DistanceSetting::SimulationDistance))
    ));
}

#[test]
fn simulation_distance_defaults_to_a_short_view_distance() {
    let config = validate(RawConfig { view_distance: 5, ..RawConfig::default() }).unwrap();
    assert_eq!(config.simulation_distance, 5);
    let config = validate(RawConfig { view_distance: 12, ..RawConfig::default() }).unwrap();
    assert_eq!(config.simulation_distance, 8);
}

#[test]
fn rejects_unknown_default_game_mode() {
    let raw = RawConfig { default_game_mode: "hardcore".to_string(), ..RawConfig::default() };
    assert!(matches!(validate(raw), Err(ConfigError::DefaultGameMode(name)) if name == "hardcore"));
    let raw = RawConfig { default_game_mode: "creative".to_string(), ..RawConfig::default() };
    assert_eq!(validate(raw).unwrap().default_game_mode, GameMode::Creative);
}

#[test]
fn session_server_url_is_checked_before_the_distances() {
    let raw = RawConfig {
        session_server_url: Some("sessionserver".to_string()),
        view_distance: 1,
        ..RawConfig::default()
    };
    assert!(matches!(validate(raw), Err(ConfigError::InvalidSessionServerUrl)));
}

#[test]
fn distance_bounds_are_inclusive() {
    assert!(validate_distance(DistanceSetting::ViewDistance, 2).is_ok());
    assert!(validate_distance(DistanceSetting::ViewDistance, 32).is_ok());
    assert!(validate_distance(DistanceSetting::SimulationDistance, 2).is_ok());
    assert!(validate_distance(DistanceSetting::SimulationDistance, 1).is_err());
    assert!(validate_distance(DistanceSetting::SimulationDistance, 9).is_err());
}

#[test]
fn session_server_scheme_must_be_http_or_https() {
    assert!(check_session_server_scheme(Some("https")).is_ok());
    assert!(check_session_server_scheme(Some("http")).is_ok());
    assert!(matches!(
        check_session_server_scheme(Some("ftp")),
        Err(ConfigError::InvalidSessionServerUrl)
    ));
    assert!(matches!(
        check_session_server_scheme(None),
        Err(ConfigError::InvalidSessionServerUrl)
    ));
    assert!(validate_session_server_url("https://sessionserver.mojang.com").is_ok());
    assert!(validate_session_server_url("HTTPS://sessionserver.mojang.com").is_ok());
    assert!(validate_session_server_url("mailto:someone").is_err());
}

#[test]
fn operators_are_found_by_uuid() {
    let raw = RawConfig { operator_uuids: vec![1, 7, 9], ..RawConfig::default() };
    let config = validate(raw).unwrap();
    assert!(config.is_op(9));
    assert!(!config.is_op(8));
}

#[test]
fn terrain_generator_names_parse() {
    assert_eq!(TerrainGeneratorName::parse("flat").unwrap(), TerrainGeneratorName::Flat);
    assert_eq!(TerrainGeneratorName::parse("natural").unwrap(), TerrainGeneratorName::Natural);
    let error = TerrainGeneratorName::parse("terra").unwrap_err();
    assert_eq!(error.0, "terra");
    assert_eq!(default_terrain_generator(), "natural");
    assert_eq!(default_world_seed(), 0);
}
