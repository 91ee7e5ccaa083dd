use vstd::prelude::*;

use crate::model::{game_mode_from_name, GameMode};
use crate::terrain::{terrain_generator_from_name, TerrainGeneratorError, TerrainGeneratorName};
use crate::text::{str_eq, str_starts_with};

verus! {

/// The smallest view or simulation distance the server accepts.
pub const MIN_DISTANCE: i32 = 2;

/// The largest view distance the server accepts.
pub const MAX_VIEW_DISTANCE: i32 = 32;

/// The largest simulation distance the server accepts.
pub const MAX_SIMULATION_DISTANCE: i32 = 8;

/// The distance settings that are range checked.
#[derive(Debug, Clone, Copy, PartialEq, Eq, Structural)]
pub enum DistanceSetting {
    ViewDistance,
    SimulationDistance,
}

/// The server configuration as written, with the defaults of absent fields filled in.
#[derive(Debug)]
pub struct RawConfig {
    pub bind: String,
    pub motd: String,
    pub max_players: usize,
    pub online_mode: bool,
    pub data_dir: String,
    pub default_game_mode: String,
    pub view_distance: i32,
    pub simulation_distance: Option<i32>,
    pub terrain_generator: String,
    pub world_seed: i64,
    pub session_server_url: Option<String>,
    pub allow_insecure_session_server: bool,
    pub operator_uuids: Vec<u128>,
}

/// The validated server configuration. The bind address is kept as written; it is read as a
/// socket address where the server binds.
#[derive(Debug)]
pub struct Config {
    pub bind: String,
    pub motd: String,
    pub max_players: usize,
    pub online_mode: bool,
    pub data_dir: String,
    pub default_game_mode: GameMode,
    pub view_distance: i32,
    pub simulation_distance: i32,
    pub terrain_generator: TerrainGeneratorName,
    pub world_seed: i64,
    pub session_server_url: String,
    pub allow_insecure_session_server: bool,
    pub operator_uuids: Vec<u128>,
}

/// Why a configuration is refused.
#[derive(Debug)]
pub enum ConfigError {
    InsecureSessionServer,
    InvalidSessionServerUrl,
    DefaultGameMode(String),
    TerrainGenerator(TerrainGeneratorError),
    DistanceRange(DistanceSetting),
}

/// The scheme of `url` as the `url` crate's parser reads it, or `None` where it refuses `url`.
pub uninterp spec fn parsed_url_scheme(url: Seq<char>) -> Option<Seq<char>>;

/// Parses `url` with `reqwest::Url::parse` (the `url` crate's WHATWG parser) and returns its
/// scheme. The contract names the result: the same text always gives the same scheme, and the
/// scheme is `None` exactly when the parser refuses the text. What the parser accepts, and
/// which schemes it reads, is not stated.
#[verifier::external_body]
fn url_scheme(url: &str) -> (r: Option<String>)
    ensures
        match r {
            Some(s) => parsed_url_scheme(url@) == Some(s@),
            None => parsed_url_scheme(url@) is None,
        },
{
    match reqwest::Url::parse(url) {
        Ok(parsed) => Some(parsed.scheme().to_string()),
        Err(_) => None,
    }
}

/// Whether `value` is within the supported range of `setting`.
pub open spec fn in_range(value: int, setting: DistanceSetting) -> bool {
    MIN_DISTANCE <= value && value <= match setting {
        DistanceSetting::ViewDistance => MAX_VIEW_DISTANCE,
        DistanceSetting::SimulationDistance => MAX_SIMULATION_DISTANCE,
    }
}

/// Checks a distance setting against its supported range.
pub fn validate_distance(setting: DistanceSetting, value: i32) -> (r: Result<(), ConfigError>)
    ensures
        r is Ok == in_range(value as int, setting),
        r matches Err(e) ==> e == ConfigError::DistanceRange(setting),
{
    let max = match setting {
        DistanceSetting::ViewDistance => MAX_VIEW_DISTANCE,
        DistanceSetting::SimulationDistance => MAX_SIMULATION_DISTANCE,
    };
    if MIN_DISTANCE <= value && value <= max {
        Ok(())
    } else {
        Err(ConfigError::DistanceRange(setting))
    }
}

/// Whether a parsed scheme is one the session server may use.
pub open spec fn scheme_allowed(scheme: Option<Seq<char>>) -> bool {
    scheme == Some("http"@) || scheme == Some("https"@)
}

/// Accepts the scheme of a session server URL: `http` or `https`; no scheme (an unparsable
/// URL) or any other is refused.
pub fn check_session_server_scheme(scheme: Option<&str>) -> (r: Result<(), ConfigError>)
    ensures
        r is Ok == scheme_allowed(
            match scheme {
                Some(s) => Some(s@),
                None => None,
            },
        ),
        r matches Err(e) ==> e == ConfigError::InvalidSessionServerUrl,
{
    match scheme {
        Some(s) => {
            if str_eq(s, "http") || str_eq(s, "https") {
                Ok(())
            } else {
                Err(ConfigError::InvalidSessionServerUrl)
            }
        },
        None => Err(ConfigError::InvalidSessionServerUrl),
    }
}

/// Accepts a session server URL that parses and whose scheme is `http` or `https`.
pub fn validate_session_server_url(url: &str) -> (r: Result<(), ConfigError>)
    ensures
        r is Ok == scheme_allowed(parsed_url_scheme(url@)),
        r matches Err(e) ==> e == ConfigError::InvalidSessionServerUrl,
{
    let scheme = url_scheme(url);
    match &scheme {
        Some(s) => check_session_server_scheme(Some(s.as_str())),
        None => check_session_server_scheme(None),
    }
}

/// The address the server binds when the configuration names none.
pub fn default_bind() -> (r: String)
    ensures
        r@ == "0.0.0.0:25565"@,
{
    "0.0.0.0:25565".to_owned()
}

/// The status message used when the configuration gives none.
pub fn default_motd() -> (r: String)
    ensures
        r@ == "lkjmcrs 1.21.11"@,
{
    "lkjmcrs 1.21.11".to_owned()
}

/// The player limit used when the configuration gives none.
pub fn default_max_players() -> (r: usize)
    ensures
        r == 100,
{
    100
}

/// The data directory used when the configuration names none.
pub fn default_data_dir() -> (r: String)
    ensures
        r@ == "data"@,
{
    "data".to_owned()
}

/// The game mode name used when the configuration names none.
pub fn default_game_mode() -> (r: String)
    ensures
        r@ == "survival"@,
{
    "survival".to_owned()
}

/// The view distance used when the configuration gives none.
pub fn default_distance() -> (r: i32)
    ensures
        r == MAX_VIEW_DISTANCE,
{
    MAX_VIEW_DISTANCE
}

/// The session server used when the configuration names none.
pub fn default_session_server_url() -> (r: String)
    ensures
        r@ == "https://sessionserver.mojang.com"@,
{
    "https://sessionserver.mojang.com".to_owned()
}

/// The session server URL in effect.
pub open spec fn effective_session_server_url(raw: RawConfig) -> Seq<char> {
    match raw.session_server_url {
        Some(u) => u@,
        None => "https://sessionserver.mojang.com"@,
    }
}

/// The simulation distance in effect: the one given, else the view distance capped at the
/// largest simulation distance.
pub open spec fn effective_simulation_distance(raw: RawConfig) -> int {
    match raw.simulation_distance {
        Some(d) => d as int,
        None => if raw.view_distance <= MAX_SIMULATION_DISTANCE {
            raw.view_distance as int
        } else {
            MAX_SIMULATION_DISTANCE as int
        },
    }
}

/// Whether `s` begins with `prefix`.
pub open spec fn has_prefix(s: Seq<char>, prefix: Seq<char>) -> bool {
    prefix.len() <= s.len() && s.subrange(0, prefix.len() as int) == prefix
}

/// The first setting problem of a configuration, in the order they are checked.
#[derive(Debug, Clone, Copy, PartialEq, Eq, Structural)]
pub enum SettingProblem {
    InvalidSessionServerUrl,
    InsecureSessionServer,
    DefaultGameMode,
    ViewDistance,
    SimulationDistance,
    TerrainGenerator,
}

/// The first problem of a configuration, in the order the settings are checked.
pub open spec fn first_setting_problem(raw: RawConfig) -> Option<SettingProblem> {
    let url = effective_session_server_url(raw);
    if !scheme_allowed(parsed_url_scheme(url)) {
        Some(SettingProblem::InvalidSessionServerUrl)
    } else if has_prefix(url, "http://"@) && !raw.allow_insecure_session_server {
        Some(SettingProblem::InsecureSessionServer)
    } else if game_mode_from_name(raw.default_game_mode@) is None {
        Some(SettingProblem::DefaultGameMode)
    } else if !in_range(raw.view_distance as int, DistanceSetting::ViewDistance) {
        Some(SettingProblem::ViewDistance)
    } else if !in_range(effective_simulation_distance(raw), DistanceSetting::SimulationDistance) {
        Some(SettingProblem::SimulationDistance)
    } else if terrain_generator_from_name(raw.terrain_generator@) is None {
        Some(SettingProblem::TerrainGenerator)
    } else {
        None
    }
}

/// Whether `e` is the error reported for `problem` in `raw`.
pub open spec fn reports(e: ConfigError, problem: SettingProblem, raw: RawConfig) -> bool {
    match problem {
        SettingProblem::InvalidSessionServerUrl => e == ConfigError::InvalidSessionServerUrl,
        SettingProblem::InsecureSessionServer => e == ConfigError::InsecureSessionServer,
        SettingProblem::DefaultGameMode => e matches ConfigError::DefaultGameMode(s) && s@
            == raw.default_game_mode@,
        SettingProblem::ViewDistance => e == ConfigError::DistanceRange(
            DistanceSetting::ViewDistance,
        ),
        SettingProblem::SimulationDistance => e == ConfigError::DistanceRange(
            DistanceSetting::SimulationDistance,
        ),
        SettingProblem::TerrainGenerator => e matches ConfigError::TerrainGenerator(t) && t.0@
            == raw.terrain_generator@,
    }
}

/// Whether `c` is the configuration that `raw` validates to.
pub open spec fn validated_from(c: Config, raw: RawConfig) -> bool {
    &&& c.bind@ == raw.bind@
    &&& c.motd@ == raw.motd@
    &&& c.max_players == raw.max_players
    &&& c.online_mode == raw.online_mode
    &&& c.data_dir@ == raw.data_dir@
    &&& Some(c.default_game_mode) == game_mode_from_name(raw.default_game_mode@)
    &&& c.view_distance == raw.view_distance
    &&& c.simulation_distance == effective_simulation_distance(raw)
    &&& Some(c.terrain_generator) == terrain_generator_from_name(raw.terrain_generator@)
    &&& c.world_seed == raw.world_seed
    &&& c.session_server_url@ == effective_session_server_url(raw)
    &&& c.allow_insecure_session_server == raw.allow_insecure_session_server
    &&& c.operator_uuids@ == raw.operator_uuids@
}

impl Default for RawConfig {
    /// The configuration of an empty settings file.
    fn default() -> (r: Self)
        ensures
            r.bind@ == "0.0.0.0:25565"@,
            r.motd@ == "lkjmcrs 1.21.11"@,
            r.max_players == 100,
            !r.online_mode,
            r.data_dir@ == "data"@,
            r.default_game_mode@ == "survival"@,
            r.view_distance == MAX_VIEW_DISTANCE,
            r.simulation_distance is None,
            r.terrain_generator@ == "natural"@,
            r.world_seed == 0,
            r.session_server_url is None,
            !r.allow_insecure_session_server,
            r.operator_uuids@.len() == 0,
    {
        RawConfig {
            bind: default_bind(),
            motd: default_motd(),
            max_players: default_max_players(),
            online_mode: false,
            data_dir: default_data_dir(),
            default_game_mode: default_game_mode(),
            view_distance: default_distance(),
            simulation_distance: None,
            terrain_generator: crate::terrain::default_terrain_generator(),
            world_seed: crate::terrain::default_world_seed(),
            session_server_url: None,
            allow_insecure_session_server: false,
            operator_uuids: Vec::new(),
        }
    }
}

impl RawConfig {
    /// Checks the settings in order (session server URL and its scheme, default game mode,
    /// view distance, simulation distance, terrain generator) and builds the configuration, or
    /// reports the first problem found.
    pub fn validate(self) -> (r: Result<Config, ConfigError>)
        ensures
            match first_setting_problem(self) {
                Some(problem) => r matches Err(e) && reports(e, problem, self),
                None => r matches Ok(c) && validated_from(c, self),
            },
    {
        let ghost raw = self;
        let session_server_url = match self.session_server_url {
            Some(u) => u,
            None => default_session_server_url(),
        };
        validate_session_server_url(session_server_url.as_str())?;
        if str_starts_with(session_server_url.as_str(), "http://")
            && !self.allow_insecure_session_server {
            return Err(ConfigError::InsecureSessionServer);
        }
        let default_game_mode = match GameMode::parse(self.default_game_mode.as_str()) {
            Some(mode) => mode,
            None => return Err(ConfigError::DefaultGameMode(self.default_game_mode)),
        };
        validate_distance(DistanceSetting::ViewDistance, self.view_distance)?;
        let simulation_distance = match self.simulation_distance {
            Some(d) => d,
            None => if self.view_distance <= MAX_SIMULATION_DISTANCE {
                self.view_distance
            } else {
                MAX_SIMULATION_DISTANCE
            },
        };
        validate_distance(DistanceSetting::SimulationDistance, simulation_distance)?;
        let terrain_generator = match TerrainGeneratorName::parse(self.terrain_generator.as_str()) {
            Ok(g) => g,
            Err(e) => return Err(ConfigError::TerrainGenerator(e)),
        };
        Ok(Config {
            bind: self.bind,
            motd: self.motd,
            max_players: self.max_players,
            online_mode: self.online_mode,
            data_dir: self.data_dir,
            default_game_mode,
            view_distance: self.view_distance,
            simulation_distance,
            terrain_generator,
            world_seed: self.world_seed,
            session_server_url,
            allow_insecure_session_server: self.allow_insecure_session_server,
            operator_uuids: self.operator_uuids,
        })
    }
}

impl Config {
    /// Whether the player with this uuid is an operator.
    pub fn is_op(&self, uuid: u128) -> (r: bool)
        ensures
            r == self.operator_uuids@.contains(uuid),
    {
        let n = self.operator_uuids.len();
        let mut i: usize = 0;
        while i < n
            invariant
                n == self.operator_uuids@.len(),
                i <= n,
                forall|j: int| 0 <= j < i ==> self.operator_uuids@[j] != uuid,
            decreases n - i,
        {
            if self.operator_uuids[i] == uuid {
                assert(self.operator_uuids@[i as int] == uuid);
                return true;
            }
            i += 1;
        }
        false
    }
}

} // verus!
