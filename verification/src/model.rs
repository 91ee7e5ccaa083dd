use vstd::prelude::*;

use crate::text::str_eq;

verus! {

/// How a player interacts with the world.
#[derive(Debug, Clone, Copy, PartialEq, Eq, Structural)]
pub enum GameMode {
    Survival,
    Creative,
}

/// The settings a freshly created profile starts from.
#[derive(Debug, Clone, Copy, PartialEq, Eq, Structural)]
pub struct PlayerDefaults {
    pub game_mode: GameMode,
}

/// The configuration name of a game mode.
pub open spec fn game_mode_name(mode: GameMode) -> Seq<char> {
    match mode {
        GameMode::Survival => "survival"@,
        GameMode::Creative => "creative"@,
    }
}

/// The game mode that a configuration name denotes, if any.
pub open spec fn game_mode_from_name(name: Seq<char>) -> Option<GameMode> {
    if name == "survival"@ {
        Some(GameMode::Survival)
    } else if name == "creative"@ {
        Some(GameMode::Creative)
    } else {
        None
    }
}

impl GameMode {
    /// The mode given to players whose profile is created without explicit defaults.
    pub fn default_new_player() -> (r: Self)
        ensures
            r == GameMode::Creative,
    {
        GameMode::Creative
    }

    /// The numeric id the vanilla client uses for this mode.
    pub fn vanilla_id(self) -> (r: i8)
        ensures
            r == (match self {
                GameMode::Survival => 0i8,
                GameMode::Creative => 1i8,
            }),
    {
        match self {
            GameMode::Survival => 0,
            GameMode::Creative => 1,
        }
    }

    /// The player-ability flags the vanilla client expects for this mode.
    pub fn ability_flags(self) -> (r: i8)
        ensures
            r == (match self {
                GameMode::Survival => 0x00i8,
                GameMode::Creative => 0x0di8,
            }),
    {
        match self {
            GameMode::Survival => 0x00,
            GameMode::Creative => 0x0d,
        }
    }

    /// The configuration name of this mode.
    pub fn as_str(self) -> (r: &'static str)
        ensures
            r@ == game_mode_name(self),
    {
        match self {
            GameMode::Survival => "survival",
            GameMode::Creative => "creative",
        }
    }

    /// Reads a game mode from its configuration name.
    pub fn parse(value: &str) -> (r: Option<Self>)
        ensures
            r == game_mode_from_name(value@),
    {
        if str_eq(value, "survival") {
            Some(GameMode::Survival)
        } else if str_eq(value, "creative") {
            Some(GameMode::Creative)
        } else {
            None
        }
    }
}

/// Reading back the name of a game mode gives the same mode.
pub proof fn lemma_game_mode_name_roundtrip(mode: GameMode)
    ensures
        game_mode_from_name(game_mode_name(mode)) == Some(mode),
{
    reveal_strlit("survival");
    reveal_strlit("creative");
    assert("survival"@[0] != "creative"@[0]);
}

impl Default for PlayerDefaults {
    fn default() -> (r: Self)
        ensures
            r.game_mode == GameMode::Survival,
    {
        PlayerDefaults { game_mode: GameMode::Survival }
    }
}

} // verus!
