use vstd::prelude::*;

use crate::text::str_eq;

verus! {

/// Which world generator the server runs.
#[derive(Debug, Clone, Copy, PartialEq, Eq, Structural)]
pub enum TerrainGeneratorName {
    Flat,
    Natural,
}

/// A `terrain_generator` setting that names no known generator; it carries the setting.
#[derive(Debug)]
pub struct TerrainGeneratorError(pub String);

/// The generator that a configuration name denotes, if any.
pub open spec fn terrain_generator_from_name(name: Seq<char>) -> Option<TerrainGeneratorName> {
    if name == "flat"@ {
        Some(TerrainGeneratorName::Flat)
    } else if name == "natural"@ {
        Some(TerrainGeneratorName::Natural)
    } else {
        None
    }
}

impl TerrainGeneratorName {
    /// Reads a generator from its configuration name; any other name is an error that
    /// carries the name.
    pub fn parse(value: &str) -> (r: Result<Self, TerrainGeneratorError>)
        ensures
            match terrain_generator_from_name(value@) {
                Some(g) => r == Ok::<Self, TerrainGeneratorError>(g),
                None => r matches Err(e) && e.0@ == value@,
            },
    {
        if str_eq(value, "flat") {
            Ok(TerrainGeneratorName::Flat)
        } else if str_eq(value, "natural") {
            Ok(TerrainGeneratorName::Natural)
        } else {
            Err(TerrainGeneratorError(value.to_owned()))
        }
    }
}

/// The generator used when the configuration names none.
pub fn default_terrain_generator() -> (r: String)
    ensures
        r@ == "natural"@,
{
    "natural".to_owned()
}

/// The world seed used when the configuration gives none.
pub fn default_world_seed() -> (r: i64)
    ensures
        r == 0,
{
    0
}

} // verus!
