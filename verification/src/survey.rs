use vstd::prelude::*;

use crate::chunk::{spec_level_chunk_with_light, validate_level_chunk_with_light, ProbeError};
use crate::terrain_chunk::{
    spec_contains_state, spec_contains_state_at_y, spec_decode_chunk, spec_enclosed_underground_air,
    spec_non_flat, DecodedChunk,
};

verus! {

/// The height of the sea surface that river water must reach.
pub const WATER_LEVEL: i32 = 72;

/// Checks a chunk packet of a terrain batch and decodes its blocks.
pub fn checked_chunk(data: Vec<u8>) -> (r: Result<DecodedChunk, ProbeError>)
    ensures
        match spec_level_chunk_with_light(data@) {
            Err(e) => r == Err::<DecodedChunk, ProbeError>(e),
            Ok(_) => match r {
                Ok(c) => spec_decode_chunk(data@) == Ok::<Seq<i32>, ProbeError>(c@),
                Err(e) => spec_decode_chunk(data@) == Err::<Seq<i32>, ProbeError>(e),
            },
        },
{
    let copy = data.clone();
    validate_level_chunk_with_light(copy)?;
    DecodedChunk::from_packet(data)
}

/// What the cave probe has seen across a batch of chunks.
#[derive(Debug, Clone, Copy, PartialEq, Eq, Structural, Default)]
pub struct CaveSurvey {
    pub cave_air: bool,
    pub natural: bool,
}

impl CaveSurvey {
    /// Notes whether `chunk` holds enclosed underground air and a surface that is not flat.
    pub fn record(&mut self, chunk: &DecodedChunk)
        ensures
            final(self).cave_air == (old(self).cave_air || spec_enclosed_underground_air(chunk@)),
            final(self).natural == (old(self).natural || spec_non_flat(chunk@)),
    {
        let cave_air = chunk.has_enclosed_underground_air();
        let natural = chunk.has_non_flat_surface();
        self.cave_air = self.cave_air || cave_air;
        self.natural = self.natural || natural;
    }

    /// Succeeds when both were seen; otherwise names the first that was not.
    pub fn verdict(&self) -> (r: Result<(), ProbeError>)
        ensures
            r == (if !self.cave_air {
                Err(ProbeError::Phase("cave underground air"))
            } else if !self.natural {
                Err(ProbeError::Phase("cave natural terrain"))
            } else {
                Ok::<(), ProbeError>(())
            }),
    {
        if !self.cave_air {
            return Err(ProbeError::Phase("cave underground air"));
        }
        if !self.natural {
            return Err(ProbeError::Phase("cave natural terrain"));
        }
        Ok(())
    }
}

/// What the river probe has seen across a batch of chunks.
#[derive(Debug, Clone, Copy, PartialEq, Eq, Structural, Default)]
pub struct RiverSurvey {
    pub has_water: bool,
    pub has_level_water: bool,
    pub natural: bool,
}

impl RiverSurvey {
    /// Notes whether `chunk` holds water, water at the sea surface, and a surface that is not
    /// flat.
    pub fn record(&mut self, chunk: &DecodedChunk, water: i32)
        ensures
            final(self).has_water == (old(self).has_water || spec_contains_state(chunk@, water)),
            final(self).has_level_water == (old(self).has_level_water || spec_contains_state_at_y(
                chunk@,
                water,
                WATER_LEVEL as int,
            )),
            final(self).natural == (old(self).natural || spec_non_flat(chunk@)),
    {
        let has_water = chunk.contains_state(water);
        let has_level_water = chunk.contains_state_at_y(water, WATER_LEVEL);
        let natural = chunk.has_non_flat_surface();
        self.has_water = self.has_water || has_water;
        self.has_level_water = self.has_level_water || has_level_water;
        self.natural = self.natural || natural;
    }

    /// Succeeds when all three were seen; otherwise names the first that was not.
    pub fn verdict(&self) -> (r: Result<(), ProbeError>)
        ensures
            r == (if !self.has_water {
                Err(ProbeError::Phase("river water"))
            } else if !self.has_level_water {
                Err(ProbeError::Phase("river water level"))
            } else if !self.natural {
                Err(ProbeError::Phase("river natural terrain"))
            } else {
                Ok::<(), ProbeError>(())
            }),
    {
        if !self.has_water {
            return Err(ProbeError::Phase("river water"));
        }
        if !self.has_level_water {
            return Err(ProbeError::Phase("river water level"));
        }
        if !self.natural {
            return Err(ProbeError::Phase("river natural terrain"));
        }
        Ok(())
    }
}

/// What the terrain-generation probe has seen across a batch of chunks.
#[derive(Debug, Clone, Copy, PartialEq, Eq, Structural, Default)]
pub struct TerrainSurvey {
    pub natural: bool,
    pub dry_spawn: bool,
}

impl TerrainSurvey {
    /// Notes whether `chunk` has a surface that is not flat. `spawn_headroom` is `Some(dry)`
    /// when the chunk holds the spawn column, `dry` telling whether the spawn has dry headroom;
    /// that finding then replaces the earlier one. The column test and the headroom test are
    /// the caller's, as the chunk does not hold its own position.
    pub fn record(&mut self, chunk: &DecodedChunk, spawn_headroom: Option<bool>)
        ensures
            final(self).natural == (old(self).natural || spec_non_flat(chunk@)),
            final(self).dry_spawn == match spawn_headroom {
                Some(dry) => dry,
                None => old(self).dry_spawn,
            },
    {
        let natural = chunk.has_non_flat_surface();
        self.natural = self.natural || natural;
        if let Some(dry) = spawn_headroom {
            self.dry_spawn = dry;
        }
    }

    /// Succeeds when the terrain varied and the spawn was dry; otherwise names the first
    /// check that failed.
    pub fn verdict(&self) -> (r: Result<(), ProbeError>)
        ensures
            r == (if !self.natural {
                Err(ProbeError::Phase("terrain natural variation"))
            } else if !self.dry_spawn {
                Err(ProbeError::Phase("terrain dry spawn"))
            } else {
                Ok::<(), ProbeError>(())
            }),
    {
        if !self.natural {
            return Err(ProbeError::Phase("terrain natural variation"));
        }
        if !self.dry_spawn {
            return Err(ProbeError::Phase("terrain dry spawn"));
        }
        Ok(())
    }
}

} // verus!
