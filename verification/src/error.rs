//! Failure reasons, carrying no media-derived detail.

use vstd::prelude::*;

verus! {

/// Why a level could not be loaded or drawn.
///
/// Deliberately opaque: a variant names the *step* that failed, never the
/// asset, path or size involved, so it is safe to surface anywhere.
#[derive(Debug, Clone, Copy, PartialEq, Eq, Structural)]
pub enum EngineError {
    /// The map is not published in the asset source.
    MapNotFound,
    /// The map's bytes are not a BSP v30 map this build can read.
    MapUnreadable,
    /// The map parsed, but its entity lump could not be read: a load
    /// failure rather than a level with no entities.
    EntityLumpUnreadable,
    /// The map parsed but could not be turned into a renderable world.
    WorldUnbuildable,
    /// A GPU resource could not be created.
    Renderer,
    /// A save file could not be built or written.
    SaveUnwritable,
    /// A save file could not be read, or does not hold the sections this
    /// build needs.
    SaveUnreadable,
}

impl EngineError {
    /// The fixed, human-readable sentence for this failure.
    pub fn message(&self) -> (text: &'static str)
        ensures
            text@ == match *self {
                EngineError::MapNotFound => "the requested map is not present in the payload"@,
                EngineError::MapUnreadable => "the map is not a BSP v30 map this build can read"@,
                EngineError::EntityLumpUnreadable => "the map's entity lump could not be read"@,
                EngineError::WorldUnbuildable => "the map could not be turned into a renderable world"@,
                EngineError::Renderer => "the renderer could not be created"@,
                EngineError::SaveUnwritable => "the save file could not be written"@,
                EngineError::SaveUnreadable => "the save file could not be read"@,
            },
    {
        match self {
            EngineError::MapNotFound => "the requested map is not present in the payload",
            EngineError::MapUnreadable => "the map is not a BSP v30 map this build can read",
            EngineError::EntityLumpUnreadable => "the map's entity lump could not be read",
            EngineError::WorldUnbuildable => "the map could not be turned into a renderable world",
            EngineError::Renderer => "the renderer could not be created",
            EngineError::SaveUnwritable => "the save file could not be written",
            EngineError::SaveUnreadable => "the save file could not be read",
        }
    }
}

} // verus!
