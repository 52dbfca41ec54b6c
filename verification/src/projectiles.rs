//! The default models the projectile system draws its projectiles and
//! placed deployables with.

use crate::save_state::ProjectileKind;
use vstd::prelude::*;

verus! {

/// The two kinds of placed deployable.
#[derive(Debug, Clone, Copy, PartialEq, Eq, Structural)]
pub enum DeployableKind {
    Tripmine,
    Satchel,
}

/// The default in-flight model of a projectile kind: none of them has one.
pub fn default_projectile_model_path(_kind: ProjectileKind) -> (path: Option<&'static str>)
    ensures
        path is None,
{
    None
}

/// The default model of a placed deployable.
pub fn default_deployable_model_path(kind: DeployableKind) -> (path: &'static str)
    ensures
        path@ == match kind {
            DeployableKind::Tripmine => "models/v_tripmine.mdl"@,
            DeployableKind::Satchel => "models/w_satchel.mdl"@,
        },
{
    match kind {
        DeployableKind::Tripmine => "models/v_tripmine.mdl",
        DeployableKind::Satchel => "models/w_satchel.mdl",
    }
}

} // verus!
