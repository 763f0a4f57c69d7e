//! What a run is configured with, and the two gate decisions made when the
//! catalog store is opened: whether the store must be wiped, and which
//! forward-only migration a stored schema version calls for.

use crate::store::StoreError;
use vstd::prelude::*;

verus! {

/// The tag a catalog store carries to mark it as belonging to this tool.
pub const APPLICATION_ID: i64 = 0xBEEF;

/// The schema version this build reads and writes.
pub const USER_VERSION: i64 = 2;

/// The options one run is configured with.  Paths are plain strings; the
/// caller resolves them against its environment.
#[derive(Debug)]
pub struct AppArgs {
    pub source_dir: Option<String>,
    pub target_dir: String,
    pub database_path: String,
    pub clean: bool,
    pub dry: bool,
    pub leave: bool,
}

/// Whether opening the store must wipe it first: on an explicit reset
/// request, or when the stored tag is not this tool's.  The wipe is
/// destructive, so the decision is stated exactly.
pub fn must_reset_store(application_id: i64, clean: bool) -> (r: bool)
    ensures
        r == (clean || application_id != APPLICATION_ID),
{
    clean || application_id != APPLICATION_ID
}

/// Decides the forward-only migration for a stored schema version.
/// Versions up to the current one are accepted, and the base schema is
/// applied exactly when the store predates it; a future or negative
/// version is refused, never silently handled.
pub fn plan_migration(user_version: i64) -> (r: Result<bool, StoreError>)
    ensures
        r is Ok <==> 0 <= user_version <= USER_VERSION,
        match r {
            Ok(apply_base) => apply_base == (user_version < 1),
            Err(e) => e matches StoreError::UnsupportedVersion { found } && found == user_version,
        },
{
    if 0 <= user_version && user_version <= USER_VERSION {
        Ok(user_version < 1)
    } else {
        Err(StoreError::UnsupportedVersion { found: user_version })
    }
}

} // verus!
