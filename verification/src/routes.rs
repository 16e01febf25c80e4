//! The parameters that the web routes take.

use vstd::prelude::*;

verus! {

/// The time span (Unix seconds, both ends included) of the archive query.
#[derive(Clone, Copy, Debug, PartialEq, Eq, Structural)]
pub struct TimespanQuery {
    pub from: u64,
    pub to: u64,
}

/// Whether the archive lives in memory instead of in `./archive.db`.
#[derive(Clone, Copy, Debug, PartialEq, Eq, Structural)]
pub struct MemoryState {
    pub memory: bool,
}

/// The plug whose archive a route deletes or exports.
#[derive(Clone, Copy, Debug, PartialEq, Eq, Structural)]
pub struct PlugIdQuery {
    pub plug_id: u8,
}

} // verus!
