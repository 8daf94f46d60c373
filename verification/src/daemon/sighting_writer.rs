//! Writing a value: a sighting under its path, with the consensus kept.

use vstd::prelude::*;
use crate::daemon::db::{Database, can_write, needs_clock, write_outcome};

verus! {

/// Records a sighting of `value` under `path`, dated `timestamp` (now, when
/// not positive), and writes the consensus; always succeeds.
pub fn write(db: &mut Database, path: &str, value: &str, timestamp: i64) -> (ok: bool)
    requires
        can_write(old(db)@, path@, value@, timestamp, true),
    ensures
        ok,
        write_outcome(old(db)@, final(db)@, path@, value@, timestamp, true, ok),
        !needs_clock(old(db)@, path@, value@, timestamp, true) ==> ok,
        final(db).db_path_view() == old(db).db_path_view(),
{
    db.write(path, value, timestamp, true)
}

} // verus!
