//! Writing to the plain database.

use vstd::prelude::*;
use crate::db::{Database, count_at, written};

verus! {

/// Counts a write of `value` under `path`.
pub fn write(db: &mut Database, path: &str, value: &str)
    requires
        count_at(old(db)@, path@) < u128::MAX,
    ensures
        final(db)@ == written(old(db)@, path@, value@),
        final(db).db_path_view() == old(db).db_path_view(),
{
    db.write(path, value);
}

} // verus!
