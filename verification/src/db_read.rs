//! Reading from the plain database.

use vstd::prelude::*;
use crate::db::{Database, count_at};

verus! {

/// The count that a read of `value` under `path` reports.
pub fn read(db: &mut Database, path: &str, value: &str) -> (c: u128)
    ensures
        c == count_at(old(db)@, path@),
        final(db)@ == old(db)@,
        final(db).db_path_view() == old(db).db_path_view(),
{
    db.get_count(path, value)
}

} // verus!
