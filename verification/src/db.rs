//! The plain database: attributes by path, each counting its writes.

use vstd::prelude::*;
use crate::attribute::{Attribute, AttributeView, fresh_attribute, incremented};
use crate::table::StrTable;

verus! {

/// The contents of the database: an attribute for each path.
pub type DbView = Map<Seq<char>, AttributeView>;

/// The database after a write of `value` under `path`: the path's attribute
/// counts one more, or a fresh attribute for `value` counts one.
pub open spec fn written(db: DbView, path: Seq<char>, value: Seq<char>) -> DbView {
    if db.contains_key(path) {
        db.insert(path, incremented(db[path]))
    } else {
        db.insert(path, incremented(fresh_attribute(value)))
    }
}

/// The count under `path`, zero when there is none.
pub open spec fn count_at(db: DbView, path: Seq<char>) -> u128 {
    if db.contains_key(path) {
        db[path].count
    } else {
        0
    }
}

/// A write counts one more under its path and changes no other path.
pub proof fn lemma_write_then_count(db: DbView, path: Seq<char>, value: Seq<char>, other: Seq<char>)
    requires
        count_at(db, path) < u128::MAX,
    ensures
        count_at(written(db, path, value), path) == count_at(db, path) + 1,
        other != path ==> count_at(written(db, path, value), other) == count_at(db, other),
{
}

/// The database.
pub struct Database {
    db_path: String,
    db: StrTable<Attribute>,
}

impl View for Database {
    type V = DbView;

    closed spec fn view(&self) -> DbView {
        self.db@.map_values(|a: Attribute| a@)
    }
}

impl Database {
    /// Where the database is stored on disk.
    pub closed spec fn db_path_view(&self) -> Seq<char> {
        self.db_path@
    }

    /// An empty database stored under `/tmp/sdb/`.
    pub fn new() -> (db: Database)
        ensures
            db@ == DbView::empty(),
            db.db_path_view() == "/tmp/sdb/"@,
    {
        let db = Database { db_path: "/tmp/sdb/".to_owned(), db: StrTable::new() };
        assert(db@ =~= DbView::empty());
        db
    }

    /// Counts a write of `value` under `path`; always succeeds.
    pub fn write(&mut self, path: &str, value: &str) -> (ok: bool)
        requires
            count_at(old(self)@, path@) < u128::MAX,
        ensures
            ok,
            final(self)@ == written(old(self)@, path@, value@),
            final(self).db_path_view() == old(self).db_path_view(),
    {
        let mut attr = match self.db.swap_out(path, Attribute::new("")) {
            Some(a) => a,
            None => Attribute::new(value),
        };
        attr.incr();
        self.db.insert(path.to_owned(), attr);
        assert(self@ =~= written(old(self)@, path@, value@));
        true
    }

    /// The count under `path`, zero when there is none; `value` is not used.
    pub fn get_count(&mut self, path: &str, value: &str) -> (c: u128)
        ensures
            c == count_at(old(self)@, path@),
            final(self)@ == old(self)@,
            final(self).db_path_view() == old(self).db_path_view(),
    {
        match self.db.swap_out(path, Attribute::new("")) {
            Some(mut attr) => {
                let c = attr.count();
                self.db.insert(path.to_owned(), attr);
                assert(self@ =~= old(self)@);
                c
            },
            None => 0,
        }
    }
}

} // verus!
