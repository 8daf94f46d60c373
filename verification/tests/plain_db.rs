use sightingdb::attribute::Attribute;
use sightingdb::client;
use sightingdb::db::Database;
use sightingdb::db_read;
use sightingdb::db_write;

#[test]
fn plain_attribute_counts() {
    let mut a = Attribute::new("v");
    assert_eq!(a.count(), 0);
    a.incr();
    a.incr();
    assert_eq!(a.count(), 2);
}

#[test]
fn plain_database_counts_writes_by_path() {
    let mut db = Database::new();
    assert_eq!(db.get_count("p", "v"), 0);
    assert!(db.write("p", "v"));
    assert!(db.write("p", "w"));
    assert_eq!(db.get_count("p", "anything"), 2);
    assert_eq!(db.get_count("q", "v"), 0);
}

#[test]
fn plain_read_and_write() {
    let mut db = Database::new();
    db_write::write(&mut db, "p", "v");
    db_write::write(&mut db, "p", "v");
    db_write::write(&mut db, "q", "v");
    assert_eq!(db_read::read(&mut db, "p", "v"), 2);
    assert_eq!(db_read::read(&mut db, "q", "v"), 1);
    assert_eq!(db_read::read(&mut db, "r", "v"), 0);
}

#[test]
fn client_attribute_counts() {
    let mut a = client::attribute::Attribute::new("v");
    assert_eq!(a.count(), 0);
    a.incr();
    assert_eq!(a.count(), 1);
}

#[test]
fn client_database_counts_writes_by_path() {
    let mut db = client::db::Database::new();
    assert_eq!(db.get_count("p", "v"), 0);
    assert!(db.write("p", "v"));
    assert!(db.write("p", "v"));
    assert!(db.write("q", "v"));
    assert_eq!(db.get_count("p", "v"), 2);
    assert_eq!(db.get_count("q", "v"), 1);
}
