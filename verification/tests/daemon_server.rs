use sightingdb::daemon::db::Database;
use sightingdb::daemon::server::{
    config_path_is_absolute, configure, daemon_mode, help, info, pid_after_home_try,
    pid_after_system_try, read, read_bulk, sightingdb_get_config, ssl_enabled, system_pid_file,
    write_bulk, BulkSighting, DaemonMode, PostData, SharedState,
};
use sightingdb::daemon::server;
use sightingdb::daemon::sighting_reader;
use sightingdb::daemon::sighting_writer;

fn item(namespace: &str, value: &str) -> BulkSighting {
    BulkSighting { namespace: namespace.to_string(), value: value.to_string() }
}

#[test]
fn reader_refuses_config_namespace() {
    let mut db = Database::new();
    assert_eq!(
        sighting_reader::read(&mut db, "_config/x", "v", false),
        "{\"message\":\"No access to _config namespace from outside!\"}"
    );
}

#[test]
fn reader_reports_consensus_and_counts_searches() {
    let mut db = Database::new();
    assert!(sighting_writer::write(&mut db, "my/namespace", "127.0.0.1", 1566624658));
    assert!(sighting_writer::write(&mut db, "another/namespace", "127.0.0.1", 1566624658));
    let ans = sighting_reader::read(&mut db, "my/namespace", "127.0.0.1", false);
    assert_eq!(
        ans,
        "{\"value\":\"127.0.0.1\",\"first_seen\":1566624658,\"last_seen\":1566624658,\"count\":1,\"tag\":\"\",\"ttl\":0,\"consensus\":2}"
    );
    assert_eq!(db.get_count("_shadow/my/namespace", "127.0.0.1"), 1);
    sighting_reader::read(&mut db, "my/namespace", "127.0.0.1", false);
    assert_eq!(db.get_count("_shadow/my/namespace", "127.0.0.1"), 2);
    assert_eq!(db.get_count("my/namespace", "127.0.0.1"), 1);
    assert_eq!(db.get_count("_all", "127.0.0.1"), 2);
}

#[test]
fn reader_of_a_missing_path_answers_an_error_and_counts_the_search() {
    let mut db = Database::new();
    sighting_writer::write(&mut db, "p", "v", 100);
    assert_eq!(
        sighting_reader::read(&mut db, "nowhere", "v", true),
        "{\"error\":\"Path not found\",\"path\":\"nowhere\",\"value\":\"v\"}"
    );
    assert_eq!(db.get_count("_shadow/nowhere", "v"), 1);
}

#[test]
fn read_route_needs_val() {
    let mut state = SharedState::new();
    let r = read(&mut state, "/r/p", "x=1");
    assert!(r.json);
    assert_eq!(r.body, "{\"message\":\"Error: val= not found!\"}");
}

#[test]
fn write_then_read_routes() {
    let mut state = SharedState::new();
    let w = server::write(&mut state, "/w/my/ns", "val=abc");
    assert!(w.json);
    assert_eq!(w.body, "{\"message\":\"ok\"}");
    assert_eq!(state.db.get_count("my/ns", "abc"), 1);
    assert_eq!(state.db.get_count("_all", "abc"), 1);
    let r = read(&mut state, "/r/my/ns", "val=YWJj");
    assert!(!r.json);
    assert!(r.body.starts_with("{\"value\":\"abc\","));
    assert!(r.body.contains("\"count\":1,"));
    assert!(r.body.ends_with("\"consensus\":1}"));
    assert!(!r.body.contains("stats"));
}

#[test]
fn readme_reading_decodes_the_value() {
    let mut state = SharedState::new();
    server::write(&mut state, "/w/my/namespace/", "val=127.0.0.1");
    server::write(&mut state, "/w/another/namespace/", "val=127.0.0.1");
    server::write(&mut state, "/w/another/namespace/", "val=127.0.0.1");
    let r = read(&mut state, "/r/my/namespace/", "val=MTI3LjAuMC4x");
    assert!(!r.json);
    assert!(r.body.starts_with("{\"value\":\"127.0.0.1\",\"first_seen\":"));
    assert!(r.body.ends_with(",\"count\":1,\"tag\":\"\",\"ttl\":0,\"consensus\":2}"));
    assert_eq!(state.db.get_count("_shadow/my/namespace/", "127.0.0.1"), 1);
}

#[test]
fn read_route_refuses_what_is_not_unpadded_url_safe_base64() {
    let mut state = SharedState::new();
    server::write(&mut state, "/w/p", "val=a");
    let invalid = "{\"message\":\"Invalid base64 encoding (base64 url with non padding) value\"}";
    for q in ["val=YQ==", "val=Y", "val=Y$", "val=YR", "val=_w"] {
        let r = read(&mut state, "/r/p", q);
        assert!(r.json);
        assert_eq!(r.body, invalid);
    }
    assert!(!state.db.contains_path("_shadow/p"));
    let r = read(&mut state, "/r/p", "val=YQ");
    assert!(r.body.starts_with("{\"value\":\"a\","));
}

#[test]
fn write_route_needs_val() {
    let mut state = SharedState::new();
    let w = server::write(&mut state, "/w/p", "value=1");
    assert_eq!(
        w.body,
        "{\"message\":\"Invalid base64 encoding (base64 url with non padding) value\"}"
    );
}

#[test]
fn bulk_write_and_read() {
    let mut state = SharedState::new();
    let post = PostData { items: vec![item("a", "1"), item("b", "1"), item("a", "2")] };
    let w = write_bulk(&mut state, &post);
    assert_eq!(w.body, "{\"message\":\"ok\"}");
    assert_eq!(state.db.get_count("_all", "1"), 2);
    let query = PostData { items: vec![item("a", "1"), item("_config/x", "1")] };
    let r = read_bulk(&mut state, &query);
    assert!(!r.json);
    let first = state.db.get_attr("a", "1", false, 2);
    assert_eq!(
        r.body,
        format!(
            "{{\n\t\"items\": [\n\t\t{},\n\t\t{{\"message\":\"No access to _config namespace from outside!\"}}\n\t]\n}}\n",
            first
        )
    );
}

#[test]
fn bulk_with_no_items() {
    let mut state = SharedState::new();
    let empty = PostData { items: vec![] };
    let w = write_bulk(&mut state, &empty);
    assert_eq!(
        w.body,
        "{\"message\":\"Invalid base64 encoding (base64 url with non padding) value\"}"
    );
    let r = read_bulk(&mut state, &empty);
    assert_eq!(r.body, "{\n\t\"items\": \n\t]\n}\n");
}

#[test]
fn info_help_configure() {
    assert_eq!(
        info(),
        "{\"implementation\":\"SightingDB\",\"version\":\"0.0.1\",\"vendor\":\"Devo\",\"author\":\"Sebastien Tricaud\"}"
    );
    assert!(help().starts_with("Sighting Daemon, written by Sebastien Tricaud"));
    assert!(help().ends_with("\t/i: info\n"));
    assert_eq!(configure(), "configure");
}

#[test]
fn only_false_turns_ssl_off() {
    assert!(!ssl_enabled("false"));
    assert!(ssl_enabled("true"));
    assert!(ssl_enabled("no"));
    assert!(ssl_enabled(""));
}

#[test]
fn daemonize_setting() {
    assert!(matches!(daemon_mode("true"), DaemonMode::Background));
    assert!(matches!(daemon_mode("false"), DaemonMode::Foreground));
    assert!(matches!(daemon_mode("yes"), DaemonMode::Unknown));
}

#[test]
fn config_and_pid_choices() {
    assert_eq!(sightingdb_get_config("/etc/x.ini", true, "/home/x.ini", true), Ok(String::from("/etc/x.ini")));
    assert_eq!(sightingdb_get_config("/etc/x.ini", false, "/home/x.ini", true), Ok(String::from("/home/x.ini")));
    assert_eq!(
        sightingdb_get_config("/etc/x.ini", false, "/home/x.ini", false),
        Err("Cannot locate sighting-daemon.ini in neither from the -c flag, /etc/sightingdb or ~/.sightingdb/")
    );
    assert_eq!(system_pid_file(), "/var/run/sightingdb.pid");
    assert_eq!(pid_after_system_try(true), Some(String::from("/var/run/sightingdb.pid")));
    assert_eq!(pid_after_system_try(false), None);
    assert_eq!(pid_after_home_try("/home/u/.sightingdb/sighting-daemon.pid", true), "/home/u/.sightingdb/sighting-daemon.pid");
    assert_eq!(pid_after_home_try("/home/u/.sightingdb/sighting-daemon.pid", false), "./sightingdb.pid");
    assert!(config_path_is_absolute("/etc/ssl/cert.pem"));
    assert!(!config_path_is_absolute("ssl/cert.pem"));
}
