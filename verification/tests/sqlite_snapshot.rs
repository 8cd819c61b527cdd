use koshelf::sqlite_snapshot::{is_sqlite_db_or_companion, sqlite_companion_path, sqlite_snapshot_paths};

#[test]
fn identifies_sqlite_main_wal_and_shm_paths() {
    let db = "/tmp/statistics.sqlite3";
    let paths = sqlite_snapshot_paths(db);

    assert_eq!(paths[0], db);
    assert_eq!(paths[1], "/tmp/statistics.sqlite3-wal");
    assert_eq!(paths[2], "/tmp/statistics.sqlite3-shm");

    assert!(is_sqlite_db_or_companion(db, db));
    assert!(is_sqlite_db_or_companion(&paths[1], db));
    assert!(is_sqlite_db_or_companion(&paths[2], db));
    assert!(!is_sqlite_db_or_companion("/tmp/other.sqlite3", db));
}

#[test]
fn companion_of_relative_and_trailing_slash_paths() {
    assert_eq!(sqlite_companion_path("KoboReader.sqlite", "wal"), "KoboReader.sqlite-wal");
    assert_eq!(sqlite_companion_path("/data/db/", "shm"), "/data/db-shm");
    assert_eq!(sqlite_companion_path("/", "wal"), "/");
}
