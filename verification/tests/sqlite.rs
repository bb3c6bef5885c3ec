use rusqlite::Connection;

use tagger::db::migrations::{migrations, record_applied, run_migrations, INITIAL_MIGRATION};
use tagger::db::util::make_like_expression;
use tagger::db::{Catalog, DuplicateFile, File, FileTag, Tag};
use tagger::file_info::FileInfo;
use tagger::like::Like;
use tagger::location::Location;
use tagger::signature::Signature;
use tagger::tag;

fn info(location: &str, signature: &str) -> FileInfo {
    FileInfo::new(Location::new(location), Signature::new(signature))
}

/// A database in memory with every migration applied.
fn database() -> Connection {
    let conn = Connection::open_in_memory().unwrap();
    conn.execute_batch("PRAGMA foreign_keys = ON; PRAGMA foreign_key_check;")
        .unwrap();
    conn.execute_batch(INITIAL_MIGRATION).unwrap();
    let mut applied: Vec<String> = Vec::new();
    for migration in run_migrations(&applied, &Vec::new()).unwrap() {
        conn.execute_batch(migration.script).unwrap();
        conn.execute("INSERT INTO migrations (name) VALUES (?1)", [migration.name])
            .unwrap();
        record_applied(&mut applied, migration.name);
    }
    assert_eq!(3, applied.len());
    conn
}

fn identities(conn: &Connection, table: &str) -> Vec<(i64, String, String)> {
    let sql = format!("SELECT id, location, signature FROM {} ORDER BY id", table);
    let mut stmt = conn.prepare(&sql).unwrap();
    let rows = stmt
        .query_map([], |row| Ok((row.get(0)?, row.get(1)?, row.get(2)?)))
        .unwrap();
    rows.map(|r| r.unwrap()).collect()
}

fn tags(conn: &Connection) -> Vec<(i64, String)> {
    let mut stmt = conn.prepare("SELECT id, name FROM tags ORDER BY id").unwrap();
    let rows = stmt
        .query_map([], |row| Ok((row.get(0)?, row.get(1)?)))
        .unwrap();
    rows.map(|r| r.unwrap()).collect()
}

fn links(conn: &Connection) -> Vec<(i64, i64, i64)> {
    let mut stmt = conn
        .prepare("SELECT id, file_id, tag_id FROM file_tags ORDER BY id")
        .unwrap();
    let rows = stmt
        .query_map([], |row| Ok((row.get(0)?, row.get(1)?, row.get(2)?)))
        .unwrap();
    rows.map(|r| r.unwrap()).collect()
}

fn file_rows(store: &Catalog) -> Vec<(i64, String, String)> {
    File::all(store, None)
        .unwrap()
        .into_iter()
        .map(|f| (f.id, f.location.into_string(), f.signature.into_string()))
        .collect()
}

fn duplicate_rows(store: &Catalog) -> Vec<(i64, String, String)> {
    DuplicateFile::all(store)
        .unwrap()
        .into_iter()
        .map(|f| (f.id, f.location.into_string(), f.signature.into_string()))
        .collect()
}

fn tag_rows(store: &Catalog) -> Vec<(i64, String)> {
    Tag::all(store, None)
        .unwrap()
        .into_iter()
        .map(|t| (t.id, t.name))
        .collect()
}

fn link_rows(store: &Catalog) -> Vec<(i64, i64, i64)> {
    FileTag::all(store)
        .unwrap()
        .into_iter()
        .map(|l| (l.id, l.file_id, l.tag_id))
        .collect()
}

fn sorted<T: Ord>(mut rows: Vec<T>) -> Vec<T> {
    rows.sort();
    rows
}

fn assert_same(conn: &Connection, store: &Catalog) {
    assert_eq!(identities(conn, "files"), sorted(file_rows(store)));
    assert_eq!(identities(conn, "duplicate_files"), sorted(duplicate_rows(store)));
    assert_eq!(tags(conn), sorted(tag_rows(store)));
    assert_eq!(links(conn), sorted(link_rows(store)));
}

const FILE_UPSERT: &str = "INSERT INTO files (location, signature) VALUES (?1, ?2)
    ON CONFLICT(location) DO UPDATE SET signature = ?2";
const FILE_INSERT: &str = "INSERT INTO files (location, signature) VALUES (?1, ?2)";
const DUPLICATE_UPSERT: &str = "INSERT INTO duplicate_files (location, signature) VALUES (?1, ?2)
    ON CONFLICT(location) DO UPDATE SET signature = ?2";
const TAG_UPSERT: &str = "INSERT INTO tags (name) VALUES (?1) ON CONFLICT(name) DO NOTHING";
const LINK_UPSERT: &str = "INSERT INTO file_tags (file_id, tag_id) VALUES (?1, ?2)
    ON CONFLICT(file_id, tag_id) DO NOTHING";

#[test]
fn the_migrations_run_in_a_database() {
    let conn = database();
    let mut stmt = conn
        .prepare("SELECT name FROM sqlite_master WHERE type = 'table' ORDER BY name")
        .unwrap();
    let names: Vec<String> = stmt
        .query_map([], |row| row.get(0))
        .unwrap()
        .map(|r| r.unwrap())
        .collect();
    assert_eq!(
        vec!["duplicate_files", "file_tags", "files", "migrations", "tags"],
        names
    );
    let mut stmt = conn.prepare("SELECT name FROM migrations ORDER BY name").unwrap();
    let recorded: Vec<String> = stmt
        .query_map([], |row| row.get(0))
        .unwrap()
        .map(|r| r.unwrap())
        .collect();
    let all: Vec<&str> = migrations().iter().map(|m| m.name).collect();
    assert_eq!(all, recorded);
    assert!(run_migrations(&recorded, &names).unwrap().is_empty());
}

#[test]
fn file_upserts_go_as_in_a_database() {
    let conn = database();
    let mut store = Catalog::new();
    let steps = [
        ("a.wav", "H1"),
        ("b.wav", "H2"),
        ("a.wav", "H1"),
        ("a.wav", "H3"),
        ("c.wav", "H2"),
        ("b.wav", "H3"),
        ("c.wav", "H1"),
        ("b.wav", "H2"),
        ("a.wav", "H1"),
        ("d.wav", "H3"),
        ("d.wav", "H4"),
    ];
    for (location, signature) in steps {
        let theirs = conn.execute(FILE_UPSERT, [location, signature]);
        let ours = File::upsert(&mut store, &info(location, signature));
        assert_eq!(theirs.is_ok(), ours.is_ok(), "{} {}", location, signature);
        if ours.is_err() {
            let as_duplicate = conn.execute(DUPLICATE_UPSERT, [location, signature]);
            assert!(as_duplicate.is_ok());
            DuplicateFile::upsert(&mut store, &info(location, signature)).unwrap();
        }
        assert_same(&conn, &store);
    }
}

#[test]
fn file_inserts_go_as_in_a_database() {
    let conn = database();
    let mut store = Catalog::new();
    let steps = [
        ("a.wav", "H1"),
        ("b.wav", "H2"),
        ("a.wav", "H1"),
        ("a.wav", "H3"),
        ("c.wav", "H2"),
        ("c.wav", "H3"),
    ];
    for (location, signature) in steps {
        let theirs = conn.execute(FILE_INSERT, [location, signature]);
        let ours = File::insert(&mut store, &info(location, signature));
        assert_eq!(theirs.is_ok(), ours.is_ok(), "{} {}", location, signature);
        if let Ok(id) = ours {
            assert_eq!(conn.last_insert_rowid(), id);
        }
        assert_same(&conn, &store);
    }
}

#[test]
fn tags_and_associations_go_as_in_a_database() {
    let conn = database();
    let mut store = Catalog::new();
    for (location, signature) in [("a.wav", "H1"), ("b.wav", "H2"), ("c.wav", "H3")] {
        conn.execute(FILE_UPSERT, [location, signature]).unwrap();
        File::upsert(&mut store, &info(location, signature)).unwrap();
    }
    for name in ["x", "y", "x", "z", "y"] {
        conn.execute(TAG_UPSERT, [name]).unwrap();
        Tag::upsert(&mut store, &tag::Tag::from_str(name)).unwrap();
        assert_same(&conn, &store);
    }
    for (file_id, tag_id) in [(1, 1), (1, 2), (2, 1), (1, 1), (3, 3), (4, 1), (1, 4), (2, 1), (3, 2)] {
        let theirs = conn.execute(LINK_UPSERT, [file_id, tag_id]);
        let ours = FileTag::upsert(&mut store, file_id, tag_id);
        assert_eq!(theirs.is_ok(), ours.is_ok(), "{} {}", file_id, tag_id);
        assert_same(&conn, &store);
    }
    conn.execute("DELETE FROM tags WHERE name IN ('x', 'unknown')", [])
        .unwrap();
    Tag::delete_by_names(&mut store, &vec!["x", "unknown"]).unwrap();
    assert_same(&conn, &store);
    conn.execute(TAG_UPSERT, ["w"]).unwrap();
    Tag::upsert(&mut store, &tag::Tag::from_str("w")).unwrap();
    conn.execute(LINK_UPSERT, [2, 4]).unwrap();
    FileTag::upsert(&mut store, 2, 4).unwrap();
    assert_same(&conn, &store);
}

#[test]
fn filters_take_what_a_database_takes() {
    let conn = database();
    let mut store = Catalog::new();
    let locations = [
        "drums/kick.wav",
        "drums/Snare.WAV",
        "bass/sub.wav",
        "100%.wav",
        "it's.wav",
        "a_b.mp3",
        "axb.mp3",
        "",
        "%",
        "ÄÖ.wav",
        "äö.wav",
    ];
    for (n, location) in locations.iter().enumerate() {
        let signature = format!("H{}", n);
        conn.execute(FILE_UPSERT, [*location, signature.as_str()]).unwrap();
        File::upsert(&mut store, &info(location, &signature)).unwrap();
    }
    let patterns = [
        "%", "", "_", "drums/%", "DRUMS/%", "%.wav", "%.WAV", "%snare%", "a_b.mp3", "a%b.mp3",
        "100%", "100%%", "it's%", "'%", "%'%", "%ö.wav", "%Ö.wav", "ä%", "__.wav", "%%", "%_%",
        "drums/kick.wav", "drums/kick.wa", "%k%k%", "_%_%_%_%_%_%_%_%_%_%_%_%_%_%_", "%\\%",
    ];
    for pattern in patterns {
        let like = Like::new(pattern);
        let sql = format!(
            "SELECT location FROM files WHERE location {} ORDER BY id",
            make_like_expression(&like)
        );
        let mut stmt = conn.prepare(&sql).unwrap();
        let theirs: Vec<String> = stmt
            .query_map([], |row| row.get(0))
            .unwrap()
            .map(|r| r.unwrap())
            .collect();
        let ours: Vec<String> = File::all(&store, Some(like))
            .unwrap()
            .into_iter()
            .map(|f| f.location.into_string())
            .collect();
        assert_eq!(theirs, ours, "{}", pattern);
    }
}
