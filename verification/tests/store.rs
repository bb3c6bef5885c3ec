use tagger::db::migrations::run_migrations;
use tagger::db::{Catalog, DuplicateFile, File, FileTag, Tag};
use tagger::error::{Error, ErrorKind};
use tagger::file_info::FileInfo;
use tagger::like::Like;
use tagger::location::Location;
use tagger::signature::Signature;
use tagger::tag;

type Result<T> = std::result::Result<T, Error>;

fn info(location: &str, signature: &str) -> FileInfo {
    FileInfo::new(Location::new(location), Signature::new(signature))
}

fn rows(store: &Catalog) -> Vec<(i64, String, String)> {
    File::all(store, None)
        .unwrap()
        .into_iter()
        .map(|f| (f.id, f.location.into_string(), f.signature.into_string()))
        .collect()
}

fn duplicate_rows(store: &Catalog) -> Vec<(i64, String, String)> {
    DuplicateFile::all(store)
        .unwrap()
        .into_iter()
        .map(|f| (f.id, f.location.into_string(), f.signature.into_string()))
        .collect()
}

fn row(id: i64, location: &str, signature: &str) -> (i64, String, String) {
    (id, String::from(location), String::from(signature))
}

#[test]
fn dao_basics() -> Result<()> {
    let mut conn = Catalog::new();
    run_migrations(&Vec::new(), &Vec::new())?;

    assert!(File::all(&conn, None)?.is_empty());
    assert!(DuplicateFile::all(&conn)?.is_empty());
    assert!(Tag::all(&conn, None)?.is_empty());
    assert!(FileTag::all(&conn)?.is_empty());

    File::insert(
        &mut conn,
        &FileInfo::new(
            Location::try_from("LOCATION0")?,
            Signature::try_from("SIGNATURE0")?,
        ),
    )?;
    File::insert(
        &mut conn,
        &FileInfo::new(
            Location::try_from("LOCATION1")?,
            Signature::try_from("SIGNATURE1")?,
        ),
    )?;

    assert_eq!(2, File::all(&conn, None)?.len());
    assert!(DuplicateFile::all(&conn)?.is_empty());

    assert_eq!(
        1,
        File::all_by_location(&conn, &Location::try_from("LOCATION0")?)?.len()
    );
    assert!(File::all_by_location(&conn, &Location::try_from("UNKNOWN-LOCATION")?)?.is_empty());

    assert_eq!(
        2,
        File::all_by_locations(
            &conn,
            &vec![
                Location::try_from("LOCATION0")?,
                Location::try_from("UNKNOWN-LOCATION")?,
                Location::try_from("LOCATION1")?
            ]
        )?
        .len()
    );

    Tag::upsert(&mut conn, &tag::Tag::from_str("tag0"))?;
    Tag::upsert(&mut conn, &tag::Tag::from_str("tag1"))?;
    Tag::upsert(&mut conn, &tag::Tag::from_str("tag2"))?;

    assert_eq!(3, Tag::all(&conn, None)?.len());

    let tags = Tag::all_by_names(&conn, &vec!["tag0", "tag1"])?;
    assert_eq!(2, tags.len());
    assert_eq!(1, tags[0].id);
    assert_eq!("tag0", tags[0].name);
    assert_eq!(2, tags[1].id);
    assert_eq!("tag1", tags[1].name);

    DuplicateFile::upsert(
        &mut conn,
        &FileInfo::new(
            Location::try_from("LOCATION0")?,
            Signature::try_from("SIGNATURE0")?,
        ),
    )?;

    assert_eq!(2, File::all(&conn, None)?.len());
    assert_eq!(1, DuplicateFile::all(&conn)?.len());

    Ok(())
}

#[test]
fn db_basics() -> Result<()> {
    let mut conn = Catalog::new();

    assert!(File::all(&conn, None)?.is_empty());
    assert!(DuplicateFile::all(&conn)?.is_empty());
    assert!(Tag::all(&conn, None)?.is_empty());
    assert!(FileTag::all(&conn)?.is_empty());

    File::insert(
        &mut conn,
        &FileInfo::new(
            Location::try_from("LOCATION")?,
            Signature::try_from("SIGNATURE")?,
        ),
    )?;

    assert_eq!(1, File::all(&conn, None)?.len());
    assert!(DuplicateFile::all(&conn)?.is_empty());

    Tag::upsert(&mut conn, &tag::Tag::from_str("tag0"))?;
    Tag::upsert(&mut conn, &tag::Tag::from_str("tag1"))?;
    Tag::upsert(&mut conn, &tag::Tag::from_str("tag2"))?;

    assert_eq!(3, Tag::all(&conn, None)?.len());

    let tags = Tag::all_by_names(&conn, &vec!["tag0", "tag1"])?;
    assert_eq!(2, tags.len());
    assert_eq!(1, tags[0].id);
    assert_eq!("tag0", tags[0].name);
    assert_eq!(2, tags[1].id);
    assert_eq!("tag1", tags[1].name);

    DuplicateFile::upsert(
        &mut conn,
        &FileInfo::new(
            Location::try_from("LOCATION")?,
            Signature::try_from("SIGNATURE")?,
        ),
    )?;

    assert_eq!(1, File::all(&conn, None)?.len());
    assert_eq!(1, DuplicateFile::all(&conn)?.len());

    Ok(())
}

#[test]
fn upsert_of_a_new_identity_adds_a_row() -> Result<()> {
    let mut store = Catalog::new();
    assert_eq!(1, File::upsert(&mut store, &info("a.wav", "H1"))?);
    assert_eq!(2, File::upsert(&mut store, &info("b.wav", "H2"))?);
    assert_eq!(
        vec![row(1, "a.wav", "H1"), row(2, "b.wav", "H2")],
        rows(&store)
    );
    Ok(())
}

#[test]
fn upsert_twice_leaves_one_row() -> Result<()> {
    let mut store = Catalog::new();
    let first = File::upsert(&mut store, &info("a.wav", "H1"))?;
    let second = File::upsert(&mut store, &info("a.wav", "H1"))?;
    assert_eq!(first, second);
    assert_eq!(vec![row(1, "a.wav", "H1")], rows(&store));
    Ok(())
}

#[test]
fn upsert_of_a_new_signature_updates_in_place() -> Result<()> {
    let mut store = Catalog::new();
    File::upsert(&mut store, &info("a.wav", "H1"))?;
    File::upsert(&mut store, &info("b.wav", "H2"))?;
    assert_eq!(1, File::upsert(&mut store, &info("a.wav", "H3"))?);
    assert_eq!(
        vec![row(1, "a.wav", "H3"), row(2, "b.wav", "H2")],
        rows(&store)
    );
    Ok(())
}

#[test]
fn upsert_of_a_known_signature_elsewhere_is_a_duplicate() -> Result<()> {
    let mut store = Catalog::new();
    File::upsert(&mut store, &info("a.wav", "H1"))?;
    File::upsert(&mut store, &info("b.wav", "H2"))?;
    // at a new location
    assert!(matches!(
        File::upsert(&mut store, &info("c.wav", "H1")),
        Err(Error::Duplicate)
    ));
    // at a known location, whose row would take the signature of another
    assert!(matches!(
        File::upsert(&mut store, &info("b.wav", "H1")),
        Err(Error::Duplicate)
    ));
    assert_eq!(
        vec![row(1, "a.wav", "H1"), row(2, "b.wav", "H2")],
        rows(&store)
    );
    assert!(duplicate_rows(&store).is_empty());
    assert_eq!(1, DuplicateFile::upsert(&mut store, &info("c.wav", "H1"))?);
    assert_eq!(vec![row(1, "c.wav", "H1")], duplicate_rows(&store));
    Ok(())
}

#[test]
fn insert_refuses_a_known_location_or_signature() -> Result<()> {
    let mut store = Catalog::new();
    assert_eq!(1, File::insert(&mut store, &info("a.wav", "H1"))?);
    for (location, signature) in [("a.wav", "H1"), ("a.wav", "H2"), ("b.wav", "H1")] {
        match File::insert(&mut store, &info(location, signature)) {
            Err(e) => assert_eq!(ErrorKind::Duplicate, e.kind()),
            Ok(id) => panic!("row {}", id),
        }
    }
    assert_eq!(vec![row(1, "a.wav", "H1")], rows(&store));
    Ok(())
}

#[test]
fn duplicate_upsert_keeps_the_latest_signature() -> Result<()> {
    let mut store = Catalog::new();
    assert_eq!(1, DuplicateFile::upsert(&mut store, &info("a.wav", "H1"))?);
    assert_eq!(2, DuplicateFile::upsert(&mut store, &info("b.wav", "H1"))?);
    assert_eq!(1, DuplicateFile::upsert(&mut store, &info("a.wav", "H2"))?);
    assert_eq!(
        vec![row(1, "a.wav", "H2"), row(2, "b.wav", "H1")],
        duplicate_rows(&store)
    );
    Ok(())
}

#[test]
fn lookups_by_location_and_signature() -> Result<()> {
    let mut store = Catalog::new();
    File::upsert(&mut store, &info("a.wav", "H1"))?;
    File::upsert(&mut store, &info("b.wav", "H2"))?;
    let found = File::by_location(&store, &Location::new("b.wav"))?.unwrap();
    assert_eq!((2, "b.wav", "H2"), (found.id, found.location.as_str(), found.signature.as_str()));
    let found = File::by_signature(&store, &Signature::new("H1"))?.unwrap();
    assert_eq!((1, "a.wav", "H1"), (found.id, found.location.as_str(), found.signature.as_str()));
    assert!(File::by_location(&store, &Location::new("c.wav"))?.is_none());
    assert!(File::by_signature(&store, &Signature::new("H3"))?.is_none());
    Ok(())
}

#[test]
fn a_row_compares_with_a_file() -> Result<()> {
    let mut store = Catalog::new();
    File::upsert(&mut store, &info("a.wav", "H1"))?;
    let found = File::by_location(&store, &Location::new("a.wav"))?.unwrap();
    assert!(found.signatures_eq(&info("b.wav", "H1")));
    assert!(!found.signatures_eq(&info("a.wav", "H2")));
    assert!(found.locations_eq(&info("a.wav", "H2")));
    assert!(!found.locations_eq(&info("b.wav", "H1")));
    Ok(())
}

#[test]
fn all_by_locations_gives_each_row_once_in_table_order() -> Result<()> {
    let mut store = Catalog::new();
    for (location, signature) in [("a", "1"), ("b", "2"), ("c", "3")] {
        File::upsert(&mut store, &info(location, signature))?;
    }
    let wanted = vec![
        Location::new("c"),
        Location::new("x"),
        Location::new("a"),
        Location::new("c"),
    ];
    let found: Vec<String> = File::all_by_locations(&store, &wanted)?
        .into_iter()
        .map(|f| f.location.into_string())
        .collect();
    assert_eq!(vec!["a", "c"], found);
    Ok(())
}

#[test]
fn all_with_a_filter() -> Result<()> {
    let mut store = Catalog::new();
    for (location, signature) in [("drums/kick.wav", "1"), ("bass/sub.wav", "2"), ("drums/hat.mp3", "3")] {
        File::upsert(&mut store, &info(location, signature))?;
    }
    let found: Vec<String> = File::all(&store, Some(Like::new("drums/%")))?
        .into_iter()
        .map(|f| f.location.into_string())
        .collect();
    assert_eq!(vec!["drums/kick.wav", "drums/hat.mp3"], found);
    let found: Vec<String> = File::all(&store, Some(Like::new("%.WAV")))?
        .into_iter()
        .map(|f| f.location.into_string())
        .collect();
    assert_eq!(vec!["drums/kick.wav", "bass/sub.wav"], found);
    assert!(File::all(&store, Some(Like::new("nothing")))?.is_empty());
    for name in ["loop", "long", "short"] {
        Tag::upsert(&mut store, &tag::Tag::from_str(name))?;
    }
    let found: Vec<String> = Tag::all(&store, Some(Like::new("lo__")))?
        .into_iter()
        .map(|t| t.name)
        .collect();
    assert_eq!(vec!["loop", "long"], found);
    Ok(())
}

#[test]
fn tag_upsert_is_idempotent() -> Result<()> {
    let mut store = Catalog::new();
    assert_eq!(1, Tag::upsert(&mut store, &tag::Tag::from_str("x"))?);
    assert_eq!(2, Tag::upsert(&mut store, &tag::Tag::from_str("y"))?);
    assert_eq!(1, Tag::upsert(&mut store, &tag::Tag::from_str("x"))?);
    let names: Vec<String> = Tag::all(&store, None)?.into_iter().map(|t| t.name).collect();
    assert_eq!(vec!["x", "y"], names);
    Ok(())
}

#[test]
fn association_needs_its_file_and_its_tag() -> Result<()> {
    let mut store = Catalog::new();
    let file = File::upsert(&mut store, &info("a.wav", "H1"))?;
    let tag = Tag::upsert(&mut store, &tag::Tag::from_str("x"))?;
    for (f, t) in [(file + 1, tag), (file, tag + 1), (0, 0)] {
        match FileTag::upsert(&mut store, f, t) {
            Err(e) => assert_eq!(ErrorKind::Store, e.kind()),
            Ok(id) => panic!("row {}", id),
        }
    }
    assert!(FileTag::all(&store)?.is_empty());
    assert_eq!(1, FileTag::upsert(&mut store, file, tag)?);
    assert_eq!(1, FileTag::upsert(&mut store, file, tag)?);
    let links = FileTag::all(&store)?;
    assert_eq!(1, links.len());
    assert_eq!((1, file, tag), (links[0].id, links[0].file_id, links[0].tag_id));
    Ok(())
}

#[test]
fn deleting_a_tag_takes_its_associations_along() -> Result<()> {
    let mut store = Catalog::new();
    let a = File::upsert(&mut store, &info("a.wav", "H1"))?;
    let b = File::upsert(&mut store, &info("b.wav", "H2"))?;
    let x = Tag::upsert(&mut store, &tag::Tag::from_str("x"))?;
    let y = Tag::upsert(&mut store, &tag::Tag::from_str("y"))?;
    FileTag::upsert(&mut store, a, x)?;
    FileTag::upsert(&mut store, a, y)?;
    FileTag::upsert(&mut store, b, x)?;
    let removed = Tag::delete_by_names(&mut store, &vec!["x", "unknown"])?;
    assert_eq!(1, removed.len());
    assert_eq!((x, "x"), (removed[0].id, removed[0].name.as_str()));
    let names: Vec<String> = Tag::all(&store, None)?.into_iter().map(|t| t.name).collect();
    assert_eq!(vec!["y"], names);
    let links: Vec<(i64, i64)> = FileTag::all(&store)?
        .into_iter()
        .map(|l| (l.file_id, l.tag_id))
        .collect();
    assert_eq!(vec![(a, y)], links);
    assert_eq!(2, rows(&store).len());
    Ok(())
}

#[test]
fn a_new_id_is_one_more_than_the_largest() -> Result<()> {
    let files = vec![
        File { id: 7, location: Location::new("a"), signature: Signature::new("1") },
        File { id: 3, location: Location::new("b"), signature: Signature::new("2") },
    ];
    let mut store = Catalog::from_rows(files, vec![], vec![], vec![])?;
    assert_eq!(8, File::upsert(&mut store, &info("c", "3"))?);
    let files = vec![
        File { id: i64::MAX, location: Location::new("a"), signature: Signature::new("1") },
    ];
    let mut store = Catalog::from_rows(files, vec![], vec![], vec![])?;
    match File::upsert(&mut store, &info("c", "3")) {
        Err(e) => assert_eq!(ErrorKind::Store, e.kind()),
        Ok(id) => panic!("row {}", id),
    }
    assert_eq!(i64::MAX, File::upsert(&mut store, &info("a", "4"))?);
    assert_eq!(vec![row(i64::MAX, "a", "4")], rows(&store));
    Ok(())
}

#[test]
fn from_rows_keeps_sound_rows() -> Result<()> {
    let files = vec![
        File { id: 1, location: Location::new("a"), signature: Signature::new("1") },
        File { id: 2, location: Location::new("b"), signature: Signature::new("2") },
    ];
    let duplicates = vec![
        DuplicateFile { id: 1, location: Location::new("c"), signature: Signature::new("1") },
        DuplicateFile { id: 2, location: Location::new("d"), signature: Signature::new("1") },
    ];
    let tags = vec![Tag { id: 5, name: String::from("x") }];
    let links = vec![FileTag { id: 1, file_id: 2, tag_id: 5 }];
    let store = Catalog::from_rows(files, duplicates, tags, links)?;
    assert_eq!(vec![row(1, "a", "1"), row(2, "b", "2")], rows(&store));
    assert_eq!(vec![row(1, "c", "1"), row(2, "d", "1")], duplicate_rows(&store));
    assert_eq!(1, Tag::all(&store, None)?.len());
    assert_eq!(1, FileTag::all(&store)?.len());
    Ok(())
}

#[test]
fn from_rows_refuses_rows_that_break_a_rule() {
    let file = |id: i64, location: &str, signature: &str| File {
        id,
        location: Location::new(location),
        signature: Signature::new(signature),
    };
    let duplicate = |id: i64, location: &str| DuplicateFile {
        id,
        location: Location::new(location),
        signature: Signature::new("s"),
    };
    let tag = |id: i64, name: &str| Tag { id, name: String::from(name) };
    let link = |id: i64, file_id: i64, tag_id: i64| FileTag { id, file_id, tag_id };
    let broken = [
        Catalog::from_rows(vec![file(1, "a", "1"), file(1, "b", "2")], vec![], vec![], vec![]),
        Catalog::from_rows(vec![file(1, "a", "1"), file(2, "a", "2")], vec![], vec![], vec![]),
        Catalog::from_rows(vec![file(1, "a", "1"), file(2, "b", "1")], vec![], vec![], vec![]),
        Catalog::from_rows(vec![], vec![duplicate(1, "a"), duplicate(1, "b")], vec![], vec![]),
        Catalog::from_rows(vec![], vec![duplicate(1, "a"), duplicate(2, "a")], vec![], vec![]),
        Catalog::from_rows(vec![], vec![], vec![tag(1, "x"), tag(1, "y")], vec![]),
        Catalog::from_rows(vec![], vec![], vec![tag(1, "x"), tag(2, "x")], vec![]),
        Catalog::from_rows(
            vec![file(1, "a", "1")],
            vec![],
            vec![tag(1, "x")],
            vec![link(1, 1, 1), link(1, 1, 1)],
        ),
        Catalog::from_rows(
            vec![file(1, "a", "1")],
            vec![],
            vec![tag(1, "x")],
            vec![link(1, 1, 1), link(2, 1, 1)],
        ),
        Catalog::from_rows(vec![file(1, "a", "1")], vec![], vec![tag(1, "x")], vec![link(1, 2, 1)]),
        Catalog::from_rows(vec![file(1, "a", "1")], vec![], vec![tag(1, "x")], vec![link(1, 1, 2)]),
    ];
    for r in broken {
        match r {
            Err(e) => assert_eq!(ErrorKind::Store, e.kind()),
            Ok(_) => panic!("accepted"),
        }
    }
}
