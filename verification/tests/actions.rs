use tagger::action::check_file_system::Discrepancy;
use tagger::action::scan::ScanOutcome;
use tagger::action::{
    check_file, database_paths, do_check_database, do_check_file_system, do_delete_tag, do_dump,
    do_list_files, do_list_tags, do_rebuild, do_report, do_scan, do_search, do_show_file, do_tag,
    scan_file,
};
use tagger::db::{Catalog, DuplicateFile, File, FileTag, Tag};
use tagger::error::{Error, ErrorKind};
use tagger::file_info::FileInfo;
use tagger::like::Like;
use tagger::location::Location;
use tagger::project::Project;
use tagger::signature::Signature;
use tagger::tag;

type Result<T> = std::result::Result<T, Error>;

fn info(location: &str, signature: &str) -> FileInfo {
    FileInfo::new(Location::new(location), Signature::new(signature))
}

fn project() -> Project {
    Project::from_dir_with("/music", '/')
}

fn rows(store: &Catalog) -> Vec<(String, String)> {
    File::all(store, None)
        .unwrap()
        .into_iter()
        .map(|f| (f.location.into_string(), f.signature.into_string()))
        .collect()
}

fn duplicate_rows(store: &Catalog) -> Vec<(String, String)> {
    DuplicateFile::all(store)
        .unwrap()
        .into_iter()
        .map(|f| (f.location.into_string(), f.signature.into_string()))
        .collect()
}

fn pair(location: &str, signature: &str) -> (String, String) {
    (String::from(location), String::from(signature))
}

fn links(store: &Catalog) -> Vec<(i64, i64)> {
    FileTag::all(store)
        .unwrap()
        .into_iter()
        .map(|l| (l.file_id, l.tag_id))
        .collect()
}

fn tags<'a>(names: &[&'a str]) -> Vec<tag::Tag<'a>> {
    names.iter().map(|n| tag::Tag::from_str(n)).collect()
}

fn paths(list: &[&str]) -> Vec<String> {
    list.iter().map(|p| String::from(*p)).collect()
}

fn found(store: &Catalog, names: &[&str]) -> Vec<String> {
    do_search(store, &tags(names))
        .unwrap()
        .into_iter()
        .map(|l| l.into_string())
        .collect()
}

fn text(d: &Discrepancy) -> String {
    match d {
        Discrepancy::Untracked(l) => format!("untracked {}", l.as_str()),
        Discrepancy::SignatureMismatch(l) => format!("mismatch {}", l.as_str()),
        Discrepancy::LocationConflict(l, m) => format!("conflict {} {}", l.as_str(), m.as_str()),
        Discrepancy::MissingFromFilesystem(l) => format!("missing {}", l.as_str()),
    }
}

fn texts(list: &Vec<Discrepancy>) -> Vec<String> {
    list.iter().map(text).collect()
}

#[test]
fn rescan_after_a_file_took_the_bytes_of_another() -> Result<()> {
    let mut store = Catalog::new();
    let report = do_scan(&mut store, &vec![info("a.wav", "H1"), info("b.wav", "H2")])?;
    assert_eq!(2, report.added_count);
    assert_eq!(0, report.duplicate_count);
    assert!(report.duplicates.is_empty());
    assert_eq!(vec![pair("a.wav", "H1"), pair("b.wav", "H2")], rows(&store));
    assert!(duplicate_rows(&store).is_empty());

    let report = do_scan(&mut store, &vec![info("a.wav", "H1"), info("b.wav", "H1")])?;
    assert_eq!(1, report.added_count);
    assert_eq!(1, report.duplicate_count);
    assert_eq!(1, report.duplicates.len());
    assert_eq!("b.wav", report.duplicates[0].location.as_str());
    assert_eq!("H1", report.duplicates[0].signature.as_str());
    assert_eq!(vec![pair("a.wav", "H1"), pair("b.wav", "H2")], rows(&store));
    assert_eq!(vec![pair("b.wav", "H1")], duplicate_rows(&store));
    Ok(())
}

#[test]
fn scan_file_tells_where_the_file_went() -> Result<()> {
    let mut store = Catalog::new();
    assert_eq!(ScanOutcome::Added(1), scan_file(&mut store, &info("a.wav", "H1"))?);
    assert_eq!(ScanOutcome::Added(1), scan_file(&mut store, &info("a.wav", "H1"))?);
    assert_eq!(ScanOutcome::Duplicate(1), scan_file(&mut store, &info("b.wav", "H1"))?);
    assert_eq!(ScanOutcome::Duplicate(2), scan_file(&mut store, &info("c.wav", "H1"))?);
    assert_eq!(ScanOutcome::Added(1), scan_file(&mut store, &info("a.wav", "H2"))?);
    assert_eq!(ScanOutcome::Added(2), scan_file(&mut store, &info("b.wav", "H1"))?);
    assert_eq!(vec![pair("a.wav", "H2"), pair("b.wav", "H1")], rows(&store));
    assert_eq!(vec![pair("b.wav", "H1"), pair("c.wav", "H1")], duplicate_rows(&store));
    Ok(())
}

#[test]
fn scan_stops_at_a_failure_of_the_store() -> Result<()> {
    let files = vec![File {
        id: i64::MAX,
        location: Location::new("z.wav"),
        signature: Signature::new("H0"),
    }];
    let mut store = Catalog::from_rows(files, vec![], vec![], vec![])?;
    let scanned = vec![info("z.wav", "H9"), info("a.wav", "H1"), info("b.wav", "H2")];
    match do_scan(&mut store, &scanned) {
        Err(e) => assert_eq!(ErrorKind::Store, e.kind()),
        Ok(report) => panic!("{:?}", report),
    }
    assert_eq!(vec![pair("z.wav", "H9")], rows(&store));
    Ok(())
}

#[test]
fn check_after_a_clean_scan_finds_nothing() -> Result<()> {
    let mut store = Catalog::new();
    let tree = vec![info("a.wav", "H1"), info("b.wav", "H2"), info("c/d.wav", "H3")];
    let report = do_scan(&mut store, &tree)?;
    assert_eq!(0, report.duplicate_count);
    assert!(do_check_file_system(&store, &tree)?.is_empty());
    assert!(do_check_database(&store, &vec![true, true, true])?.is_empty());
    Ok(())
}

#[test]
fn check_after_a_file_changed_finds_one_mismatch() -> Result<()> {
    let mut store = Catalog::new();
    do_scan(&mut store, &vec![info("a.wav", "H1"), info("b.wav", "H2")])?;
    let now = vec![info("a.wav", "H1"), info("b.wav", "H3")];
    assert_eq!(vec!["mismatch b.wav"], texts(&do_check_file_system(&store, &now)?));
    // the store is left as it is
    assert_eq!(vec![pair("a.wav", "H1"), pair("b.wav", "H2")], rows(&store));
    Ok(())
}

#[test]
fn check_file_reports_each_kind() -> Result<()> {
    let mut store = Catalog::new();
    do_scan(&mut store, &vec![info("a.wav", "H1"), info("b.wav", "H2")])?;
    assert!(check_file(&store, &info("a.wav", "H1"))?.is_empty());
    assert_eq!(vec!["untracked c.wav"], texts(&check_file(&store, &info("c.wav", "H3"))?));
    assert_eq!(vec!["mismatch a.wav"], texts(&check_file(&store, &info("a.wav", "H3"))?));
    assert_eq!(
        vec!["untracked c.wav", "conflict c.wav a.wav"],
        texts(&check_file(&store, &info("c.wav", "H1"))?)
    );
    assert_eq!(
        vec!["mismatch b.wav", "conflict b.wav a.wav"],
        texts(&check_file(&store, &info("b.wav", "H1"))?)
    );
    Ok(())
}

#[test]
fn check_database_reports_rows_without_a_file() -> Result<()> {
    let mut store = Catalog::new();
    do_scan(&mut store, &vec![info("a.wav", "H1"), info("b/c.wav", "H2"), info("d.wav", "H3")])?;
    assert_eq!(
        vec!["/music/a.wav", "/music/b/c.wav", "/music/d.wav"],
        database_paths(&project(), &store)?
    );
    assert_eq!(
        vec!["missing b/c.wav"],
        texts(&do_check_database(&store, &vec![true, false, true])?)
    );
    assert_eq!(
        vec!["missing b/c.wav", "missing d.wav"],
        texts(&do_check_database(&store, &vec![true])?)
    );
    assert_eq!(
        vec!["\\\\host\\share\\a.wav", "\\\\host\\share\\b\\c.wav", "\\\\host\\share\\d.wav"],
        database_paths(&Project::from_dir_with("\\\\host\\share", '\\'), &store)?
    );
    Ok(())
}

#[test]
fn rebuild_sets_a_duplicate_aside_and_goes_on() -> Result<()> {
    let mut store = Catalog::new();
    let tree = vec![info("a.wav", "H1"), info("b.wav", "H1"), info("c.wav", "H3")];
    do_rebuild(&mut store, &tree)?;
    assert_eq!(vec![pair("a.wav", "H1"), pair("c.wav", "H3")], rows(&store));
    assert_eq!(vec![pair("b.wav", "H1")], duplicate_rows(&store));
    let tree = vec![info("a.wav", "H4"), info("b.wav", "H1"), info("c.wav", "H3")];
    do_rebuild(&mut store, &tree)?;
    assert_eq!(
        vec![pair("a.wav", "H4"), pair("c.wav", "H3"), pair("b.wav", "H1")],
        rows(&store)
    );
    assert_eq!(vec![pair("b.wav", "H1")], duplicate_rows(&store));
    Ok(())
}

#[test]
fn rebuild_stops_at_a_failure_of_the_store() -> Result<()> {
    let files = vec![File {
        id: i64::MAX,
        location: Location::new("z.wav"),
        signature: Signature::new("H0"),
    }];
    let mut store = Catalog::from_rows(files, vec![], vec![], vec![])?;
    let tree = vec![info("y.wav", "H0"), info("a.wav", "H1"), info("b.wav", "H2")];
    match do_rebuild(&mut store, &tree) {
        Err(e) => assert_eq!(ErrorKind::Store, e.kind()),
        Ok(()) => panic!("rebuilt"),
    }
    assert_eq!(vec![pair("z.wav", "H0")], rows(&store));
    assert_eq!(vec![pair("y.wav", "H0")], duplicate_rows(&store));
    Ok(())
}

fn scanned() -> Result<Catalog> {
    let mut store = Catalog::new();
    do_scan(
        &mut store,
        &vec![info("a.wav", "H1"), info("b.wav", "H2"), info("c/d.wav", "H3")],
    )?;
    Ok(store)
}

#[test]
fn tagging_twice_leaves_one_association_per_pair() -> Result<()> {
    let mut store = scanned()?;
    let files = paths(&["/music/c/d.wav", "/music/a.wav"]);
    do_tag(&project(), &mut store, &tags(&["x", "y"]), &files)?;
    let once = links(&store);
    assert_eq!(vec![(1, 1), (1, 2), (3, 1), (3, 2)], once);
    do_tag(&project(), &mut store, &tags(&["x", "y"]), &files)?;
    assert_eq!(once, links(&store));
    do_tag(&project(), &mut store, &tags(&["y", "y"]), &paths(&["/music/a.wav", "/music/a.wav"]))?;
    assert_eq!(once, links(&store));
    assert_eq!(2, Tag::all(&store, None)?.len());
    Ok(())
}

#[test]
fn tagging_an_unknown_path_changes_nothing() -> Result<()> {
    let mut store = scanned()?;
    let files = paths(&["/music/a.wav", "/music/nope.wav", "/music/c/nope.wav"]);
    match do_tag(&project(), &mut store, &tags(&["x"]), &files) {
        Err(Error::UnresolvedPaths(missing)) => {
            let missing: Vec<&str> = missing.iter().map(|l| l.as_str()).collect();
            assert_eq!(vec!["nope.wav", "c/nope.wav"], missing);
        }
        other => panic!("{:?}", other),
    }
    assert!(Tag::all(&store, None)?.is_empty());
    assert!(links(&store).is_empty());
    match do_tag(&project(), &mut store, &tags(&["x"]), &paths(&["/elsewhere/a.wav"])) {
        Err(e) => assert_eq!(ErrorKind::PathNotUnderRoot, e.kind()),
        Ok(()) => panic!("tagged"),
    }
    assert!(Tag::all(&store, None)?.is_empty());
    Ok(())
}

#[test]
fn search_finds_the_tagged_in_any_order() -> Result<()> {
    let mut one = scanned()?;
    do_tag(&project(), &mut one, &tags(&["x"]), &paths(&["/music/a.wav"]))?;
    do_tag(&project(), &mut one, &tags(&["y"]), &paths(&["/music/b.wav"]))?;
    do_tag(&project(), &mut one, &tags(&["x", "z"]), &paths(&["/music/c/d.wav"]))?;
    let mut other = scanned()?;
    do_tag(&project(), &mut other, &tags(&["z", "x"]), &paths(&["/music/c/d.wav"]))?;
    do_tag(&project(), &mut other, &tags(&["y"]), &paths(&["/music/b.wav"]))?;
    do_tag(&project(), &mut other, &tags(&["x"]), &paths(&["/music/a.wav"]))?;
    for store in [&one, &other] {
        assert_eq!(vec!["a.wav", "c/d.wav"], found(store, &["x"]));
        assert_eq!(vec!["b.wav"], found(store, &["y"]));
        assert_eq!(vec!["b.wav", "c/d.wav"], found(store, &["z", "y"]));
        assert_eq!(vec!["a.wav", "c/d.wav"], found(store, &["x", "z"]));
        assert!(found(store, &["unknown"]).is_empty());
        assert!(found(store, &[]).is_empty());
    }
    Ok(())
}

#[test]
fn delete_tag_removes_tag_and_associations() -> Result<()> {
    let mut store = scanned()?;
    do_tag(&project(), &mut store, &tags(&["x", "y"]), &paths(&["/music/a.wav", "/music/b.wav"]))?;
    do_delete_tag(&mut store, &tags(&["x", "unknown"]))?;
    assert!(found(&store, &["x"]).is_empty());
    assert_eq!(vec!["a.wav", "b.wav"], found(&store, &["y"]));
    assert_eq!(vec![(1, 2), (2, 2)], links(&store));
    assert_eq!(3, rows(&store).len());
    Ok(())
}

#[test]
fn lists_are_sorted() -> Result<()> {
    let mut store = Catalog::new();
    do_scan(
        &mut store,
        &vec![info("b.wav", "H1"), info("a/z.wav", "H2"), info("B.wav", "H3"), info("a.wav", "H4")],
    )?;
    assert_eq!(
        vec!["B.wav", "a.wav", "a/z.wav", "b.wav"],
        do_list_files(&store, None)?
    );
    assert_eq!(
        vec!["B.wav", "b.wav"],
        do_list_files(&store, Some(Like::new("b%")))?
    );
    do_tag(
        &Project::from_dir_with("/", '/'),
        &mut store,
        &tags(&["snare", "kick", "Hat"]),
        &paths(&["/a.wav"]),
    )?;
    assert_eq!(vec!["Hat", "kick", "snare"], do_list_tags(&store, None)?);
    assert_eq!(vec!["kick"], do_list_tags(&store, Some(Like::new("_i%")))?);
    Ok(())
}

#[test]
fn show_file_gives_the_row_and_its_tags() -> Result<()> {
    let mut store = scanned()?;
    do_tag(&project(), &mut store, &tags(&["snare", "kick"]), &paths(&["/music/c/d.wav"]))?;
    do_tag(&project(), &mut store, &tags(&["hat"]), &paths(&["/music/a.wav", "/music/c/d.wav"]))?;
    let details = do_show_file(&project(), &store, "/music/c/d.wav")?;
    assert_eq!("/music/c/d.wav", details.path);
    assert_eq!("c/d.wav", details.location.as_str());
    assert_eq!("H3", details.signature.as_str());
    assert_eq!(vec!["hat", "kick", "snare"], details.tags);
    let details = do_show_file(&project(), &store, "/music/b.wav")?;
    assert!(details.tags.is_empty());
    match do_show_file(&project(), &store, "/music/nope.wav") {
        Err(Error::UnresolvedPaths(missing)) => {
            assert_eq!(1, missing.len());
            assert_eq!("nope.wav", missing[0].as_str());
        }
        other => panic!("{:?}", other),
    }
    match do_show_file(&project(), &store, "/elsewhere/b.wav") {
        Err(e) => assert_eq!(ErrorKind::PathNotUnderRoot, e.kind()),
        Ok(details) => panic!("{:?}", details),
    }
    Ok(())
}

#[test]
fn report_tells_what_the_store_holds() -> Result<()> {
    let store = scanned()?;
    let reports = do_report(
        &store,
        &vec![info("a.wav", "H1"), info("b.wav", "H1"), info("x.wav", "H9")],
    )?;
    assert_eq!(3, reports.len());
    assert_eq!(1, reports[0].with_same_location.as_ref().unwrap().id);
    assert!(reports[0].signatures_match);
    assert_eq!(1, reports[0].with_same_signature.as_ref().unwrap().id);
    assert!(reports[0].locations_match);
    assert_eq!(2, reports[1].with_same_location.as_ref().unwrap().id);
    assert!(!reports[1].signatures_match);
    assert_eq!(1, reports[1].with_same_signature.as_ref().unwrap().id);
    assert!(!reports[1].locations_match);
    assert!(reports[2].with_same_location.is_none());
    assert!(!reports[2].signatures_match);
    assert!(reports[2].with_same_signature.is_none());
    assert!(!reports[2].locations_match);
    Ok(())
}

#[test]
fn dump_gives_every_row() -> Result<()> {
    let mut store = scanned()?;
    do_scan(&mut store, &vec![info("e.wav", "H1")])?;
    do_tag(&project(), &mut store, &tags(&["x"]), &paths(&["/music/a.wav"]))?;
    let dump = do_dump(&project(), &store)?;
    assert_eq!("/music", dump.dir);
    assert_eq!("/music/tagger.db", dump.db_path);
    assert_eq!(3, dump.files.len());
    assert_eq!(1, dump.duplicate_files.len());
    assert_eq!("e.wav", dump.duplicate_files[0].location.as_str());
    assert_eq!(1, dump.tags.len());
    assert_eq!("x", dump.tags[0].name);
    assert_eq!(1, dump.file_tags.len());
    Ok(())
}

#[test]
fn a_path_of_a_project_comes_back_from_its_location() -> Result<()> {
    for project in [Project::from_dir("/music"), Project::from_dir_with("/music/", '/')] {
        for path in ["/music/a.wav", "/music/b/c.wav", "/music//d"] {
            let location = project.location_of(path)?;
            assert_eq!(path, project.path_of(&location));
        }
        assert!(matches!(
            project.location_of("/elsewhere/a.wav"),
            Err(Error::PathNotUnderRoot)
        ));
    }
    let project = Project::from_dir_with("C:\\music", '\\');
    let location = project.location_of("C:\\music\\b\\c.wav")?;
    assert_eq!("b/c.wav", location.as_str());
    assert_eq!("C:\\music\\b\\c.wav", project.path_of(&location));
    Ok(())
}

#[test]
fn project_places_the_store_in_the_root() {
    assert_eq!("/music/tagger.db", Project::from_dir_with("/music", '/').db_path);
    assert_eq!("/music/tagger.db", Project::from_dir_with("/music/", '/').db_path);
    assert_eq!("tagger.db", Project::from_dir_with("", '/').db_path);
    assert_eq!("C:\\music\\tagger.db", Project::from_dir_with("C:\\music", '\\').db_path);
    let project = Project::from_dir("/music");
    assert_eq!("/music", project.dir);
    assert_eq!("/music/tagger.db", project.db_path);
    assert_eq!('/', project.separator);
}
