use tagger::error::{Error, ErrorKind};
use tagger::extension_set::{extension_of, ExtensionSet};
use tagger::media_path_checker::{
    accepted, create_exclude_regexes, create_include_regexes, matches_any_of, settle,
    MediaPathChecker,
};
use tagger::project::Project;
use tagger::sample_visitor::{
    chosen, files_of, visit, visit_until_failure, Entry, PathChecker,
};
use tagger::walk::SampleVisitor;

type Result<T> = std::result::Result<T, Error>;

#[test]
fn extension_set_test_extension_set() {
    let e = ExtensionSet::new(&["a", "B", "c"]);
    assert!(e.matches("p/q/r.a"));
    assert!(e.matches("p/q/r.A"));
    assert!(e.matches("p/q/r.b"));
    assert!(e.matches("p/q/r.B"));
    assert!(e.matches("p/q/r.c"));
    assert!(e.matches("p/q/r.C"));
    assert!(!e.matches("p/q/r.d"));
    assert!(!e.matches("p/q/r.D"));
    assert!(!e.matches("p/q/r"))
}

#[test]
fn walk_test_extension_set() {
    let e = ExtensionSet::new(&["a", "B", "c"]);
    assert!(e.matches("p/q/r.a"));
    assert!(e.matches("p/q/r.A"));
    assert!(e.matches("p/q/r.b"));
    assert!(e.matches("p/q/r.B"));
    assert!(e.matches("p/q/r.c"));
    assert!(e.matches("p/q/r.C"));
    assert!(!e.matches("p/q/r.d"));
    assert!(!e.matches("p/q/r.D"));
    assert!(!e.matches("p/q/r"))
}

#[test]
fn test_matches_any_of() -> Result<()> {
    let e = create_include_regexes(&["a", "B", "c"])?;
    assert!(matches_any_of(&e, "p/q/r.a")?);
    assert!(matches_any_of(&e, "p/q/r.A")?);
    assert!(matches_any_of(&e, "p/q/r.b")?);
    assert!(matches_any_of(&e, "p/q/r.B")?);
    assert!(matches_any_of(&e, "p/q/r.c")?);
    assert!(matches_any_of(&e, "p/q/r.C")?);
    assert!(!matches_any_of(&e, "p/q/r.d")?);
    assert!(!matches_any_of(&e, "p/q/r.D")?);
    assert!(!matches_any_of(&e, "p/q/r")?);
    Ok(())
}

#[test]
fn extension_set_ignores_case_and_repeats() {
    let e = ExtensionSet::new(&["WAV", "wav", "Mp3"]);
    assert!(e.matches("a.wav"));
    assert!(e.matches("a.WaV"));
    assert!(e.matches("b/a.mp3"));
    assert!(!e.matches("a.wa"));
    assert!(!e.matches("wav"));
    assert!(!ExtensionSet::new(&[]).matches("a.wav"));
}

#[test]
fn extension_of_a_path() {
    let some = |s: &str| Some(String::from(s));
    assert_eq!(some("wav"), extension_of("a/b/c.wav"));
    assert_eq!(some("gz"), extension_of("c.tar.gz"));
    assert_eq!(some(""), extension_of("c."));
    assert_eq!(some("b"), extension_of(".a.b"));
    assert_eq!(some("x"), extension_of("a\\b.x"));
    assert_eq!(None, extension_of("a/b/c"));
    assert_eq!(None, extension_of("a.b/c"));
    assert_eq!(None, extension_of("a.b\\c"));
    assert_eq!(None, extension_of(".hidden"));
    assert_eq!(None, extension_of("a/.hidden"));
    assert_eq!(None, extension_of(".."));
    assert_eq!(None, extension_of("a/.."));
    assert_eq!(None, extension_of("a.b/"));
    assert_eq!(None, extension_of(""));
}

#[test]
fn include_pattern_escapes_the_extensions() -> Result<()> {
    assert_eq!(
        vec![String::from("(?i)^.+\\.(a|B|c)$")],
        create_include_regexes(&["a", "B", "c"])?
    );
    assert_eq!(
        vec![String::from("(?i)^.+\\.(tar\\.gz|c\\+\\+|x\\|y)$")],
        create_include_regexes(&["tar.gz", "c++", "x|y"])?
    );
    let e = create_include_regexes(&["tar.gz"])?;
    assert!(matches_any_of(&e, "a.tar.gz")?);
    assert!(!matches_any_of(&e, "a.tarxgz")?);
    assert_eq!(vec![String::from("(?i)^.+\\.()$")], create_include_regexes(&[])?);
    Ok(())
}

#[test]
fn exclude_pattern_takes_the_separator() -> Result<()> {
    assert_eq!(vec![String::from("^.+/__MACOSX/.+$")], create_exclude_regexes('/')?);
    assert_eq!(
        vec![String::from("^.+\\\\__MACOSX\\\\.+$")],
        create_exclude_regexes('\\')?
    );
    Ok(())
}

#[test]
fn a_pattern_that_does_not_compile_is_an_error() {
    let broken = vec![String::from("(")];
    match matches_any_of(&broken, "anything") {
        Err(e) => assert_eq!(ErrorKind::Internal, e.kind()),
        Ok(found) => panic!("{}", found),
    }
    // a match before the broken pattern settles it
    let patterns = vec![String::from("^a"), String::from("(")];
    assert!(matches!(matches_any_of(&patterns, "abc"), Ok(true)));
    assert!(matches_any_of(&patterns, "bcd").is_err());
    assert!(matches!(matches_any_of(&vec![], "abc"), Ok(false)));
}

#[test]
fn settle_reads_up_to_the_first_match_or_failure() {
    assert!(matches!(settle(&vec![]), Ok(false)));
    assert!(matches!(settle(&vec![Some(false), Some(false)]), Ok(false)));
    assert!(matches!(settle(&vec![Some(false), Some(true), None]), Ok(true)));
    assert!(matches!(settle(&vec![Some(false), None, Some(true)]), Err(Error::Internal(_, _))));
    assert!(matches!(settle(&vec![None]), Err(Error::Internal(_, _))));
}

#[test]
fn accepted_wants_every_pattern_tried_and_compiled() {
    let patterns = || vec![String::from("^a"), String::from("b$")];
    assert_eq!(
        patterns(),
        accepted(patterns(), &vec![Some(false), Some(true)]).unwrap()
    );
    assert!(matches!(
        accepted(patterns(), &vec![Some(false), None]),
        Err(Error::Internal(_, _))
    ));
    assert!(matches!(
        accepted(patterns(), &vec![Some(false)]),
        Err(Error::Internal(_, _))
    ));
    assert!(matches!(
        accepted(patterns(), &vec![Some(false), Some(false), Some(false)]),
        Err(Error::Internal(_, _))
    ));
    assert!(accepted(vec![], &vec![]).unwrap().is_empty());
}

#[test]
fn media_path_checker_takes_media_outside_excluded_directories() -> Result<()> {
    let checker = MediaPathChecker::for_separator('/');
    assert!(checker.matches("/m/a.Mid")?);
    assert!(!checker.matches("/m/__MACOSX")?);
    assert!(checker.matches("/m/a.wav")?);
    assert!(checker.matches("/m/a.WAV")?);
    assert!(checker.matches("/m/b/c.mp3")?);
    assert!(checker.matches("x.aiff")?);
    assert!(checker.matches("/m/a.m4a")?);
    assert!(checker.matches("/__MACOSX/a.wav")?);
    assert!(!checker.matches("/m/__MACOSX/a.wav")?);
    assert!(!checker.matches("/m/__MACOSX/b/a.wav")?);
    assert!(!checker.matches("/m/a.txt")?);
    assert!(!checker.matches("/m/wav")?);
    assert!(!checker.matches(".wav")?);
    let windows = MediaPathChecker::for_separator('\\');
    assert!(windows.matches("C:\\m\\a.wav")?);
    assert!(!windows.matches("C:\\m\\__MACOSX\\a.wav")?);
    assert!(windows.matches("C:/m/__MACOSX/a.wav")?);
    let host = MediaPathChecker::new();
    assert!(host.matches("/m/a.snd")?);
    assert!(!host.matches("/m/__MACOSX/a.snd")?);
    assert!(Project::from_dir("/m").path_checker().matches("/m/a.wma")?);
    Ok(())
}

fn file(path: &str) -> Entry {
    Entry::File { path: String::from(path) }
}

fn dir(path: &str, entries: Vec<Entry>) -> Entry {
    Entry::Directory { path: String::from(path), entries }
}

fn tree() -> Entry {
    dir(
        "/m",
        vec![
            file("/m/b.wav"),
            dir(
                "/m/a",
                vec![
                    file("/m/a/x.mp3"),
                    dir("/m/a/deep", vec![file("/m/a/deep/y.WAV"), file("/m/a/deep/y.txt")]),
                    file("/m/a/z.wav"),
                ],
            ),
            dir("/m/empty", vec![]),
            dir("/m/__MACOSX", vec![file("/m/__MACOSX/b.wav")]),
            file("/m/notes.txt"),
            file("/m/c.au"),
        ],
    )
}

#[test]
fn visit_walks_depth_first() -> Result<()> {
    let found = visit(&tree(), &MediaPathChecker::for_separator('/'))?;
    assert_eq!(
        vec!["/m/b.wav", "/m/a/x.mp3", "/m/a/deep/y.WAV", "/m/a/z.wav", "/m/c.au"],
        found
    );
    let found = visit(&tree(), &ExtensionSet::new(&["txt", "WAV"]))?;
    assert_eq!(
        vec![
            "/m/b.wav",
            "/m/a/deep/y.WAV",
            "/m/a/deep/y.txt",
            "/m/a/z.wav",
            "/m/__MACOSX/b.wav",
            "/m/notes.txt"
        ],
        found
    );
    Ok(())
}

#[test]
fn visit_of_what_is_no_directory_finds_nothing() -> Result<()> {
    assert!(visit(&file("/m/b.wav"), &ExtensionSet::new(&["wav"]))?.is_empty());
    assert!(visit(&dir("/m", vec![]), &ExtensionSet::new(&["wav"]))?.is_empty());
    Ok(())
}

#[test]
fn sample_visitor_goes_by_its_extensions() -> Result<()> {
    let visitor = SampleVisitor::new(ExtensionSet::new(&["mp3", "au"]));
    assert_eq!(vec!["/m/a/x.mp3", "/m/c.au"], visitor.visit(&tree())?);
    Ok(())
}

struct Stubborn;

impl PathChecker for Stubborn {
    fn accepts(&self, _path: vstd::seq::Seq<char>) -> bool {
        unreachable!()
    }

    fn decides(&self, _path: vstd::seq::Seq<char>) -> bool {
        unreachable!()
    }

    fn fails_with(&self, _path: vstd::seq::Seq<char>, _error: Error) -> bool {
        unreachable!()
    }

    fn matches(&self, path: &str) -> Result<bool> {
        if path.ends_with(".txt") {
            Err(Error::Io(String::from(path)))
        } else {
            Ok(true)
        }
    }
}

#[test]
fn visit_ends_at_the_first_failure() {
    match visit(&tree(), &Stubborn) {
        Err(Error::Io(path)) => assert_eq!("/m/a/deep/y.txt", path),
        other => panic!("{:?}", other),
    }
}

#[test]
fn a_walk_keeps_what_it_met_before_the_failure() {
    let walk = visit_until_failure(&tree(), &Stubborn);
    assert_eq!(vec!["/m/b.wav", "/m/a/x.mp3", "/m/a/deep/y.WAV"], walk.paths);
    match walk.failure {
        Some(Error::Io(path)) => assert_eq!("/m/a/deep/y.txt", path),
        other => panic!("{:?}", other),
    }
    let walk = visit_until_failure(&tree(), &ExtensionSet::new(&["au", "mp3"]));
    assert_eq!(vec!["/m/a/x.mp3", "/m/c.au"], walk.paths);
    assert!(walk.failure.is_none());
}

#[test]
fn files_of_a_tree_come_depth_first() {
    assert_eq!(
        vec![
            "/m/b.wav",
            "/m/a/x.mp3",
            "/m/a/deep/y.WAV",
            "/m/a/deep/y.txt",
            "/m/a/z.wav",
            "/m/__MACOSX/b.wav",
            "/m/notes.txt",
            "/m/c.au"
        ],
        files_of(&tree())
    );
    assert!(files_of(&file("/m/b.wav")).is_empty());
}

#[test]
fn chosen_goes_by_the_answers() {
    let paths = vec![String::from("a"), String::from("b"), String::from("c")];
    assert_eq!(
        vec!["a", "c"],
        chosen(&paths, &vec![true, false, true], None).unwrap()
    );
    assert_eq!(vec!["b"], chosen(&paths, &vec![false, true], None).unwrap());
    assert!(chosen(&paths, &vec![], None).unwrap().is_empty());
    assert!(matches!(
        chosen(&paths, &vec![true], Some(Error::Io(String::from("b")))),
        Err(Error::Io(_))
    ));
}

