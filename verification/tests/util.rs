use tagger::db::util::{escape_string_literal, make_like_expression, wrap_and_escape};
use tagger::error::{internal_error, Error, ErrorKind};
use tagger::like::Like;

type Result<T> = std::result::Result<T, Error>;

#[test]
fn test_escape_string_literal() {
    let sql = escape_string_literal("value'; --");
    assert_eq!("'value''; --'", sql);
}

#[test]
fn test_make_like_expression() -> Result<()> {
    assert_eq!(
        "LIKE 'like'",
        make_like_expression(&Like::try_from("like")?)
    );
    assert_eq!(
        "LIKE '%like_'",
        make_like_expression(&Like::try_from("%like_")?)
    );
    assert_eq!(
        "LIKE '''like'''",
        make_like_expression(&Like::try_from("'like'")?)
    );
    Ok(())
}

#[test]
fn wrap_and_escape_doubles_the_quote() {
    assert_eq!("\"\"", wrap_and_escape("", '"'));
    assert_eq!("\"a\"\"b\"", wrap_and_escape("a\"b", '"'));
    assert_eq!("''''", wrap_and_escape("'", '\''));
    assert_eq!("'it''s ''''so'''''", wrap_and_escape("it's ''so''", '\''));
    assert_eq!("'a\"b'", wrap_and_escape("a\"b", '\''));
}

#[test]
fn internal_error_keeps_facility_and_message() {
    match internal_error("Rusqlite", String::from("no such table")) {
        Error::Internal(facility, message) => {
            assert_eq!("Rusqlite", facility);
            assert_eq!("no such table", message);
        }
        other => panic!("{:?}", other),
    }
}

#[test]
fn error_kinds() {
    assert_eq!(ErrorKind::User, Error::User(String::from("m")).kind());
    assert_eq!(ErrorKind::Internal, Error::Internal("f", String::from("m")).kind());
    assert_eq!(ErrorKind::Io, Error::Io(String::from("m")).kind());
    assert_eq!(ErrorKind::PathNotUnderRoot, Error::PathNotUnderRoot.kind());
    assert_eq!(ErrorKind::NonUtf8Path, Error::NonUtf8Path.kind());
    assert_eq!(ErrorKind::Store, Error::Store(String::from("m")).kind());
    assert_eq!(ErrorKind::Duplicate, Error::Duplicate.kind());
    assert_eq!(ErrorKind::UnresolvedPaths, Error::UnresolvedPaths(vec![]).kind());
    assert_eq!(ErrorKind::SchemaDrift, Error::SchemaDrift.kind());
}
