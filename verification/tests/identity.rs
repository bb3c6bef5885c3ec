use std::convert::TryInto;

use tagger::error::{Error, ErrorKind};
use tagger::file_info::FileInfo;
use tagger::like::Like;
use tagger::location::Location;
use tagger::signature::Signature;

type Result<T> = std::result::Result<T, Error>;

#[test]
fn test_from() -> Result<()> {
    let location = Location::from("/foo/bar", "/foo/bar/aaa/bbb")?;
    assert_eq!("aaa/bbb", location.as_str());
    Ok(())
}

#[test]
fn location_test_from_path() -> Result<()> {
    let location = Location::from_os_path("X:\\foo\\bar", "X:\\foo\\bar\\aaa\\bbb", '\\')?;
    assert_eq!("aaa/bbb", location.as_str());
    Ok(())
}

#[test]
fn test_from_path() -> Result<()> {
    let location = Location::from_path("/foo/bar", "/foo/bar/aaa/bbb")?;
    assert_eq!("aaa/bbb", location.as_str());
    Ok(())
}

#[test]
fn location_test_to_path() -> Result<()> {
    let location = Location::from_os_path("X:\\foo\\bar", "X:\\foo\\bar\\aaa\\bbb", '\\')?;
    let path = location.to_os_path("X:\\foo\\bar", '\\');
    assert_eq!("X:\\foo\\bar\\aaa\\bbb", path.as_str());
    Ok(())
}

#[test]
fn test_to_path() -> Result<()> {
    let location = Location::from_path("/foo/bar", "/foo/bar/aaa/bbb")?;
    let path = location.to_path("/foo/bar");
    assert_eq!("/foo/bar/aaa/bbb", path.as_str());
    Ok(())
}

#[test]
fn location_test_try_from() -> Result<()> {
    let location = Location::try_from("LOCATION")?;
    assert_eq!("LOCATION", location.as_str());
    Ok(())
}

#[test]
fn location_test_try_into() -> Result<()> {
    let location: Location = "LOCATION".try_into()?;
    assert_eq!("LOCATION", location.as_str());
    Ok(())
}

#[test]
fn location_test_eq() -> Result<()> {
    assert_eq!(
        Location::try_from("LOCATION")?,
        Location::try_from("LOCATION")?
    );
    assert!(Location::try_from("LOCATION")?.eq(&Location::try_from("LOCATION")?));
    assert!(!Location::try_from("LOCATION0")?.eq(&Location::try_from("LOCATION1")?));
    assert!(Location::try_from("LOCATION0")? != Location::try_from("LOCATION1")?);
    Ok(())
}

#[test]
fn signature_test_try_from() -> Result<()> {
    let signature = Signature::try_from("SIGNATURE")?;
    assert_eq!("SIGNATURE", signature.as_str());
    Ok(())
}

#[test]
fn test_try_info() -> Result<()> {
    let signature: Signature = "SIGNATURE".try_into()?;
    assert_eq!("SIGNATURE", signature.as_str());
    Ok(())
}

#[test]
fn like_test_try_from() -> Result<()> {
    let like = Like::try_from("LIKE")?;
    assert_eq!("LIKE", like.as_str());
    Ok(())
}

#[test]
fn like_test_try_into() -> Result<()> {
    let like: Like = "LIKE".try_into()?;
    assert_eq!("LIKE", like.as_str());
    Ok(())
}

#[test]
fn like_test_eq() -> Result<()> {
    assert_eq!(Like::try_from("LIKE")?, Like::try_from("LIKE")?);
    assert!(Like::try_from("LIKE")?.eq(&Like::try_from("LIKE")?));
    assert!(!Like::try_from("LIKE0")?.eq(&Like::try_from("LIKE1")?));
    assert!(Like::try_from("LIKE0")? != Like::try_from("LIKE1")?);
    Ok(())
}

#[test]
fn location_round_trip() -> Result<()> {
    for path in ["/foo/bar/a", "/foo/bar/a/b.wav", "/foo/bar//x", "/foo/bar/ä/ö.mp3"] {
        let location = Location::from_os_path("/foo/bar", path, '/')?;
        assert_eq!(path, location.to_os_path("/foo/bar", '/'));
    }
    let location = Location::from_os_path("C:\\root", "C:\\root\\a\\b.wav", '\\')?;
    assert_eq!("a/b.wav", location.as_str());
    assert_eq!("C:\\root\\a\\b.wav", location.to_os_path("C:\\root", '\\'));
    Ok(())
}

#[test]
fn location_root_with_trailing_separator() -> Result<()> {
    let location = Location::from_os_path("/foo/bar/", "/foo/bar/aaa", '/')?;
    assert_eq!("aaa", location.as_str());
    assert_eq!("/foo/bar/aaa", location.to_os_path("/foo/bar/", '/'));
    let location = Location::from_os_path("", "aaa/bbb", '/')?;
    assert_eq!("aaa/bbb", location.as_str());
    assert_eq!("aaa/bbb", location.to_os_path("", '/'));
    Ok(())
}

#[test]
fn location_outside_the_root_is_refused() {
    for path in ["/foo/barx/a", "/foo", "/foo/bar", "/foo/bar/", "/other/a", ""] {
        match Location::from_os_path("/foo/bar", path, '/') {
            Err(e) => assert_eq!(ErrorKind::PathNotUnderRoot, e.kind()),
            Ok(l) => panic!("{} gave {}", path, l.as_str()),
        }
    }
    assert!(matches!(
        Location::from_path("/foo/bar", "/elsewhere/a"),
        Err(Error::PathNotUnderRoot)
    ));
}

#[test]
fn location_into_string() -> Result<()> {
    assert_eq!("a/b", Location::try_from("a/b")?.into_string());
    assert_eq!("S", Signature::try_from("S")?.into_string());
    assert_eq!("L%", Like::try_from("L%")?.into_string());
    Ok(())
}

#[test]
fn signature_of_known_content() -> Result<()> {
    assert_eq!(
        "e3b0c44298fc1c149afbf4c8996fb92427ae41e4649b934ca495991b7852b855:0",
        Signature::from_file(b"")?.as_str()
    );
    assert_eq!(
        "ba7816bf8f01cfea414140de5dae2223b00361a396177a9cb410ff61f20015ad:3",
        Signature::from_file(b"abc")?.as_str()
    );
    Ok(())
}

#[test]
fn signature_follows_content() -> Result<()> {
    let a = Signature::from_file(b"some bytes")?;
    let b = Signature::from_file(b"some bytes")?;
    let c = Signature::from_file(b"some bytes!")?;
    assert!(a.eq(&b));
    assert!(!a.eq(&c));
    assert_eq!(a.as_str(), b.as_str());
    Ok(())
}

#[test]
fn signature_from_digest_formats_hex_and_size() {
    let signature = Signature::from_digest(&[0x00, 0x0f, 0xa0, 0xff], 1234567890123);
    assert_eq!("000fa0ff:1234567890123", signature.as_str());
    assert_eq!(":0", Signature::from_digest(&[], 0).as_str());
    assert_eq!(
        "01:18446744073709551615",
        Signature::from_digest(&[1], u64::MAX).as_str()
    );
    assert_eq!("ab:10", Signature::from_digest(&[0xab], 10).as_str());
}

#[test]
fn file_info_from_file() -> Result<()> {
    let info = FileInfo::from_os_file("/root", "/root/a/b.wav", b"abc", '/')?;
    assert_eq!("a/b.wav", info.location.as_str());
    assert_eq!(
        "ba7816bf8f01cfea414140de5dae2223b00361a396177a9cb410ff61f20015ad:3",
        info.signature.as_str()
    );
    let info = FileInfo::from_file("/root", "/root/c.wav", b"")?;
    assert_eq!("c.wav", info.location.as_str());
    assert!(matches!(
        FileInfo::from_os_file("/root", "/elsewhere/b.wav", b"abc", '/'),
        Err(Error::PathNotUnderRoot)
    ));
    Ok(())
}

#[test]
fn like_matches_wildcards() -> Result<()> {
    let cases = [
        ("", "", true),
        ("", "a", false),
        ("%", "", true),
        ("%", "anything", true),
        ("_", "", false),
        ("_", "a", true),
        ("_", "ab", false),
        ("a%", "abc", true),
        ("a%", "bac", false),
        ("%c", "abc", true),
        ("%b%", "abc", true),
        ("%b%", "acd", false),
        ("a_c", "abc", true),
        ("a_c", "ac", false),
        ("a%c%e", "abcde", true),
        ("a%c%e", "abde", false),
        ("%%", "x", true),
        ("abc", "ABC", true),
        ("ABC", "abc", true),
        ("%.WAV", "drums/kick.wav", true),
        ("ä", "Ä", false),
        ("100%", "100%", true),
        ("drums/%", "drums/kick.wav", true),
        ("drums/%", "bass/kick.wav", false),
    ];
    for (pattern, text, expected) in cases {
        assert_eq!(
            expected,
            Like::try_from(pattern)?.matches(text),
            "{} against {}",
            pattern,
            text
        );
    }
    Ok(())
}
