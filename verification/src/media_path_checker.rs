//! The path checker for media files: files with one of a list of
//! extensions, outside the directories that archive tools leave behind.

use vstd::prelude::*;
use regex::Regex;
use crate::error::{internal_error, Error, Result};
use crate::location::host_separator;
use crate::sample_visitor::PathChecker;
use crate::text::{join, joined, push_char, str_texts, string_texts};

verus! {

/// What regex makes of a pattern and a text: nothing where the pattern
/// does not compile, else whether it finds a match somewhere in `haystack`.
pub uninterp spec fn regex_outcome(pattern: Seq<char>, haystack: Seq<char>) -> Option<bool>;

/// `Regex::new` and then `Regex::is_match` of regex: nothing where the
/// pattern does not compile, else whether it finds a match in `haystack`.
#[verifier::external_body]
fn regex_is_match(pattern: &str, haystack: &str) -> (found: Option<bool>)
    ensures
        found == regex_outcome(pattern@, haystack@),
{
    match Regex::new(pattern) {
        Ok(re) => Some(re.is_match(haystack)),
        Err(_) => None,
    }
}

/// Whether the regular expression `pattern` compiles and finds a match
/// somewhere in `haystack`.
pub open spec fn regex_finds(pattern: Seq<char>, haystack: Seq<char>) -> bool {
    regex_outcome(pattern, haystack) == Some(true)
}

/// Whether the regular expression `pattern` compiles: whether regex makes
/// anything of it and the empty text.
pub open spec fn compiles(pattern: Seq<char>) -> bool {
    regex_outcome(pattern, Seq::empty()) is Some
}

/// Whether each of `patterns` compiles.
pub open spec fn all_compile(patterns: Seq<Seq<char>>) -> bool {
    forall|i: int| 0 <= i < patterns.len() ==> compiles(#[trigger] patterns[i])
}

/// What regex makes of each of `patterns` and `text`.
pub open spec fn outcomes(patterns: Seq<Seq<char>>, text: Seq<char>) -> Seq<Option<bool>> {
    patterns.map_values(|pattern: Seq<char>| regex_outcome(pattern, text))
}

/// Whether `c` has a meaning of its own in a regular expression.
pub open spec fn is_meta_character(c: char) -> bool {
    c == '\\' || c == '.' || c == '+' || c == '*' || c == '?' || c == '(' || c == ')' || c == '|'
        || c == '[' || c == ']' || c == '{' || c == '}' || c == '^' || c == '$' || c == '#' || c
        == '&' || c == '-' || c == '~'
}

/// `text` with a backslash before each character that has a meaning of its
/// own in a regular expression.
pub open spec fn escaped(text: Seq<char>) -> Seq<char>
    decreases text.len(),
{
    if text.len() == 0 {
        text
    } else if is_meta_character(text.last()) {
        escaped(text.drop_last()).push('\\').push(text.last())
    } else {
        escaped(text.drop_last()).push(text.last())
    }
}

/// `escape` of regex, which walks through the text and puts a backslash
/// before each of its meta characters.
#[verifier::external_body]
fn escape(text: &str) -> (out: String)
    ensures
        out@ == escaped(text@),
{
    regex::escape(text)
}

/// The extensions of the files that the catalog is for.
pub fn media_file_extensions() -> (extensions: Vec<&'static str>)
    ensures
        extensions@ == media_extensions(),
{
    vec!["aiff", "au", "mid", "m4a", "mp3", "snd", "wav", "wma"]
}

/// The extensions of the files that the catalog is for.
pub open spec fn media_extensions() -> Seq<&'static str> {
    seq!["aiff", "au", "mid", "m4a", "mp3", "snd", "wav", "wma"]
}

/// The names of the directories whose content is left out.
pub fn excluded_directories() -> (names: Vec<&'static str>)
    ensures
        names@ == excluded_names(),
{
    vec!["__MACOSX"]
}

/// The names of the directories whose content is left out.
pub open spec fn excluded_names() -> Seq<&'static str> {
    seq!["__MACOSX"]
}

/// Each text escaped.
pub open spec fn each_escaped(items: Seq<Seq<char>>) -> Seq<Seq<char>> {
    items.map_values(|s: Seq<char>| escaped(s))
}

/// The pattern of the paths that end in a dot and one of `extensions`,
/// whatever the case of their letters.
pub open spec fn include_pattern(extensions: Seq<Seq<char>>) -> Seq<char> {
    "(?i)^.+\\.("@ + joined(each_escaped(extensions), "|"@) + ")$"@
}

/// The pattern of the paths that have the directory `name` somewhere
/// between two separators.
pub open spec fn exclude_pattern(name: Seq<char>, separator: char) -> Seq<char> {
    "^.+"@ + escaped(seq![separator]) + escaped(name) + escaped(seq![separator]) + ".+$"@
}

/// The exclude pattern of each name.
pub open spec fn exclude_patterns(names: Seq<Seq<char>>, separator: char) -> Seq<Seq<char>> {
    names.map_values(|name: Seq<char>| exclude_pattern(name, separator))
}

/// Whether one of `patterns` finds a match in `text`.
pub open spec fn any_finds(patterns: Seq<Seq<char>>, text: Seq<char>) -> bool {
    exists|i: int| 0 <= i < patterns.len() && regex_finds(#[trigger] patterns[i], text)
}

/// What a run of searches comes to, where each entry tells what one pattern
/// found, or nothing where that pattern did not compile: the entries are
/// read in their order up to the first that found a match, which settles
/// it, or the first that did not compile, which fails.
pub open spec fn settled(found: Seq<Option<bool>>) -> Option<bool>
    decreases found.len(),
{
    if found.len() == 0 {
        Some(false)
    } else {
        match found[0] {
            None => None,
            Some(true) => Some(true),
            Some(false) => settled(found.drop_first()),
        }
    }
}

/// What a run of searches comes to: see [`settled`]. A pattern that did
/// not compile is an internal error.
pub fn settle(found: &Vec<Option<bool>>) -> (r: Result<bool>)
    ensures
        match r {
            Ok(b) => settled(found@) == Some(b),
            Err(e) => settled(found@) is None && e is Internal,
        },
{
    let mut i: usize = 0;
    assert(found@.skip(0) == found@);
    while i < found.len()
        invariant
            i <= found.len(),
            settled(found@) == settled(found@.skip(i as int)),
        decreases found.len() - i,
    {
        proof {
            assert(found@.skip(i as int).drop_first() == found@.skip(i + 1));
            assert(found@.skip(i as int)[0] == found[i as int]);
        }
        match found[i] {
            None => {
                return Err(internal_error("Regex", String::from_str("pattern does not compile")));
            },
            Some(true) => {
                return Ok(true);
            },
            Some(false) => {},
        }
        i = i + 1;
    }
    Ok(false)
}

/// The patterns that take the paths with one of `extensions`, unless one
/// of them does not compile.
pub fn create_include_regexes(extensions: &[&str]) -> (r: Result<Vec<String>>)
    ensures
        r matches Ok(patterns) ==> string_texts(patterns@) == seq![
            include_pattern(str_texts(extensions@)),
        ],
        r is Ok <==> compiles(include_pattern(str_texts(extensions@))),
        r matches Err(e) ==> e is Internal,
{
    proof {
        let wanted = seq![include_pattern(str_texts(extensions@))];
        assert(wanted[0] == include_pattern(str_texts(extensions@)));
    }
    checked(include_texts(extensions))
}

/// The patterns that take the paths inside one of the excluded
/// directories, where `separator` parts the segments of a path, unless one
/// of them does not compile.
pub fn create_exclude_regexes(separator: char) -> (r: Result<Vec<String>>)
    ensures
        r matches Ok(patterns) ==> string_texts(patterns@) == exclude_patterns(
            str_texts(excluded_names()),
            separator,
        ),
        r is Ok <==> all_compile(exclude_patterns(str_texts(excluded_names()), separator)),
        r matches Err(e) ==> e is Internal,
{
    checked(exclude_texts(separator))
}

/// The patterns that take the paths with one of `extensions`.
fn include_texts(extensions: &[&str]) -> (patterns: Vec<String>)
    ensures
        string_texts(patterns@) == seq![include_pattern(str_texts(extensions@))],
{
    let mut parts: Vec<String> = Vec::new();
    let ghost texts = str_texts(extensions@);
    let mut i: usize = 0;
    while i < extensions.len()
        invariant
            i <= extensions.len(),
            texts == str_texts(extensions@),
            string_texts(parts@) == each_escaped(texts).take(i as int),
        decreases extensions.len() - i,
    {
        parts.push(escape(extensions[i]));
        assert(string_texts(parts@) =~= each_escaped(texts).take(i as int).push(
            escaped(texts[i as int]),
        ));
        assert(each_escaped(texts).take(i + 1) =~= each_escaped(texts).take(i as int).push(
            escaped(texts[i as int]),
        ));
        i = i + 1;
    }
    assert(each_escaped(texts).take(i as int) == each_escaped(texts));
    let mut pattern = String::from_str("(?i)^.+\\.(");
    pattern.append(join(&parts, "|").as_str());
    pattern.append(")$");
    let patterns = vec![pattern];
    assert(string_texts(patterns@) =~= seq![include_pattern(texts)]);
    patterns
}

/// The patterns that take the paths inside one of the excluded
/// directories, where `separator` parts the segments of a path.
fn exclude_texts(separator: char) -> (patterns: Vec<String>)
    ensures
        string_texts(patterns@) == exclude_patterns(str_texts(excluded_names()), separator),
{
    let names = excluded_directories();
    let mut between = String::new();
    push_char(&mut between, separator);
    let escaped_separator = escape(between.as_str());
    assert(between@ =~= seq![separator]);
    let ghost texts = str_texts(names@);
    let ghost wanted = exclude_patterns(texts, separator);
    let mut patterns: Vec<String> = Vec::new();
    let mut i: usize = 0;
    while i < names.len()
        invariant
            i <= names.len(),
            texts == str_texts(names@),
            wanted == exclude_patterns(texts, separator),
            escaped_separator@ == escaped(seq![separator]),
            string_texts(patterns@) == wanted.take(i as int),
        decreases names.len() - i,
    {
        let mut pattern = String::from_str("^.+");
        pattern.append(escaped_separator.as_str());
        pattern.append(escape(names[i]).as_str());
        pattern.append(escaped_separator.as_str());
        pattern.append(".+$");
        assert(pattern@ == exclude_pattern(texts[i as int], separator));
        patterns.push(pattern);
        assert(string_texts(patterns@) =~= wanted.take(i as int).push(wanted[i as int]));
        assert(wanted.take(i + 1) =~= wanted.take(i as int).push(wanted[i as int]));
        i = i + 1;
    }
    assert(wanted.take(i as int) == wanted);
    patterns
}

/// The patterns as they are, unless one of them does not compile. Each
/// pattern is tried on the empty text, in their order up to the first that
/// does not compile, and [`accepted`] says what that comes to.
fn checked(patterns: Vec<String>) -> (r: Result<Vec<String>>)
    ensures
        r matches Ok(same) ==> same == patterns,
        r is Ok <==> all_compile(string_texts(patterns@)),
        r matches Err(e) ==> e is Internal,
{
    let ghost texts = string_texts(patterns@);
    let mut found: Vec<Option<bool>> = Vec::new();
    let mut i: usize = 0;
    let mut sound: bool = true;
    proof {
        reveal_strlit("");
        assert(""@ =~= Seq::<char>::empty());
    }
    while i < patterns.len() && sound
        invariant
            i <= patterns.len(),
            texts == string_texts(patterns@),
            ""@ == Seq::<char>::empty(),
            found.len() == i,
            forall|k: int| 0 <= k < i ==> (#[trigger] found[k]) is Some == compiles(texts[k]),
            sound ==> forall|k: int| 0 <= k < i ==> (#[trigger] found[k]) is Some,
            !sound ==> i > 0 && found[i - 1] is None,
        decreases patterns.len() - i,
    {
        let one = regex_is_match(patterns[i].as_str(), "");
        sound = one.is_some();
        found.push(one);
        i = i + 1;
    }
    proof {
        if sound {
            assert forall|k: int| 0 <= k < texts.len() implies compiles(#[trigger] texts[k]) by {
                assert(found[k] is Some);
            }
        } else {
            assert(!compiles(texts[i - 1]));
        }
    }
    accepted(patterns, &found)
}

/// Whether one of the patterns finds a match in `s`. The patterns are
/// tried in their order, up to the first that finds a match or does not
/// compile, and [`settle`] says what that comes to.
pub fn matches_any_of(regexes: &Vec<String>, s: &str) -> (r: Result<bool>)
    ensures
        answer(r) == settled(outcomes(string_texts(regexes@), s@)),
        r matches Ok(b) ==> b == any_finds(string_texts(regexes@), s@),
        r matches Err(e) ==> e is Internal,
{
    let ghost patterns = string_texts(regexes@);
    let ghost all = outcomes(patterns, s@);
    let mut found: Vec<Option<bool>> = Vec::new();
    let mut i: usize = 0;
    let mut open: bool = true;
    while i < regexes.len() && open
        invariant
            i <= regexes.len(),
            patterns == string_texts(regexes@),
            all == outcomes(patterns, s@),
            found.len() == i,
            forall|k: int| 0 <= k < i ==> #[trigger] found[k] == all[k],
            open ==> forall|k: int| 0 <= k < i ==> found[k] == Some(false),
            !open ==> i > 0 && found[i - 1] != Some(false) && forall|k: int|
                0 <= k < i - 1 ==> found[k] == Some(false),
        decreases regexes.len() - i,
    {
        let one = regex_is_match(regexes[i].as_str(), s);
        open = match one {
            Some(false) => true,
            _ => false,
        };
        found.push(one);
        i = i + 1;
    }
    proof {
        lemma_settled(found@);
        lemma_settled(all);
        if open {
            assert(found@ =~= all);
        } else {
            assert(all[i - 1] == found[i - 1]);
            assert forall|k: int| 0 <= k < i - 1 implies all[k] == Some(false) by {
                assert(found[k] == all[k]);
            }
            assert(settled(all) == all[i - 1]);
            assert(settled(found@) == found[i - 1]);
        }
        lemma_settled_finds(patterns, s@);
    }
    settle(&found)
}

/// A run of searches through all the patterns settles on a match exactly
/// where one of the patterns finds one, as far as it settles.
pub proof fn lemma_settled_finds(patterns: Seq<Seq<char>>, text: Seq<char>)
    ensures
        settled(outcomes(patterns, text)) matches Some(b) ==> b == any_finds(patterns, text),
{
    let all = outcomes(patterns, text);
    lemma_settled(all);
    if settled(all) is Some {
        if forall|k: int| 0 <= k < all.len() ==> all[k] == Some(false) {
            assert forall|k: int| 0 <= k < patterns.len() implies !regex_finds(
                #[trigger] patterns[k],
                text,
            ) by {
                assert(all[k] == Some(false));
            }
        } else {
            let n = lemma_first_other(all);
            assert(settled(all) == all[n]);
            assert(all[n] == regex_outcome(patterns[n], text));
            assert(all[n] == Some(true));
            assert(regex_finds(patterns[n], text));
        }
    }
}

/// The first entry of a run that is not `Some(false)`, where there is one.
proof fn lemma_first_other(found: Seq<Option<bool>>) -> (n: int)
    requires
        !(forall|k: int| 0 <= k < found.len() ==> found[k] == Some(false)),
    ensures
        0 <= n < found.len(),
        found[n] != Some(false),
        forall|k: int| 0 <= k < n ==> found[k] == Some(false),
    decreases found.len(),
{
    if found[0] != Some(false) {
        0
    } else {
        let rest = found.drop_first();
        assert(!(forall|k: int| 0 <= k < rest.len() ==> rest[k] == Some(false))) by {
            if forall|k: int| 0 <= k < rest.len() ==> rest[k] == Some(false) {
                assert forall|k: int| 0 <= k < found.len() implies found[k] == Some(false) by {
                    if k > 0 {
                        assert(rest[k - 1] == found[k]);
                    }
                }
            }
        }
        let m = lemma_first_other(rest);
        assert forall|k: int| 0 <= k < m + 1 implies found[k] == Some(false) by {
            if k > 0 {
                assert(rest[k - 1] == found[k]);
            }
        }
        assert(rest[m] == found[m + 1]);
        m + 1
    }
}

/// A run of searches settles on the first entry that is not `Some(false)`.
proof fn lemma_settled(found: Seq<Option<bool>>)
    ensures
        (forall|k: int| 0 <= k < found.len() ==> found[k] == Some(false)) ==> settled(found)
            == Some(false),
        forall|n: int|
            0 <= n < found.len() && found[n] != Some(false) && (forall|k: int|
                0 <= k < n ==> found[k] == Some(false)) ==> settled(found) == #[trigger] found[n],
    decreases found.len(),
{
    if found.len() > 0 {
        lemma_settled(found.drop_first());
        if found[0] == Some(false) {
            assert forall|n: int|
                0 <= n < found.len() && found[n] != Some(false) && (forall|k: int|
                    0 <= k < n ==> found[k] == Some(false)) implies settled(found)
                == #[trigger] found[n] by {
                assert(found.drop_first()[n - 1] == found[n]);
                assert forall|k: int| 0 <= k < n - 1 implies found.drop_first()[k] == Some(
                    false,
                ) by {
                    assert(found.drop_first()[k] == found[k + 1]);
                }
            }
            if forall|k: int| 0 <= k < found.len() ==> found[k] == Some(false) {
                assert forall|k: int| 0 <= k < found.drop_first().len() implies found.drop_first()[k]
                    == Some(false) by {
                    assert(found.drop_first()[k] == found[k + 1]);
                }
            }
        }
    }
}

/// Takes the paths of media files that lie in no excluded directory.
pub struct MediaPathChecker {
    included: Vec<String>,
    excluded: Vec<String>,
}

impl MediaPathChecker {
    /// The patterns of which a path must match one.
    pub closed spec fn included(&self) -> Seq<Seq<char>> {
        string_texts(self.included@)
    }

    /// The patterns of which a path may match none.
    pub closed spec fn excluded(&self) -> Seq<Seq<char>> {
        string_texts(self.excluded@)
    }

    /// The checker for the path syntax of this host.
    pub fn new() -> (checker: Self)
        ensures
            checker.included() == seq![include_pattern(str_texts(media_extensions()))],
            checker.excluded() == exclude_patterns(str_texts(excluded_names()), '/')
                || checker.excluded() == exclude_patterns(str_texts(excluded_names()), '\\'),
    {
        Self::for_separator(host_separator())
    }

    /// The checker for paths whose segments `separator` parts.
    pub fn for_separator(separator: char) -> (checker: Self)
        ensures
            checker.included() == seq![include_pattern(str_texts(media_extensions()))],
            checker.excluded() == exclude_patterns(str_texts(excluded_names()), separator),
    {
        let extensions = media_file_extensions();
        let included = include_texts(extensions.as_slice());
        let excluded = exclude_texts(separator);
        Self { included, excluded }
    }
}

impl MediaPathChecker {
    /// What this checker makes of `path`: whether it takes it, or nothing
    /// where a pattern that it has to try does not compile. The included
    /// patterns are searched first, and the excluded ones only where one
    /// of the included finds the path.
    pub open spec fn outcome(&self, path: Seq<char>) -> Option<bool> {
        weighed(settled(outcomes(self.included(), path)), settled(outcomes(self.excluded(), path)))
    }
}

impl PathChecker for MediaPathChecker {
    open spec fn accepts(&self, path: Seq<char>) -> bool {
        any_finds(self.included(), path) && !any_finds(self.excluded(), path)
    }

    open spec fn decides(&self, path: Seq<char>) -> bool {
        self.outcome(path) is Some
    }

    open spec fn fails_with(&self, path: Seq<char>, error: Error) -> bool {
        self.outcome(path) is None && error is Internal
    }

    fn matches(&self, path: &str) -> (r: Result<bool>)
        ensures
            answer(r) == self.outcome(path@),
    {
        proof {
            lemma_settled_finds(self.included(), path@);
            lemma_settled_finds(self.excluded(), path@);
        }
        match matches_any_of(&self.included, path) {
            Err(e) => Err(e),
            Ok(false) => Ok(false),
            Ok(true) => match matches_any_of(&self.excluded, path) {
                Err(e) => Err(e),
                Ok(out) => Ok(!out),
            },
        }
    }
}

/// Whether each of `count` patterns was tried and compiled.
pub open spec fn all_compiled(found: Seq<Option<bool>>, count: int) -> bool {
    &&& found.len() == count
    &&& forall|k: int| 0 <= k < found.len() ==> (#[trigger] found[k]) is Some
}

/// What the two searches of a checker come to, where `taken` is the end
/// of the search through the included patterns and `left_out` that of the
/// search through the excluded ones: a path is taken where an included
/// pattern finds it and no excluded one does, and a search that failed
/// fails the whole. The second search counts only where the first found
/// the path.
pub open spec fn weighed(taken: Option<bool>, left_out: Option<bool>) -> Option<bool> {
    match taken {
        None => None,
        Some(false) => Some(false),
        Some(true) => match left_out {
            None => None,
            Some(out) => Some(!out),
        },
    }
}

/// What a result tells: whether something was found, or nothing where it
/// is an error.
pub open spec fn answer(r: Result<bool>) -> Option<bool> {
    match r {
        Ok(b) => Some(b),
        Err(_) => None,
    }
}

/// The patterns as they are, where `found` tells of each of them that it
/// compiled. A pattern that was not tried, or did not compile, is an
/// internal error.
pub fn accepted(patterns: Vec<String>, found: &Vec<Option<bool>>) -> (r: Result<Vec<String>>)
    ensures
        match r {
            Ok(same) => same == patterns && all_compiled(found@, patterns.len() as int),
            Err(e) => e is Internal && !all_compiled(found@, patterns.len() as int),
        },
{
    if found.len() != patterns.len() {
        return Err(internal_error("Regex", String::from_str("pattern was not tried")));
    }
    let mut i: usize = 0;
    while i < found.len()
        invariant
            i <= found.len(),
            forall|k: int| 0 <= k < i ==> (#[trigger] found[k]) is Some,
        decreases found.len() - i,
    {
        if found[i].is_none() {
            return Err(internal_error("Regex", String::from_str("pattern does not compile")));
        }
        i = i + 1;
    }
    Ok(patterns)
}

} // verus!
