//! Wildcard patterns in the style of SQL's `LIKE`.

use vstd::prelude::*;
use vstd::std_specs::cmp::PartialEqSpecImpl;
use crate::error::Error;
use crate::text::chars_of;

verus! {

/// A pattern in which `%` stands for any run of characters and `_` for any
/// single character.
#[derive(Debug, Hash)]
pub struct Like(String);

impl View for Like {
    type V = Seq<char>;

    closed spec fn view(&self) -> Seq<char> {
        self.0@
    }
}

/// A letter of ASCII in lower case, any other character as it is.
pub open spec fn folded(c: char) -> char {
    if 'A' <= c <= 'Z' {
        ((c as u8) + 32) as u8 as char
    } else {
        c
    }
}

/// Whether `text` matches `pattern`: `%` takes any run of characters, `_`
/// any one character, and any other character takes itself, letters of
/// ASCII without regard to case.
pub open spec fn like_matches(pattern: Seq<char>, text: Seq<char>) -> bool
    decreases pattern.len(), text.len(),
{
    if pattern.len() == 0 {
        text.len() == 0
    } else if pattern[0] == '%' {
        like_matches(pattern.drop_first(), text) || (text.len() > 0 && like_matches(
            pattern,
            text.drop_first(),
        ))
    } else if text.len() == 0 {
        false
    } else if pattern[0] == '_' || folded(pattern[0]) == folded(text[0]) {
        like_matches(pattern.drop_first(), text.drop_first())
    } else {
        false
    }
}

/// A letter of ASCII in lower case, any other character as it is.
pub fn fold(c: char) -> (r: char)
    ensures
        r == folded(c),
{
    if 'A' <= c && c <= 'Z' {
        let n: u8 = c as u8 + 32;
        n as char
    } else {
        c
    }
}

impl PartialEq for Like {
    fn eq(&self, other: &Self) -> (r: bool) {
        self.0 == other.0
    }
}

impl Eq for Like {}

impl PartialEqSpecImpl for Like {
    open spec fn obeys_eq_spec() -> bool {
        true
    }

    open spec fn eq_spec(&self, other: &Self) -> bool {
        self@ == other@
    }
}

impl TryFrom<&str> for Like {
    type Error = Error;

    fn try_from(value: &str) -> (r: Result<Self, Error>)
        ensures
            r matches Ok(l) && l@ == value@,
    {
        Ok(Self::new(value))
    }
}

impl vstd::std_specs::convert::TryFromSpecImpl<&str> for Like {
    open spec fn obeys_try_from_spec() -> bool {
        false
    }

    open spec fn try_from_spec(v: &str) -> Result<Self, Error> {
        arbitrary()
    }
}

impl Like {
    pub fn as_str(&self) -> (s: &str)
        ensures
            s@ == self@,
    {
        self.0.as_str()
    }

    pub fn into_string(self) -> (s: String)
        ensures
            s@ == self@,
    {
        self.0
    }

    pub fn new(value: &str) -> (l: Self)
        ensures
            l@ == value@,
    {
        Self(String::from_str(value))
    }

    /// Whether `text` matches this pattern.
    pub fn matches(&self, text: &str) -> (r: bool)
        ensures
            r == like_matches(self@, text@),
    {
        let p = chars_of(self.0.as_str());
        let t = chars_of(text);
        let n: usize = t.len();
        // row[j] tells whether the text from j on matches the pattern from i on
        let mut row: Vec<bool> = Vec::new();
        let mut j: usize = 0;
        while j < n
            invariant
                j <= n,
                n == t.len(),
                row.len() == j,
                forall|k: int| 0 <= k < j ==> row[k] == like_matches(
                    p@.skip(p.len() as int),
                    t@.skip(k),
                ),
            decreases n - j,
        {
            row.push(false);
            j = j + 1;
        }
        row.push(true);
        let mut i: usize = p.len();
        while i > 0
            invariant
                i <= p.len(),
                n == t.len(),
                row.len() == n + 1,
                forall|k: int| 0 <= k <= n ==> row[k] == like_matches(p@.skip(i as int), t@.skip(k)),
            decreases i,
        {
            i = i - 1;
            let c: char = p[i];
            let mut next: Vec<bool> = row.clone();
            next.set(n, c == '%' && row[n]);
            proof {
                lemma_like_step(p@, t@, i as int, n as int);
            }
            let mut j: usize = n;
            while j > 0
                invariant
                    j <= n,
                    i < p.len(),
                    c == p[i as int],
                    n == t.len(),
                    row.len() == n + 1,
                    next.len() == n + 1,
                    forall|k: int|
                        0 <= k <= n ==> row[k] == like_matches(p@.skip(i + 1), t@.skip(k)),
                    forall|k: int|
                        j <= k <= n ==> next[k] == like_matches(p@.skip(i as int), t@.skip(k)),
                decreases j,
            {
                j = j - 1;
                let hit = if c == '%' {
                    row[j] || next[j + 1]
                } else if c == '_' || fold(c) == fold(t[j]) {
                    row[j + 1]
                } else {
                    false
                };
                proof {
                    lemma_like_step(p@, t@, i as int, j as int);
                }
                next.set(j, hit);
            }
            row = next;
        }
        proof {
            assert(p@.skip(0) == p@);
            assert(t@.skip(0) == t@);
        }
        row[0]
    }
}

/// One step of the matching, from position `i` of the pattern and position
/// `j` of the text.
proof fn lemma_like_step(p: Seq<char>, t: Seq<char>, i: int, j: int)
    requires
        0 <= i < p.len(),
        0 <= j <= t.len(),
    ensures
        like_matches(p.skip(i), t.skip(j)) == if p[i] == '%' {
            like_matches(p.skip(i + 1), t.skip(j)) || (j < t.len() && like_matches(
                p.skip(i),
                t.skip(j + 1),
            ))
        } else if j == t.len() {
            false
        } else if p[i] == '_' || folded(p[i]) == folded(t[j]) {
            like_matches(p.skip(i + 1), t.skip(j + 1))
        } else {
            false
        },
{
    assert(p.skip(i).drop_first() == p.skip(i + 1));
    assert(p.skip(i)[0] == p[i]);
    if j < t.len() {
        assert(t.skip(j).drop_first() == t.skip(j + 1));
        assert(t.skip(j)[0] == t[j]);
    }
}

/// Without a wildcard, a pattern matches the texts that differ from it
/// in the case of ASCII letters at most.
pub proof fn lemma_like_without_wildcard(pattern: Seq<char>, text: Seq<char>)
    requires
        forall|i: int| 0 <= i < pattern.len() ==> pattern[i] != '%' && pattern[i] != '_',
    ensures
        like_matches(pattern, text) == (pattern.len() == text.len() && forall|i: int|
            0 <= i < pattern.len() ==> folded(pattern[i]) == folded(text[i])),
    decreases pattern.len(),
{
    if pattern.len() > 0 && text.len() > 0 {
        lemma_like_without_wildcard(pattern.drop_first(), text.drop_first());
        if like_matches(pattern, text) {
            assert forall|i: int| 0 <= i < pattern.len() implies folded(pattern[i]) == folded(
                text[i],
            ) by {
                if i > 0 {
                    assert(pattern.drop_first()[i - 1] == pattern[i]);
                    assert(text.drop_first()[i - 1] == text[i]);
                }
            }
        } else if pattern.len() == text.len() && folded(pattern[0]) == folded(text[0]) {
            let k = choose|k: int|
                0 <= k < pattern.drop_first().len() && folded(pattern.drop_first()[k]) != folded(
                    text.drop_first()[k],
                );
            assert(pattern[k + 1] == pattern.drop_first()[k]);
            assert(text[k + 1] == text.drop_first()[k]);
        }
    }
}

} // verus!
