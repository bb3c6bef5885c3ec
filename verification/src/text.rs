//! Building, comparing and ordering text.

use vstd::prelude::*;
use itertools::Itertools;

verus! {

/// Appends one character to a string (`String::push` of std, which adds
/// the character at the end and leaves the rest as it was).
#[verifier::external_body]
pub(crate) fn push_char(s: &mut String, c: char)
    ensures
        final(s)@ == old(s)@.push(c),
{
    s.push(c)
}

/// Whether two strings hold the same characters.
pub fn same_text(a: &str, b: &str) -> (r: bool)
    ensures
        r == (a@ == b@),
{
    let left = chars_of(a);
    let right = chars_of(b);
    if left.len() != right.len() {
        return false;
    }
    let mut i: usize = 0;
    while i < left.len()
        invariant
            i <= left.len(),
            left.len() == right.len(),
            left@ == a@,
            right@ == b@,
            forall|k: int| 0 <= k < i ==> left[k] == right[k],
        decreases left.len() - i,
    {
        if left[i] != right[i] {
            return false;
        }
        i = i + 1;
    }
    assert(left@ =~= right@);
    true
}

/// The characters of `s`, one by one.
pub fn chars_of(s: &str) -> (out: Vec<char>)
    ensures
        out@ == s@,
{
    let mut out: Vec<char> = Vec::new();
    for c in iter: s.chars()
        invariant
            iter.seq() == s@,
            out@ == s@.take(iter.index() as int),
    {
        out.push(c);
        assert(out@ =~= s@.take(iter.index() + 1));
    }
    assert(s@.take(s@.len() as int) == s@);
    out
}

/// The texts of a list of borrowed strings.
pub open spec fn str_texts(items: Seq<&str>) -> Seq<Seq<char>> {
    items.map_values(|s: &str| s@)
}

/// Whether `a` comes before `b`, or is `b`, in the order of strings:
/// character by character by their code points, a text before those that
/// it begins.
pub open spec fn text_le(a: Seq<char>, b: Seq<char>) -> bool
    decreases a.len(),
{
    if a.len() == 0 {
        true
    } else if b.len() == 0 {
        false
    } else if a[0] != b[0] {
        (a[0] as u32) < (b[0] as u32)
    } else {
        text_le(a.drop_first(), b.drop_first())
    }
}

/// Whether each text comes before the texts after it, or is one of them.
pub open spec fn is_sorted(items: Seq<Seq<char>>) -> bool {
    forall|i: int, j: int| 0 <= i < j < items.len() ==> text_le(items[i], items[j])
}

/// `sorted_by_key` of itertools, with each string as its own key: it
/// collects the items, sorts them by the order of strings and hands all of
/// them out again.
#[verifier::external_body]
pub(crate) fn sorted_by_text<'a>(items: Vec<&'a str>) -> (out: Vec<&'a str>)
    ensures
        str_texts(out@).to_multiset() == str_texts(items@).to_multiset(),
        is_sorted(str_texts(out@)),
{
    items.into_iter().sorted_by_key(|s| *s).collect()
}

/// The strings of `items`, each as a string of its own.
pub fn owned(items: &Vec<&str>) -> (out: Vec<String>)
    ensures
        string_texts(out@) == str_texts(items@),
{
    let mut out: Vec<String> = Vec::new();
    let mut i: usize = 0;
    while i < items.len()
        invariant
            i <= items.len(),
            out.len() == i,
            forall|k: int| 0 <= k < i ==> (#[trigger] out[k])@ == items[k]@,
        decreases items.len() - i,
    {
        out.push(String::from_str(items[i]));
        i = i + 1;
    }
    assert(string_texts(out@) =~= str_texts(items@));
    out
}

/// The texts of a list of owned strings.
pub open spec fn string_texts(items: Seq<String>) -> Seq<Seq<char>> {
    items.map_values(|s: String| s@)
}

/// The parts one after the other, with `between` between each two.
pub open spec fn joined(parts: Seq<Seq<char>>, between: Seq<char>) -> Seq<char>
    decreases parts.len(),
{
    if parts.len() == 0 {
        Seq::empty()
    } else if parts.len() == 1 {
        parts[0]
    } else {
        joined(parts.drop_last(), between) + between + parts.last()
    }
}

/// The strings of `parts` one after the other, with `between` between
/// each two.
pub fn join(parts: &Vec<String>, between: &str) -> (out: String)
    ensures
        out@ == joined(string_texts(parts@), between@),
{
    let mut out = String::new();
    let ghost texts = string_texts(parts@);
    let mut i: usize = 0;
    while i < parts.len()
        invariant
            i <= parts.len(),
            texts == string_texts(parts@),
            out@ == joined(texts.take(i as int), between@),
        decreases parts.len() - i,
    {
        proof {
            assert(texts.take(i + 1).drop_last() == texts.take(i as int));
            assert(texts.take(i + 1).last() == parts[i as int]@);
        }
        if i > 0 {
            out.append(between);
        }
        out.append(parts[i].as_str());
        proof {
            if i == 0 {
                assert(out@ =~= parts[0]@);
            }
        }
        i = i + 1;
    }
    assert(texts.take(i as int) == texts);
    out
}

/// The sixteen hexadecimal digits, lower case.
pub open spec fn hex_digits() -> Seq<char> {
    seq!['0', '1', '2', '3', '4', '5', '6', '7', '8', '9', 'a', 'b', 'c', 'd', 'e', 'f']
}

/// The digit that stands for `n`, for `n` below sixteen.
pub open spec fn hex_digit(n: int) -> char {
    hex_digits()[n]
}

/// Two lower-case hexadecimal digits for each byte, the high half first.
pub open spec fn hex(bytes: Seq<u8>) -> Seq<char> {
    Seq::new(
        (2 * bytes.len()) as nat,
        |i: int|
            if i % 2 == 0 {
                hex_digit(bytes[i / 2] as int / 16)
            } else {
                hex_digit(bytes[i / 2] as int % 16)
            },
    )
}

/// The decimal numeral of `n`, without leading zeros.
pub open spec fn decimal(n: nat) -> Seq<char>
    decreases n,
{
    if n < 10 {
        seq![hex_digit(n as int)]
    } else {
        decimal(n / 10).push(hex_digit((n % 10) as int))
    }
}

/// Whether `c` is one of the sixteen hexadecimal digits.
pub open spec fn is_hex_digit(c: char) -> bool {
    exists|n: int| 0 <= n < 16 && hex_digit(n) == c
}

/// The digit that stands for `n`.
pub fn hex_digit_of(n: u8) -> (c: char)
    requires
        n < 16,
    ensures
        c == hex_digit(n as int),
{
    if n == 0 {
        '0'
    } else if n == 1 {
        '1'
    } else if n == 2 {
        '2'
    } else if n == 3 {
        '3'
    } else if n == 4 {
        '4'
    } else if n == 5 {
        '5'
    } else if n == 6 {
        '6'
    } else if n == 7 {
        '7'
    } else if n == 8 {
        '8'
    } else if n == 9 {
        '9'
    } else if n == 10 {
        'a'
    } else if n == 11 {
        'b'
    } else if n == 12 {
        'c'
    } else if n == 13 {
        'd'
    } else if n == 14 {
        'e'
    } else {
        'f'
    }
}

/// Appends the hexadecimal form of `bytes` to `out`.
pub fn push_hex(out: &mut String, bytes: &[u8])
    ensures
        final(out)@ == old(out)@ + hex(bytes@),
{
    let mut i: usize = 0;
    while i < bytes.len()
        invariant
            i <= bytes.len(),
            out@ == old(out)@ + hex(bytes@.take(i as int)),
        decreases bytes.len() - i,
    {
        let b: u8 = bytes[i];
        push_char(out, hex_digit_of(b / 16));
        push_char(out, hex_digit_of(b % 16));
        proof {
            let before = hex(bytes@.take(i as int));
            let after = hex(bytes@.take(i + 1));
            assert(after =~= before.push(hex_digit(b as int / 16)).push(hex_digit(b as int % 16)));
        }
        i = i + 1;
    }
    proof {
        assert(bytes@.take(bytes.len() as int) == bytes@);
    }
}

/// Appends the decimal numeral of `n` to `out`.
pub fn push_decimal(out: &mut String, n: u64)
    ensures
        final(out)@ == old(out)@ + decimal(n as nat),
    decreases n,
{
    if n < 10 {
        push_char(out, hex_digit_of(n as u8));
    } else {
        push_decimal(out, n / 10);
        push_char(out, hex_digit_of((n % 10) as u8));
    }
}

/// Distinct numbers below sixteen have distinct digits.
pub proof fn lemma_hex_digit_injective(a: int, b: int)
    requires
        0 <= a < 16,
        0 <= b < 16,
        hex_digit(a) == hex_digit(b),
    ensures
        a == b,
{
}

/// Distinct byte strings have distinct hexadecimal forms.
pub proof fn lemma_hex_injective(a: Seq<u8>, b: Seq<u8>)
    requires
        hex(a) == hex(b),
    ensures
        a == b,
{
    assert(hex(a).len() == 2 * a.len());
    assert(hex(b).len() == 2 * b.len());
    assert forall|i: int| 0 <= i < a.len() implies a[i] == b[i] by {
        assert(hex(a)[2 * i] == hex_digit(a[i] as int / 16));
        assert(hex(b)[2 * i] == hex_digit(b[i] as int / 16));
        assert(hex(a)[2 * i + 1] == hex_digit(a[i] as int % 16));
        assert(hex(b)[2 * i + 1] == hex_digit(b[i] as int % 16));
        lemma_hex_digit_injective(a[i] as int / 16, b[i] as int / 16);
        lemma_hex_digit_injective(a[i] as int % 16, b[i] as int % 16);
    }
    assert(a =~= b);
}

/// Distinct numbers have distinct decimal numerals.
pub proof fn lemma_decimal_injective(a: nat, b: nat)
    requires
        decimal(a) == decimal(b),
    ensures
        a == b,
    decreases a,
{
    if a < 10 {
        assert(decimal(a).len() == 1);
        if b >= 10 {
            lemma_decimal_nonempty(b / 10);
            assert(decimal(b).len() == decimal(b / 10).len() + 1);
            assert(false);
        }
        assert(decimal(a)[0] == hex_digit(a as int));
        assert(decimal(b)[0] == hex_digit(b as int));
        lemma_hex_digit_injective(a as int, b as int);
    } else {
        if b < 10 {
            assert(decimal(b).len() == 1);
            lemma_decimal_nonempty(a / 10);
            assert(decimal(a).len() == decimal(a / 10).len() + 1);
            assert(false);
        } else {
            let da = decimal(a / 10);
            let db = decimal(b / 10);
            assert(decimal(a) == da.push(hex_digit((a % 10) as int)));
            assert(decimal(b) == db.push(hex_digit((b % 10) as int)));
            assert(decimal(a).last() == hex_digit((a % 10) as int));
            assert(decimal(b).last() == hex_digit((b % 10) as int));
            lemma_hex_digit_injective((a % 10) as int, (b % 10) as int);
            assert(decimal(a).drop_last() =~= da);
            assert(decimal(b).drop_last() =~= db);
            lemma_decimal_injective(a / 10, b / 10);
        }
    }
}

/// A decimal numeral has at least one digit.
pub proof fn lemma_decimal_nonempty(n: nat)
    ensures
        decimal(n).len() >= 1,
    decreases n,
{
    if n >= 10 {
        lemma_decimal_nonempty(n / 10);
    }
}

} // verus!
