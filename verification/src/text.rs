//! Character sequences: the string operations that font names and decoded text need.

use vstd::prelude::*;
use vstd::string::*;
use vstd::utf8::*;

verus! {

/// U+FFFD, what a decoder writes for a code it cannot map.
pub const REPLACEMENT: char = '\u{FFFD}';

/// `String::push` appends one character.
pub assume_specification[ std::string::String::push ](s: &mut std::string::String, c: char)
    ensures
        final(s)@ == old(s)@.push(c),
;

/// The ASCII letters.
pub open spec fn is_ascii_letter(c: char) -> bool {
    'a' <= c <= 'z' || 'A' <= c <= 'Z'
}

/// The ASCII digits.
pub open spec fn is_ascii_digit(c: char) -> bool {
    '0' <= c <= '9'
}

/// Unicode's control characters: the C0 and C1 ranges and DEL.
pub open spec fn is_control_char(c: char) -> bool {
    c <= '\u{1F}' || '\u{7F}' <= c <= '\u{9F}'
}

/// Unicode's White_Space property.
pub open spec fn is_white_space(c: char) -> bool {
    ||| '\u{9}' <= c <= '\u{D}'
    ||| c == ' '
    ||| c == '\u{85}'
    ||| c == '\u{A0}'
    ||| c == '\u{1680}'
    ||| '\u{2000}' <= c <= '\u{200A}'
    ||| c == '\u{2028}'
    ||| c == '\u{2029}'
    ||| c == '\u{202F}'
    ||| c == '\u{205F}'
    ||| c == '\u{3000}'
}

/// The ASCII lower-case form of a character; other characters stay as they are.
pub open spec fn ascii_lower(c: char) -> char {
    if 'A' <= c <= 'Z' {
        (c as u32 + 32) as char
    } else {
        c
    }
}

/// A text with its ASCII letters in lower case.
pub open spec fn lower(s: Seq<char>) -> Seq<char> {
    s.map_values(|c: char| ascii_lower(c))
}

/// `part` stands somewhere in `s`, its characters next to one another.
pub open spec fn occurs_in(part: Seq<char>, s: Seq<char>) -> bool {
    exists|i: int|
        0 <= i <= s.len() - part.len() && #[trigger] s.subrange(i, i + part.len()) == part
}

/// What follows the first `mark`, or all of `s` where there is none.
pub open spec fn after_first(s: Seq<char>, mark: char) -> Seq<char> {
    match s.index_of_first(mark) {
        Some(i) => s.skip(i + 1),
        None => s,
    }
}

/// What follows the last `mark`, or all of `s` where there is none.
pub open spec fn after_last(s: Seq<char>, mark: char) -> Seq<char> {
    match s.index_of_last(mark) {
        Some(i) => s.skip(i + 1),
        None => s,
    }
}

/// How many white-space characters `s` starts with.
pub open spec fn leading_space(s: Seq<char>) -> nat
    decreases s.len(),
{
    if s.len() > 0 && is_white_space(s[0]) {
        1 + leading_space(s.skip(1))
    } else {
        0
    }
}

/// How many characters of `s` are left once its trailing white space is gone.
pub open spec fn without_trailing_space(s: Seq<char>) -> nat
    decreases s.len(),
{
    if s.len() > 0 && is_white_space(s.last()) {
        without_trailing_space(s.drop_last())
    } else {
        s.len()
    }
}

/// `s` without the white space at either end.
pub open spec fn trimmed(s: Seq<char>) -> Seq<char> {
    let front = s.skip(leading_space(s) as int);
    front.take(without_trailing_space(front) as int)
}

/// The text of a string that may be absent.
pub open spec fn opt_text(s: Option<String>) -> Option<Seq<char>> {
    match s {
        Some(s) => Some(s@),
        None => None,
    }
}

/// The text of a name that may be absent.
pub open spec fn opt_name(s: Option<&str>) -> Option<Seq<char>> {
    match s {
        Some(s) => Some(s@),
        None => None,
    }
}

/// Whether a character is an ASCII letter.
pub fn is_letter(c: char) -> (r: bool)
    ensures
        r == is_ascii_letter(c),
{
    ('a' <= c && c <= 'z') || ('A' <= c && c <= 'Z')
}

/// Whether a character is an ASCII digit.
pub fn is_digit(c: char) -> (r: bool)
    ensures
        r == is_ascii_digit(c),
{
    '0' <= c && c <= '9'
}

/// Whether a character is a control.
pub fn is_control(c: char) -> (r: bool)
    ensures
        r == is_control_char(c),
{
    c <= '\u{1F}' || ('\u{7F}' <= c && c <= '\u{9F}')
}

/// Whether a character is white space.
pub fn is_space(c: char) -> (r: bool)
    ensures
        r == is_white_space(c),
{
    ('\u{9}' <= c && c <= '\u{D}') || c == ' ' || c == '\u{85}' || c == '\u{A0}' || c == '\u{1680}'
        || ('\u{2000}' <= c && c <= '\u{200A}') || c == '\u{2028}' || c == '\u{2029}'
        || c == '\u{202F}' || c == '\u{205F}' || c == '\u{3000}'
}

/// The ASCII lower-case form of a character.
pub fn to_lower(c: char) -> (r: char)
    ensures
        r == ascii_lower(c),
{
    if 'A' <= c && c <= 'Z' {
        ((c as u8) + 32) as char
    } else {
        c
    }
}

/// The characters of a string.
pub fn chars_of(s: &str) -> (chars: Vec<char>)
    ensures
        chars@ == s@,
{
    let mut chars: Vec<char> = Vec::new();
    for c in it: s.chars()
        invariant
            it.seq() == s@,
            chars@ == s@.take(it.index()),
    {
        chars.push(c);
    }
    chars
}

/// The ASCII lower-case characters of a string.
pub fn lower_chars(s: &str) -> (chars: Vec<char>)
    ensures
        chars@ == lower(s@),
{
    let mut chars: Vec<char> = Vec::new();
    for c in it: s.chars()
        invariant
            it.seq() == s@,
            chars@ == lower(s@.take(it.index())),
    {
        assert(s@.take(it.index() + 1) == s@.take(it.index()).push(c));
        chars.push(to_lower(c));
    }
    assert(s@.take(s@.len() as int) == s@);
    chars
}

/// A string of one character.
pub fn string_of_char(c: char) -> (s: String)
    ensures
        s@ == seq![c],
{
    let mut s = String::new();
    s.push(c);
    s
}

/// Whether two strings hold the same characters.
pub fn same_text(a: &str, b: &str) -> (r: bool)
    ensures
        r == (a@ == b@),
{
    let x = a.as_bytes();
    let y = b.as_bytes();
    let r = same_bytes(x, y);
    proof {
        encode_utf8_decode_utf8(a@);
        encode_utf8_decode_utf8(b@);
    }
    r
}

/// Whether two byte strings are equal.
pub fn same_bytes(a: &[u8], b: &[u8]) -> (r: bool)
    ensures
        r == (a@ == b@),
{
    if a.len() != b.len() {
        return false;
    }
    for i in 0..a.len()
        invariant
            a@.len() == b@.len(),
            a@.take(i as int) == b@.take(i as int),
    {
        if a[i] != b[i] {
            return false;
        }
        assert(a@.take(i + 1) == a@.take(i as int).push(a@[i as int]));
        assert(b@.take(i + 1) == b@.take(i as int).push(b@[i as int]));
    }
    assert(a@.take(a@.len() as int) == a@);
    assert(b@.take(b@.len() as int) == b@);
    true
}

/// Whether two character sequences are equal.
pub fn same_chars(a: &[char], b: &[char]) -> (r: bool)
    ensures
        r == (a@ == b@),
{
    assert(a@.subrange(0, a@.len() as int) == a@);
    a.len() == b.len() && stands_at(a, 0, b)
}

/// Whether the characters of `part` stand in `chars` from position `at` on.
fn stands_at(chars: &[char], at: usize, part: &[char]) -> (r: bool)
    requires
        at + part@.len() <= chars@.len(),
    ensures
        r == (chars@.subrange(at as int, at + part@.len()) == part@),
{
    let len = chars.len();
    for i in 0..part.len()
        invariant
            at + part@.len() <= len == chars@.len(),
            forall|j: int| 0 <= j < i ==> chars@[at + j] == #[trigger] part@[j],
    {
        if chars[at + i] != part[i] {
            assert(chars@.subrange(at as int, at + part@.len())[i as int] != part@[i as int]);
            return false;
        }
    }
    assert(chars@.subrange(at as int, at + part@.len()) =~= part@);
    true
}

/// Whether `chars` starts with `prefix`.
pub fn has_prefix(chars: &[char], prefix: &str) -> (r: bool)
    ensures
        r == prefix@.is_prefix_of(chars@),
{
    let part = chars_of(prefix);
    part.len() <= chars.len() && stands_at(chars, 0, &part)
}

/// Whether `part` occurs in `chars`.
pub fn has_part(chars: &[char], part: &str) -> (r: bool)
    ensures
        r == occurs_in(part@, chars@),
{
    let wanted = chars_of(part);
    if wanted.len() > chars.len() {
        return false;
    }
    let last: usize = chars.len() - wanted.len();
    let mut i: usize = 0;
    loop
        invariant
            wanted@ == part@,
            last == chars@.len() - part@.len(),
            i <= last,
            forall|j: int| 0 <= j < i ==> #[trigger] chars@.subrange(j, j + part@.len()) != part@,
        decreases last - i,
    {
        if stands_at(chars, i, &wanted) {
            return true;
        }
        if i == last {
            return false;
        }
        i += 1;
    }
}

/// Whether a character occurs in a string.
pub fn has_char(s: &str, c: char) -> (r: bool)
    ensures
        r == s@.contains(c),
{
    for d in it: s.chars()
        invariant
            it.seq() == s@,
            forall|j: int| 0 <= j < it.index() ==> s@[j] != c,
    {
        if d == c {
            assert(s@[it.index()] == c);
            return true;
        }
    }
    false
}

/// The part of a string after its first `mark`; all of it where there is none.
pub fn strip_to_first(s: &str, mark: char) -> (r: &str)
    ensures
        r@ == after_first(s@, mark),
{
    let chars = chars_of(s);
    proof {
        s@.index_of_first_ensures(mark);
    }
    for i in 0..chars.len()
        invariant
            chars@ == s@,
            forall|j: int| 0 <= j < i ==> s@[j] != mark,
    {
        if chars[i] == mark {
            proof {
                s@.index_of_first_ensures(mark);
                assert(s@[i as int] == mark);
            }
            return s.substring_char(i + 1, chars.len());
        }
    }
    s
}

/// The part of a string after its last `mark`; all of it where there is none.
pub fn strip_to_last(s: &str, mark: char) -> (r: &str)
    ensures
        r@ == after_last(s@, mark),
{
    let chars = chars_of(s);
    let mut i = chars.len();
    while i > 0
        invariant
            chars@ == s@,
            i <= s@.len(),
            forall|j: int| i <= j < s@.len() ==> s@[j] != mark,
        decreases i,
    {
        if chars[i - 1] == mark {
            proof {
                s@.index_of_last_ensures(mark);
                assert(s@[i - 1] == mark);
            }
            return s.substring_char(i, chars.len());
        }
        i -= 1;
    }
    proof {
        s@.index_of_last_ensures(mark);
    }
    s
}

/// The string without the white space at either end.
pub fn trim(s: &str) -> (r: String)
    ensures
        r@ == trimmed(s@),
{
    let chars = chars_of(s);
    let len = chars.len();
    let mut start: usize = 0;
    assert(s@.skip(0) == s@);
    while start < len && is_space(chars[start])
        invariant
            chars@ == s@,
            len == s@.len(),
            start <= len,
            leading_space(s@) == start + leading_space(s@.skip(start as int)),
        decreases len - start,
    {
        assert(s@.skip(start as int).skip(1) == s@.skip(start + 1));
        start += 1;
    }
    let ghost front = s@.skip(start as int);
    let mut end = len;
    assert(front.take(front.len() as int) == front);
    while end > start && is_space(chars[end - 1])
        invariant
            chars@ == s@,
            len == s@.len(),
            start <= end <= len,
            front == s@.skip(start as int),
            without_trailing_space(front) == without_trailing_space(front.take(end - start)),
        decreases end,
    {
        assert(front.take(end - start).drop_last() == front.take(end - 1 - start));
        assert(front.take(end - start).last() == s@[end - 1]);
        end -= 1;
    }
    assert(end > start ==> front.take(end - start).last() == s@[end - 1]);
    assert(s@.subrange(start as int, end as int) == front.take(end - start));
    s.substring_char(start, end).to_owned()
}

}
