//! SQL string values and the string functions of SQL expressions.
//!
//! Positions and counts are in characters (Unicode scalar values); SQL
//! positions start at 1.
#![allow(non_snake_case)]

use like::{Escape, Like};
use regex::Regex;
use vstd::prelude::*;

verus! {

/// An immutable SQL text value.
#[derive(Clone, Debug, Default, PartialEq, Eq, Hash, PartialOrd, Ord)]
pub struct SqlString {
    s: String,
}

impl View for SqlString {
    type V = Seq<char>;

    closed spec fn view(&self) -> Seq<char> {
        self.s@
    }
}

/// Relies on `str::chars`: the characters of the text, in order.
#[verifier::external_body]
pub(crate) fn chars_of(s: &str) -> (r: Vec<char>)
    ensures
        r@ == s@,
{
    s.chars().collect()
}

/// Relies on `FromIterator<char>` for `String`: the text of these characters.
#[verifier::external_body]
pub(crate) fn string_of(v: &Vec<char>) -> (r: String)
    ensures
        r@ == v@,
{
    v.iter().collect()
}

impl SqlString {
    /// The empty string.
    pub fn new() -> (r: SqlString)
        ensures
            r@ == Seq::<char>::empty(),
    {
        SqlString { s: String::new() }
    }

    /// A SQL string holding the text of `value`.
    pub fn from_ref(value: &str) -> (r: SqlString)
        ensures
            r@ == value@,
    {
        SqlString { s: value.to_owned() }
    }

    /// The text, as an owned `String`.
    pub fn str(&self) -> (r: String)
        ensures
            r@ == self@,
    {
        self.s.clone()
    }

    /// A SQL string that takes ownership of `s`.
    pub fn from_string(s: String) -> (r: SqlString)
        ensures
            r@ == s@,
    {
        SqlString { s }
    }

    /// A SQL string of these characters.
    pub fn from_chars(v: &Vec<char>) -> (r: SqlString)
        ensures
            r@ == v@,
    {
        SqlString { s: string_of(v) }
    }

    /// The characters, in order.
    pub fn chars(&self) -> (r: Vec<char>)
        ensures
            r@ == self@,
    {
        chars_of(self.s.as_str())
    }

    /// Number of characters.
    pub fn char_count(&self) -> (r: usize)
        ensures
            r == self@.len(),
    {
        self.chars().len()
    }
}

impl From<String> for SqlString {
    fn from(value: String) -> (r: SqlString) {
        SqlString { s: value }
    }
}

impl vstd::std_specs::convert::FromSpecImpl<String> for SqlString {
    open spec fn obeys_from_spec() -> bool {
        true
    }

    closed spec fn from_spec(v: String) -> SqlString {
        SqlString { s: v }
    }
}

/// The characters from the zero-based offset `start` to `end`, both clamped
/// to the sequence.
pub open spec fn clamped_range(s: Seq<char>, start: int, end: int) -> Seq<char> {
    let a = if start < 0 {
        0
    } else if start > s.len() {
        s.len() as int
    } else {
        start
    };
    let b = if end < a {
        a
    } else if end > s.len() {
        s.len() as int
    } else {
        end
    };
    s.subrange(a, b)
}

/// Zero-based offset of a one-based SQL start position; positions below 1
/// mean the first character.
pub open spec fn start_offset(left: int) -> int {
    if left < 1 {
        0
    } else {
        left - 1
    }
}

/// SQL `SUBSTRING(s FROM left FOR count)`.
pub open spec fn substring_of(s: Seq<char>, left: int, count: int) -> Seq<char> {
    if count < 0 {
        Seq::empty()
    } else {
        clamped_range(s, start_offset(left), start_offset(left) + count)
    }
}

/// SQL `SUBSTRING(s FROM left)`.
pub open spec fn substring_from(s: Seq<char>, left: int) -> Seq<char> {
    clamped_range(s, start_offset(left), s.len() as int)
}

/// The characters of `s` from `a` to `b`, which must lie within it.
fn slice_chars(s: &Vec<char>, a: usize, b: usize) -> (r: Vec<char>)
    requires
        a <= b <= s@.len(),
    ensures
        r@ == s@.subrange(a as int, b as int),
{
    let mut out: Vec<char> = Vec::new();
    let mut i: usize = a;
    while i < b
        invariant
            a <= i <= b <= s@.len(),
            out@ == s@.subrange(a as int, i as int),
        decreases b - i,
    {
        out.push(s[i]);
        i = i + 1;
        assert(out@ =~= s@.subrange(a as int, i as int));
    }
    out
}

/// The characters of `s` from the offset `start` to `end`, both clamped.
fn clamped_chars(s: &Vec<char>, start: i64, end: i64) -> (r: Vec<char>)
    ensures
        r@ == clamped_range(s@, start as int, end as int),
{
    let n = s.len();
    let a: usize = if start < 0 {
        0
    } else if start as u64 > n as u64 {
        n
    } else {
        start as usize
    };
    let b: usize = if end < a as i64 {
        a
    } else if end as u64 > n as u64 {
        n
    } else {
        end as usize
    };
    slice_chars(s, a, b)
}

/// The characters of `s` from the offset `start`, clamped, to the end.
fn suffix_chars(s: &Vec<char>, start: i64) -> (r: Vec<char>)
    ensures
        r@ == clamped_range(s@, start as int, s@.len() as int),
{
    let n = s.len();
    let a: usize = if start < 0 {
        0
    } else if start as u64 > n as u64 {
        n
    } else {
        start as usize
    };
    slice_chars(s, a, n)
}

/// The concatenation of two strings.
pub fn concat_s_s(left: SqlString, right: SqlString) -> (r: SqlString)
    ensures
        r@ == left@ + right@,
{
    let mut a = left.chars();
    let mut b = right.chars();
    a.append(&mut b);
    SqlString::from_chars(&a)
}

/// SQL `SUBSTRING(value FROM left FOR count)`: one-based start, starts below
/// 1 mean the first character, a negative count gives the empty string.
pub fn substring3___(value: SqlString, left: i32, count: i32) -> (r: SqlString)
    ensures
        r@ == substring_of(value@, left as int, count as int),
{
    if count < 0 {
        SqlString::new()
    } else {
        let start: i64 = if left < 1 {
            0
        } else {
            left as i64 - 1
        };
        let cs = value.chars();
        SqlString::from_chars(&clamped_chars(&cs, start, start + count as i64))
    }
}

/// SQL `SUBSTRING(value FROM left)`.
pub fn substring2__(value: SqlString, left: i32) -> (r: SqlString)
    ensures
        r@ == substring_from(value@, left as int),
{
    let start: i64 = if left < 1 {
        0
    } else {
        left as i64 - 1
    };
    let cs = value.chars();
    SqlString::from_chars(&suffix_chars(&cs, start))
}

/// The text without the leading characters equal to `c`.
pub open spec fn trim_start_of(s: Seq<char>, c: char) -> Seq<char>
    decreases s.len(),
{
    if s.len() > 0 && s[0] == c {
        trim_start_of(s.subrange(1, s.len() as int), c)
    } else {
        s
    }
}

/// The text without the trailing characters equal to `c`.
pub open spec fn trim_end_of(s: Seq<char>, c: char) -> Seq<char>
    decreases s.len(),
{
    if s.len() > 0 && s.last() == c {
        trim_end_of(s.drop_last(), c)
    } else {
        s
    }
}

/// Number of leading characters of `s` equal to `c`.
fn leading_count(s: &Vec<char>, c: char) -> (r: usize)
    ensures
        r <= s@.len(),
        trim_start_of(s@, c) == s@.subrange(r as int, s@.len() as int),
{
    let mut i: usize = 0;
    assert(s@.subrange(0, s@.len() as int) =~= s@);
    while i < s.len() && s[i] == c
        invariant
            i <= s@.len(),
            trim_start_of(s@, c) == trim_start_of(s@.subrange(i as int, s@.len() as int), c),
        decreases s@.len() - i,
    {
        assert(s@.subrange(i as int, s@.len() as int).subrange(1, s@.len() - i) =~= s@.subrange(
            i + 1,
            s@.len() as int,
        ));
        i = i + 1;
    }
    i
}

/// Length of `s` once the trailing characters equal to `c` are dropped.
fn trailing_end(s: &Vec<char>, lo: usize, c: char) -> (r: usize)
    requires
        lo <= s@.len(),
    ensures
        lo <= r <= s@.len(),
        trim_end_of(s@.subrange(lo as int, s@.len() as int), c) == s@.subrange(lo as int, r as int),
{
    let mut j: usize = s.len();
    while j > lo && s[j - 1] == c
        invariant
            lo <= j <= s@.len(),
            trim_end_of(s@.subrange(lo as int, s@.len() as int), c) == trim_end_of(
                s@.subrange(lo as int, j as int),
                c,
            ),
        decreases j,
    {
        assert(s@.subrange(lo as int, j as int).drop_last() =~= s@.subrange(lo as int, j - 1));
        j = j - 1;
    }
    j
}

/// The first character of a non-empty string.
fn first_char(s: &SqlString) -> (c: char)
    requires
        s@.len() >= 1,
    ensures
        c == s@[0],
{
    let cs = s.chars();
    cs[0]
}

/// Removes the leading and trailing occurrences of the first character of
/// `remove` from `value`.
pub fn trim_both_s_s(remove: SqlString, value: SqlString) -> (r: SqlString)
    requires
        remove@.len() >= 1,
    ensures
        r@ == trim_end_of(trim_start_of(value@, remove@[0]), remove@[0]),
{
    let c = first_char(&remove);
    let cs = value.chars();
    let a = leading_count(&cs, c);
    let b = trailing_end(&cs, a, c);
    SqlString::from_chars(&slice_chars(&cs, a, b))
}

/// Removes the leading occurrences of the first character of `remove`.
pub fn trim_leading_s_s(remove: SqlString, value: SqlString) -> (r: SqlString)
    requires
        remove@.len() >= 1,
    ensures
        r@ == trim_start_of(value@, remove@[0]),
{
    let c = first_char(&remove);
    let cs = value.chars();
    let a = leading_count(&cs, c);
    SqlString::from_chars(&slice_chars(&cs, a, cs.len()))
}

/// Removes the trailing occurrences of the first character of `remove`.
pub fn trim_trailing_s_s(remove: SqlString, value: SqlString) -> (r: SqlString)
    requires
        remove@.len() >= 1,
    ensures
        r@ == trim_end_of(value@, remove@[0]),
{
    let c = first_char(&remove);
    let cs = value.chars();
    let b = trailing_end(&cs, 0, c);
    assert(cs@.subrange(0, cs@.len() as int) =~= cs@);
    SqlString::from_chars(&slice_chars(&cs, 0, b))
}

/// SQL `LIKE` without escape character: `%` matches any run of characters,
/// `_` any one character, and every other character itself.
pub open spec fn like_of(value: Seq<char>, pattern: Seq<char>) -> bool
    decreases pattern.len(), value.len(),
{
    if pattern.len() == 0 {
        value.len() == 0
    } else if pattern[0] == '%' {
        exists|k: int|
            0 <= k <= value.len() && #[trigger] like_of(
                value.subrange(k, value.len() as int),
                pattern.subrange(1, pattern.len() as int),
            )
    } else if pattern[0] == '_' {
        value.len() > 0 && like_of(
            value.subrange(1, value.len() as int),
            pattern.subrange(1, pattern.len() as int),
        )
    } else {
        value.len() > 0 && value[0] == pattern[0] && like_of(
            value.subrange(1, value.len() as int),
            pattern.subrange(1, pattern.len() as int),
        )
    }
}

/// What SQL `LIKE` answers for a text and a pattern in which `\` escapes.
pub uninterp spec fn like_escaped_of(value: Seq<char>, pattern: Seq<char>) -> bool;

/// The pattern rewritten so that the given escape character becomes `\`.
pub uninterp spec fn escape_of(pattern: Seq<char>, escape: Seq<char>) -> Seq<char>;

/// Whether the pattern compiles as a regular expression and matches a part
/// of the text.
pub uninterp spec fn regex_match_of(value: Seq<char>, pattern: Seq<char>) -> bool;

/// Relies on `like::Like::<false>::like` for `str`, which never fails
/// without an escape character; it compares bytes, which for UTF-8 text
/// agrees with `like_of` on characters.
#[verifier::external_body]
fn like_plain(value: &str, pattern: &str) -> (r: bool)
    ensures
        r == like_of(value@, pattern@),
{
    Like::<false>::like(value, pattern).unwrap_or(false)
}

/// Whether every `\` of a pattern is followed by the character it escapes,
/// reading from the left, a `\` and its escaped character taken together.
pub open spec fn well_escaped(p: Seq<char>) -> bool
    decreases p.len(),
{
    if p.len() == 0 {
        true
    } else if p[0] == '\\' {
        p.len() >= 2 && well_escaped(p.subrange(2, p.len() as int))
    } else {
        well_escaped(p.subrange(1, p.len() as int))
    }
}

/// Whether each occurrence of the escape character `e` in a pattern, reading
/// from the left, is followed by `%`, `_` or `e`, the pair taken together.
pub open spec fn escapes_valid(p: Seq<char>, e: char) -> bool
    decreases p.len(),
{
    if p.len() == 0 {
        true
    } else if p[0] == e {
        p.len() >= 2 && (p[1] == '%' || p[1] == '_' || p[1] == e) && escapes_valid(
            p.subrange(2, p.len() as int),
            e,
        )
    } else {
        escapes_valid(p.subrange(1, p.len() as int), e)
    }
}

/// Whether `escape` is a usable escape for `pattern`: empty (no escape
/// character), or a single character used correctly in the pattern.
pub open spec fn escape_ok(pattern: Seq<char>, escape: Seq<char>) -> bool {
    escape.len() == 0 || (escape.len() == 1 && escapes_valid(pattern, escape[0]))
}

/// Relies on `like::Like::<true>::like` for `str`. It fails only on a `\`
/// with nothing after it, which a well-escaped pattern never holds.
#[verifier::external_body]
fn like_with_escapes(value: &str, pattern: &str) -> (r: Option<bool>)
    ensures
        r matches Some(b) ==> b == like_escaped_of(value@, pattern@),
        well_escaped(pattern@) ==> r is Some,
{
    Like::<true>::like(value, pattern).ok()
}

/// Relies on `like::Escape::escape` for `str`: it fails when the escape is
/// longer than one character or misused in the pattern, and otherwise only
/// when the buffer of twice the pattern's length cannot be reserved (which
/// the length bound rules out, allocation failure aside). Its result pairs
/// every `\` with the character after it.
#[verifier::external_body]
fn escape_pattern(pattern: &str, escape: &str) -> (r: Option<String>)
    ensures
        r matches Some(p) ==> p@ == escape_of(pattern@, escape@) && well_escaped(p@),
        r is Some ==> escape_ok(pattern@, escape@),
        escape_ok(pattern@, escape@) && pattern@.len() <= 0x0fff_ffff_ffff_ffff ==> r is Some,
{
    pattern.escape(escape).ok()
}

/// Relies on `regex::Regex::new` and `regex::Regex::is_match`: false when the
/// pattern does not compile.
#[verifier::external_body]
fn regex_matches(value: &str, pattern: &str) -> (r: bool)
    ensures
        r == regex_match_of(value@, pattern@),
{
    Regex::new(pattern).map_or(false, |re| re.is_match(value))
}

/// SQL `value LIKE pattern`.
pub fn like2__(value: SqlString, pattern: SqlString) -> (r: bool)
    ensures
        r == like_of(value@, pattern@),
{
    like_plain(value.s.as_str(), pattern.s.as_str())
}

/// SQL `value RLIKE pattern`: false when the pattern is not a valid regular
/// expression.
pub fn rlike__(value: SqlString, pattern: SqlString) -> (r: bool)
    ensures
        r == regex_match_of(value@, pattern@),
{
    regex_matches(value.s.as_str(), pattern.s.as_str())
}

/// SQL `value LIKE pattern ESCAPE escape`; false when the escape or the
/// escaped pattern is malformed.
pub fn like3___(value: SqlString, pattern: SqlString, escape: SqlString) -> (r: bool)
    requires
        pattern@.len() <= 0x0fff_ffff_ffff_ffff,
    ensures
        escape_ok(pattern@, escape@) ==> r == like_escaped_of(value@, escape_of(pattern@, escape@)),
        !escape_ok(pattern@, escape@) ==> !r,
{
    match escape_pattern(pattern.s.as_str(), escape.s.as_str()) {
        None => false,
        Some(p) => match like_with_escapes(value.s.as_str(), p.as_str()) {
            None => false,
            Some(b) => b,
        },
    }
}

/// Whether `needle` occurs in `hay` at offset `i`.
pub open spec fn occurs_at(hay: Seq<char>, needle: Seq<char>, i: int) -> bool {
    0 <= i && i + needle.len() <= hay.len() && hay.subrange(i, i + needle.len()) == needle
}

/// Whether `needle` occurs in `hay` at offset `i`.
pub(crate) fn matches_at(hay: &Vec<char>, needle: &Vec<char>, i: usize) -> (r: bool)
    ensures
        r == occurs_at(hay@, needle@, i as int),
{
    if i > hay.len() || needle.len() > hay.len() - i {
        return false;
    }
    let len = hay.len();
    let mut k: usize = 0;
    while k < needle.len()
        invariant
            len == hay@.len(),
            i + needle@.len() <= hay@.len(),
            k <= needle@.len(),
            forall|m: int| 0 <= m < k ==> hay@[i + m] == needle@[m],
        decreases needle@.len() - k,
    {
        assert(i + k < hay@.len());
        if hay[i + k] != needle[k] {
            assert(hay@.subrange(i as int, i + needle@.len())[k as int] != needle@[k as int]);
            return false;
        }
        k = k + 1;
    }
    assert(hay@.subrange(i as int, i + needle@.len()) =~= needle@);
    true
}

/// One-based position of the first occurrence of `needle` in `haystack`,
/// 0 when there is none.
pub fn position__(needle: SqlString, haystack: SqlString) -> (r: i32)
    requires
        haystack@.len() < i32::MAX,
    ensures
        r == 0 <==> (forall|i: int| !occurs_at(haystack@, needle@, i)),
        r > 0 ==> occurs_at(haystack@, needle@, r - 1) && forall|i: int|
            0 <= i < r - 1 ==> !occurs_at(haystack@, needle@, i),
        r >= 0,
{
    let h = haystack.chars();
    let n = needle.chars();
    let mut i: usize = 0;
    while i <= h.len()
        invariant
            h@ == haystack@,
            n@ == needle@,
            h@.len() < i32::MAX,
            i <= h@.len() + 1,
            forall|j: int| 0 <= j < i ==> !occurs_at(h@, n@, j),
        decreases h@.len() + 1 - i,
    {
        if matches_at(&h, &n, i) {
            return (i + 1) as i32;
        }
        i = i + 1;
    }
    assert forall|j: int| !occurs_at(h@, n@, j) by {
        if 0 <= j < i {
        }
    }
    0
}

/// Number of characters.
pub fn char_length_(value: SqlString) -> (r: i32)
    requires
        value@.len() <= i32::MAX,
    ensures
        r == value@.len(),
{
    value.char_count() as i32
}

/// Number of characters of a `str`.
pub fn char_length_ref(value: &str) -> (r: i32)
    requires
        value@.len() <= i32::MAX,
    ensures
        r == value@.len(),
{
    chars_of(value).len() as i32
}

/// Code point of the first character; 0 for the empty string.
pub fn ascii_(value: SqlString) -> (r: i32)
    ensures
        r == (if value@.len() == 0 {
            0
        } else {
            value@[0] as u32 as i32
        }),
{
    let cs = value.chars();
    if cs.len() == 0 {
        0
    } else {
        cs[0] as u32 as i32
    }
}

/// Whether `code` is the code point of a character.
pub open spec fn is_scalar_value(code: u32) -> bool {
    code <= 0x10FFFF && !(0xD800 <= code <= 0xDFFF)
}

/// Relies on `char::from_u32`: the character of a code point outside the
/// surrogate range and at most `0x10FFFF`.
#[verifier::external_body]
fn char_of_code(code: u32) -> (r: Option<char>)
    ensures
        r is Some <==> is_scalar_value(code),
        r matches Some(c) ==> c as u32 == code,
{
    char::from_u32(code)
}

/// The one-character string of a code point; empty for a negative or
/// invalid code.
pub fn chr_(code: i32) -> (r: SqlString)
    ensures
        code < 0 || !is_scalar_value(code as u32) ==> r@.len() == 0,
        code >= 0 && is_scalar_value(code as u32) ==> r@.len() == 1 && r@[0] as u32 == code,
{
    if code < 0 {
        SqlString::new()
    } else {
        match char_of_code(code as u32) {
            None => SqlString::new(),
            Some(c) => {
                let mut v: Vec<char> = Vec::new();
                v.push(c);
                SqlString::from_chars(&v)
            },
        }
    }
}

/// `n` copies of `s`, one after the other.
pub open spec fn repeated(s: Seq<char>, n: nat) -> Seq<char>
    decreases n,
{
    if n == 0 {
        Seq::empty()
    } else {
        repeated(s, (n - 1) as nat) + s
    }
}

/// `count` copies of `value`; empty when `count` is not positive.
pub fn repeat__(value: SqlString, count: i32) -> (r: SqlString)
    ensures
        r@ == (if count <= 0 {
            Seq::<char>::empty()
        } else {
            repeated(value@, count as nat)
        }),
{
    if count <= 0 {
        return SqlString::new();
    }
    let cs = value.chars();
    let mut out: Vec<char> = Vec::new();
    let mut i: i32 = 0;
    while i < count
        invariant
            0 <= i <= count,
            cs@ == value@,
            out@ == repeated(value@, i as nat),
        decreases count - i,
    {
        let mut piece = cs.clone();
        assert(piece@ =~= cs@);
        out.append(&mut piece);
        i = i + 1;
    }
    SqlString::from_chars(&out)
}

/// SQL `OVERLAY(source PLACING replacement FROM position FOR remove)`.
pub open spec fn overlay_of(
    source: Seq<char>,
    replacement: Seq<char>,
    position: int,
    remove: int,
) -> Seq<char> {
    let remove = if remove < 0 {
        0
    } else {
        remove
    };
    if position <= 0 {
        source
    } else if position > source.len() {
        source + replacement
    } else {
        source.subrange(0, position - 1) + replacement + clamped_range(
            source,
            position - 1 + remove,
            source.len() as int,
        )
    }
}

/// SQL `OVERLAY(source PLACING replacement FROM position FOR remove)`: a
/// negative `remove` counts as 0, a non-positive `position` leaves `source`
/// as it is, a `position` past the end appends `replacement`.
pub fn overlay4____(source: SqlString, replacement: SqlString, position: i32, remove: i32) -> (r:
    SqlString)
    ensures
        r@ == overlay_of(source@, replacement@, position as int, remove as int),
{
    let remove: i64 = if remove < 0 {
        0
    } else {
        remove as i64
    };
    let cs = source.chars();
    if position <= 0 {
        source
    } else if position as u64 > cs.len() as u64 {
        concat_s_s(source, replacement)
    } else {
        let p = position as usize;
        let mut head = slice_chars(&cs, 0, p - 1);
        let mut mid = replacement.chars();
        let mut tail = suffix_chars(&cs, position as i64 - 1 + remove);
        head.append(&mut mid);
        head.append(&mut tail);
        SqlString::from_chars(&head)
    }
}

/// `overlay4____` removing as many characters as `replacement` has.
pub fn overlay3___(source: SqlString, replacement: SqlString, position: i32) -> (r: SqlString)
    requires
        replacement@.len() <= i32::MAX,
    ensures
        r@ == overlay_of(source@, replacement@, position as int, replacement@.len() as int),
{
    let len = replacement.char_count() as i32;
    overlay4____(source, replacement, position, len)
}

/// The text in lower case, as `str::to_lowercase` gives it.
pub uninterp spec fn lower_of(s: Seq<char>) -> Seq<char>;

/// The text in upper case, as `str::to_uppercase` gives it.
pub uninterp spec fn upper_of(s: Seq<char>) -> Seq<char>;

/// Whether a character is alphabetic or numeric, as `char::is_alphanumeric`
/// says.
pub uninterp spec fn is_alphanumeric_of(c: char) -> bool;

/// The upper-case form of a character, as `char::to_uppercase` gives it.
pub uninterp spec fn char_upper_of(c: char) -> Seq<char>;

/// The lower-case form of a character, as `char::to_lowercase` gives it.
pub uninterp spec fn char_lower_of(c: char) -> Seq<char>;

/// Relies on `str::to_lowercase`: the result depends on the text alone.
#[verifier::external_body]
pub(crate) fn lowercase(s: &str) -> (r: String)
    ensures
        r@ == lower_of(s@),
{
    s.to_lowercase()
}

/// Relies on `str::to_uppercase`: the result depends on the text alone.
#[verifier::external_body]
pub(crate) fn uppercase(s: &str) -> (r: String)
    ensures
        r@ == upper_of(s@),
{
    s.to_uppercase()
}

/// Relies on `char::is_alphanumeric`.
#[verifier::external_body]
fn alphanumeric(c: char) -> (r: bool)
    ensures
        r == is_alphanumeric_of(c),
{
    c.is_alphanumeric()
}

/// Relies on `char::to_uppercase`: the characters of the upper-case form.
#[verifier::external_body]
fn char_upper(c: char) -> (r: Vec<char>)
    ensures
        r@ == char_upper_of(c),
{
    c.to_uppercase().collect()
}

/// Relies on `char::to_lowercase`: the characters of the lower-case form.
#[verifier::external_body]
fn char_lower(c: char) -> (r: Vec<char>)
    ensures
        r@ == char_lower_of(c),
{
    c.to_lowercase().collect()
}

/// The text in lower case.
pub fn lower_(source: SqlString) -> (r: SqlString)
    ensures
        r@ == lower_of(source@),
{
    SqlString::from_string(lowercase(source.s.as_str()))
}

/// The text in upper case.
pub fn upper_(source: SqlString) -> (r: SqlString)
    ensures
        r@ == upper_of(source@),
{
    SqlString::from_string(uppercase(source.s.as_str()))
}

/// SQL `INITCAP`: the first character of each run of alphanumeric characters
/// in upper case, the rest of the run in lower case, other characters kept.
pub open spec fn initcap_of(s: Seq<char>) -> Seq<char>
    decreases s.len(),
{
    if s.len() == 0 {
        Seq::empty()
    } else {
        let c = s.last();
        let starts_run = s.len() == 1 || !is_alphanumeric_of(s[s.len() - 2]);
        initcap_of(s.drop_last()) + if !is_alphanumeric_of(c) {
            seq![c]
        } else if starts_run {
            char_upper_of(c)
        } else {
            char_lower_of(c)
        }
    }
}

/// SQL `INITCAP`.
pub fn initcap_(source: SqlString) -> (r: SqlString)
    ensures
        r@ == initcap_of(source@),
{
    let cs = source.chars();
    let mut out: Vec<char> = Vec::new();
    let mut capitalize_next = true;
    let mut i: usize = 0;
    while i < cs.len()
        invariant
            i <= cs@.len(),
            out@ == initcap_of(cs@.subrange(0, i as int)),
            capitalize_next == (i == 0 || !is_alphanumeric_of(cs@[i - 1])),
        decreases cs@.len() - i,
    {
        let c = cs[i];
        let ghost pre = cs@.subrange(0, i + 1);
        assert(pre.drop_last() =~= cs@.subrange(0, i as int));
        if alphanumeric(c) {
            let mut piece = if capitalize_next {
                char_upper(c)
            } else {
                char_lower(c)
            };
            out.append(&mut piece);
            capitalize_next = false;
        } else {
            out.push(c);
            assert(out@ =~= initcap_of(cs@.subrange(0, i as int)) + seq![c]);
            capitalize_next = true;
        }
        i = i + 1;
    }
    assert(cs@.subrange(0, cs@.len() as int) =~= cs@);
    SqlString::from_chars(&out)
}

/// Every non-overlapping occurrence of `needle` in `hay`, from left to right,
/// replaced by `rep`; an empty needle puts `rep` before every character and
/// at the end.
pub open spec fn replace_all(hay: Seq<char>, needle: Seq<char>, rep: Seq<char>) -> Seq<char>
    decreases hay.len(),
{
    if hay.len() == 0 {
        if needle.len() == 0 {
            rep
        } else {
            Seq::empty()
        }
    } else if needle.len() == 0 {
        rep + seq![hay[0]] + replace_all(hay.subrange(1, hay.len() as int), needle, rep)
    } else if occurs_at(hay, needle, 0) {
        rep + replace_all(hay.subrange(needle.len() as int, hay.len() as int), needle, rep)
    } else {
        seq![hay[0]] + replace_all(hay.subrange(1, hay.len() as int), needle, rep)
    }
}

proof fn lemma_occurs_shift(hay: Seq<char>, needle: Seq<char>, i: int)
    requires
        0 <= i <= hay.len(),
    ensures
        occurs_at(hay, needle, i) == occurs_at(hay.subrange(i, hay.len() as int), needle, 0),
{
    let t = hay.subrange(i, hay.len() as int);
    if i + needle.len() <= hay.len() {
        assert(t.subrange(0, needle.len() as int) =~= hay.subrange(i, i + needle.len()));
    }
}

/// `haystack` with every occurrence of `needle` replaced by `replacement`.
pub fn replace___(haystack: SqlString, needle: SqlString, replacement: SqlString) -> (r: SqlString)
    ensures
        r@ == replace_all(haystack@, needle@, replacement@),
{
    let h = haystack.chars();
    let n = needle.chars();
    let rep = replacement.chars();
    let mut out: Vec<char> = Vec::new();
    let mut i: usize = 0;
    assert(h@.subrange(0, h@.len() as int) =~= h@);
    assert(out@ + replace_all(h@, n@, rep@) =~= replace_all(h@, n@, rep@));
    while i < h.len()
        invariant
            i <= h@.len(),
            h@ == haystack@,
            n@ == needle@,
            rep@ == replacement@,
            out@ + replace_all(h@.subrange(i as int, h@.len() as int), n@, rep@) == replace_all(
                h@,
                n@,
                rep@,
            ),
        decreases h@.len() - i,
    {
        let ghost rest = h@.subrange(i as int, h@.len() as int);
        let ghost out0 = out@;
        proof {
            lemma_occurs_shift(h@, n@, i as int);
        }
        if n.len() == 0 {
            let mut piece = rep.clone();
            assert(piece@ =~= rep@);
            out.append(&mut piece);
            out.push(h[i]);
            proof {
                let next = h@.subrange(i + 1, h@.len() as int);
                assert(rest.subrange(1, rest.len() as int) =~= next);
                assert(out@ + replace_all(next, n@, rep@) =~= out0 + (rep@ + seq![rest[0]]
                    + replace_all(next, n@, rep@)));
            }
            i = i + 1;
        } else if matches_at(&h, &n, i) {
            let mut piece = rep.clone();
            assert(piece@ =~= rep@);
            out.append(&mut piece);
            proof {
                let next = h@.subrange(i + n@.len(), h@.len() as int);
                assert(rest.subrange(n@.len() as int, rest.len() as int) =~= next);
                assert(out@ + replace_all(next, n@, rep@) =~= out0 + (rep@ + replace_all(
                    next,
                    n@,
                    rep@,
                )));
            }
            i = i + n.len();
        } else {
            out.push(h[i]);
            proof {
                let next = h@.subrange(i + 1, h@.len() as int);
                assert(rest.subrange(1, rest.len() as int) =~= next);
                assert(out@ + replace_all(next, n@, rep@) =~= out0 + (seq![rest[0]]
                    + replace_all(next, n@, rep@)));
            }
            i = i + 1;
        }
    }
    proof {
        assert(h@.subrange(i as int, h@.len() as int) =~= Seq::<char>::empty());
    }
    if n.len() == 0 {
        let mut piece = rep.clone();
        assert(piece@ =~= rep@);
        out.append(&mut piece);
    }
    assert(out@ =~= replace_all(h@, n@, rep@));
    SqlString::from_chars(&out)
}

/// SQL `LEFT(source, size)`: the first `size` characters.
pub fn left__(source: SqlString, size: i32) -> (r: SqlString)
    ensures
        r@ == substring_of(source@, 1, size as int),
{
    substring3___(source, 1, size)
}

/// The pieces of `s` between the occurrences of a non-empty separator, from
/// left to right; the text without a separator is one piece.
pub open spec fn pieces(s: Seq<char>, sep: Seq<char>) -> Seq<Seq<char>>
    decreases s.len(),
{
    if s.len() == 0 || sep.len() == 0 {
        seq![s]
    } else if occurs_at(s, sep, 0) {
        seq![Seq::<char>::empty()] + pieces(s.subrange(sep.len() as int, s.len() as int), sep)
    } else {
        let p = pieces(s.subrange(1, s.len() as int), sep);
        p.update(0, seq![s[0]] + p[0])
    }
}

/// `p` with `cur` put in front of its first piece.
pub open spec fn with_prefix(cur: Seq<char>, p: Seq<Seq<char>>) -> Seq<Seq<char>> {
    p.update(0, cur + p[0])
}

proof fn lemma_pieces_nonempty(s: Seq<char>, sep: Seq<char>)
    ensures
        pieces(s, sep).len() >= 1,
    decreases s.len(),
{
    if s.len() == 0 || sep.len() == 0 {
    } else if occurs_at(s, sep, 0) {
        lemma_pieces_nonempty(s.subrange(sep.len() as int, s.len() as int), sep);
    } else {
        lemma_pieces_nonempty(s.subrange(1, s.len() as int), sep);
    }
}

/// The texts of a sequence of SQL strings.
pub open spec fn texts(v: Seq<SqlString>) -> Seq<Seq<char>> {
    v.map_values(|x: SqlString| x@)
}

/// SQL `SPLIT(source, separators)`: an empty separator gives the whole text
/// as one piece, an empty text gives no piece.
pub open spec fn split_of(source: Seq<char>, sep: Seq<char>) -> Seq<Seq<char>> {
    if sep.len() == 0 {
        seq![source]
    } else if source.len() == 0 {
        Seq::empty()
    } else {
        pieces(source, sep)
    }
}

/// Splits `source` at each occurrence of `separators`.
pub fn split2__(source: SqlString, separators: SqlString) -> (r: Vec<SqlString>)
    ensures
        texts(r@) == split_of(source@, separators@),
{
    let h = source.chars();
    let sep = separators.chars();
    if sep.len() == 0 {
        let mut out: Vec<SqlString> = Vec::new();
        out.push(source);
        assert(texts(out@) =~= split_of(h@, sep@));
        return out;
    }
    if h.len() == 0 {
        let out: Vec<SqlString> = Vec::new();
        assert(texts(out@) =~= split_of(h@, sep@));
        return out;
    }
    let mut out: Vec<SqlString> = Vec::new();
    let mut cur: Vec<char> = Vec::new();
    let mut i: usize = 0;
    assert(h@.subrange(0, h@.len() as int) =~= h@);
    proof {
        lemma_pieces_nonempty(h@, sep@);
        assert(with_prefix(cur@, pieces(h@, sep@)) =~= pieces(h@, sep@));
        assert(texts(out@) + pieces(h@, sep@) =~= pieces(h@, sep@));
    }
    while i < h.len()
        invariant
            i <= h@.len(),
            h@ == source@,
            sep@ == separators@,
            sep@.len() > 0,
            texts(out@) + with_prefix(cur@, pieces(h@.subrange(i as int, h@.len() as int), sep@))
                == pieces(h@, sep@),
        decreases h@.len() - i,
    {
        let ghost rest = h@.subrange(i as int, h@.len() as int);
        let ghost out0 = texts(out@);
        let ghost cur0 = cur@;
        proof {
            lemma_occurs_shift(h@, sep@, i as int);
        }
        if matches_at(&h, &sep, i) {
            let piece = SqlString::from_chars(&cur);
            out.push(piece);
            cur = Vec::new();
            proof {
                let next = h@.subrange(i + sep@.len(), h@.len() as int);
                assert(rest.subrange(sep@.len() as int, rest.len() as int) =~= next);
                lemma_pieces_nonempty(next, sep@);
                assert(texts(out@) =~= out0.push(cur0));
                assert(with_prefix(cur@, pieces(next, sep@)) =~= pieces(next, sep@));
                assert(with_prefix(cur0, pieces(rest, sep@)) =~= seq![cur0] + pieces(next, sep@));
                assert(texts(out@) + with_prefix(cur@, pieces(next, sep@)) =~= out0 + with_prefix(
                    cur0,
                    pieces(rest, sep@),
                ));
            }
            i = i + sep.len();
        } else {
            cur.push(h[i]);
            proof {
                let next = h@.subrange(i + 1, h@.len() as int);
                assert(rest.subrange(1, rest.len() as int) =~= next);
                lemma_pieces_nonempty(next, sep@);
                let p = pieces(next, sep@);
                assert(rest.len() > 0 && rest[0] == h@[i as int]);
                assert(!occurs_at(rest, sep@, 0));
                assert(pieces(rest, sep@) == p.update(0, seq![rest[0]] + p[0]));
                assert(cur0 + (seq![rest[0]] + p[0]) =~= cur@ + p[0]);
                assert(with_prefix(cur0, pieces(rest, sep@)) =~= with_prefix(cur@, p));
            }
            i = i + 1;
        }
    }
    let ghost out0 = texts(out@);
    let last = SqlString::from_chars(&cur);
    out.push(last);
    proof {
        assert(h@.subrange(i as int, h@.len() as int) =~= Seq::<char>::empty());
        assert(texts(out@) =~= out0.push(cur@));
        assert(with_prefix(cur@, pieces(Seq::<char>::empty(), sep@)) =~= seq![cur@]);
    }
    out
}

/// `split2__` at commas.
pub fn split1_(source: SqlString) -> (r: Vec<SqlString>)
    ensures
        texts(r@) == split_of(source@, seq![',']),
{
    let sep = SqlString::from_ref(",");
    proof {
        reveal_strlit(",");
        assert(sep@ =~= seq![',']);
    }
    split2__(source, sep)
}

/// The pieces joined with `sep` between two neighbours.
pub open spec fn joined(parts: Seq<Seq<char>>, sep: Seq<char>) -> Seq<char>
    decreases parts.len(),
{
    if parts.len() == 0 {
        Seq::empty()
    } else if parts.len() == 1 {
        parts[0]
    } else {
        joined(parts.drop_last(), sep) + sep + parts.last()
    }
}

/// The texts of the definite entries of a sequence of optional SQL strings.
pub open spec fn present_texts(v: Seq<Option<SqlString>>) -> Seq<Seq<char>>
    decreases v.len(),
{
    if v.len() == 0 {
        Seq::empty()
    } else {
        let rest = present_texts(v.drop_last());
        match v.last() {
            Some(x) => rest.push(x@),
            None => rest,
        }
    }
}

/// The texts of a sequence of optional SQL strings, `null_value` standing
/// for each absent entry.
pub open spec fn filled_texts(v: Seq<Option<SqlString>>, null_value: Seq<char>) -> Seq<Seq<char>> {
    v.map_values(
        |x: Option<SqlString>|
            match x {
                Some(s) => s@,
                None => null_value,
            },
    )
}

/// Appends `sep` (unless `first`) and `word` to `out`.
fn push_word(out: &mut Vec<char>, sep: &Vec<char>, word: &Vec<char>, first: bool)
    ensures
        final(out)@ == if first {
            old(out)@ + word@
        } else {
            old(out)@ + sep@ + word@
        },
{
    if !first {
        let mut s = sep.clone();
        assert(s@ =~= sep@);
        out.append(&mut s);
    }
    let mut w = word.clone();
    assert(w@ =~= word@);
    out.append(&mut w);
}

/// The strings joined with `separator` between two neighbours.
pub fn array_to_string2_vec__(value: Vec<SqlString>, separator: SqlString) -> (r: SqlString)
    ensures
        r@ == joined(texts(value@), separator@),
{
    let sep = separator.chars();
    let mut out: Vec<char> = Vec::new();
    let mut i: usize = 0;
    while i < value.len()
        invariant
            i <= value@.len(),
            sep@ == separator@,
            out@ == joined(texts(value@.subrange(0, i as int)), sep@),
        decreases value@.len() - i,
    {
        let w = value[i].chars();
        push_word(&mut out, &sep, &w, i == 0);
        proof {
            let t = texts(value@.subrange(0, i + 1));
            assert(t.drop_last() =~= texts(value@.subrange(0, i as int)));
            assert(t.last() == w@);
            if i == 0 {
                assert(t.len() == 1);
            }
        }
        i = i + 1;
    }
    assert(value@.subrange(0, value@.len() as int) =~= value@);
    SqlString::from_chars(&out)
}

/// The definite strings joined with `separator`; absent entries are skipped.
pub fn array_to_string2Nvec__(value: Vec<Option<SqlString>>, separator: SqlString) -> (r: SqlString)
    ensures
        r@ == joined(present_texts(value@), separator@),
{
    let sep = separator.chars();
    let mut out: Vec<char> = Vec::new();
    let mut first = true;
    let mut i: usize = 0;
    while i < value.len()
        invariant
            i <= value@.len(),
            sep@ == separator@,
            first == (present_texts(value@.subrange(0, i as int)).len() == 0),
            out@ == joined(present_texts(value@.subrange(0, i as int)), sep@),
        decreases value@.len() - i,
    {
        let ghost pre = value@.subrange(0, i + 1);
        assert(pre.drop_last() =~= value@.subrange(0, i as int));
        let ghost before = present_texts(value@.subrange(0, i as int));
        match &value[i] {
            None => {},
            Some(s) => {
                let w = s.chars();
                push_word(&mut out, &sep, &w, first);
                proof {
                    assert(present_texts(pre) == before.push(w@));
                    if !first {
                        assert(before.push(w@).drop_last() =~= before);
                    }
                }
                first = false;
            },
        }
        i = i + 1;
    }
    assert(value@.subrange(0, value@.len() as int) =~= value@);
    SqlString::from_chars(&out)
}

/// `array_to_string2_vec__`; the strings hold no absent entry to replace.
pub fn array_to_string3_vec___(value: Vec<SqlString>, separator: SqlString, null_value: SqlString) -> (r: SqlString)
    ensures
        r@ == joined(texts(value@), separator@),
{
    array_to_string2_vec__(value, separator)
}

/// The strings joined with `separator`, `null_value` standing for each
/// absent entry.
pub fn array_to_string3Nvec___(
    value: Vec<Option<SqlString>>,
    separator: SqlString,
    null_value: SqlString,
) -> (r: SqlString)
    ensures
        r@ == joined(filled_texts(value@, null_value@), separator@),
{
    let sep = separator.chars();
    let nv = null_value.chars();
    let mut out: Vec<char> = Vec::new();
    let mut i: usize = 0;
    while i < value.len()
        invariant
            i <= value@.len(),
            sep@ == separator@,
            nv@ == null_value@,
            out@ == joined(filled_texts(value@.subrange(0, i as int), nv@), sep@),
        decreases value@.len() - i,
    {
        let w = match &value[i] {
            None => nv.clone(),
            Some(s) => s.chars(),
        };
        proof {
            let t = filled_texts(value@.subrange(0, i + 1), nv@);
            assert(t.drop_last() =~= filled_texts(value@.subrange(0, i as int), nv@));
            assert(w@ =~= t.last());
            if i == 0 {
                assert(t.len() == 1);
            }
        }
        push_word(&mut out, &sep, &w, i == 0);
        i = i + 1;
    }
    assert(value@.subrange(0, value@.len() as int) =~= value@);
    SqlString::from_chars(&out)
}

/// Whether two texts are equal, character by character.
pub fn same_text(a: &str, b: &str) -> (r: bool)
    ensures
        r == (a@ == b@),
{
    let x = chars_of(a);
    let y = chars_of(b);
    if x.len() != y.len() {
        return false;
    }
    let mut i: usize = 0;
    while i < x.len()
        invariant
            x@ == a@,
            y@ == b@,
            x@.len() == y@.len(),
            i <= x@.len(),
            forall|k: int| 0 <= k < i ==> x@[k] == y@[k],
        decreases x@.len() - i,
    {
        if x[i] != y[i] {
            return false;
        }
        i = i + 1;
    }
    assert(x@ =~= y@);
    true
}

/// The message that SQL `WRITELOG(format, value)` emits: `format` with each
/// `%%` replaced by the rendering of the value.
pub fn writelog_message(format: SqlString, rendered: SqlString) -> (r: SqlString)
    ensures
        r@ == replace_all(format@, seq!['%', '%'], rendered@),
{
    let token = SqlString::from_ref("%%");
    proof {
        reveal_strlit("%%");
        assert(token@ =~= seq!['%', '%']);
    }
    replace___(format, token, rendered)
}

} // verus!
