//! Type-path and identifier string handling.
//!
//! A component is identified by a string type path (`my_game::health::Health`).
//! This module holds the path logic shared across the crate: locating pattern
//! occurrences, trimming, prefix stripping, deriving a method name from a
//! registered function name, and normalizing type paths.

use vstd::prelude::*;
use vstd::string::*;

verus! {

/// True when pattern `p` occurs in `s` starting at position `i`.
pub open spec fn match_at(s: Seq<char>, p: Seq<char>, i: int) -> bool {
    0 <= i && i + p.len() <= s.len() && s.subrange(i, i + p.len()) == p
}

/// Position of the last occurrence of `p` at or before position `i`, or -1.
pub open spec fn last_match_from(s: Seq<char>, p: Seq<char>, i: int) -> int
    decreases i + 1,
{
    if i < 0 {
        -1
    } else if match_at(s, p, i) {
        i
    } else {
        last_match_from(s, p, i - 1)
    }
}

/// Position of the last occurrence of `p` in `s`, or -1 when `p` never occurs.
pub open spec fn last_match(s: Seq<char>, p: Seq<char>) -> int {
    last_match_from(s, p, s.len() - p.len())
}

/// True when `p` occurs somewhere in `s`.
pub open spec fn contains_seq(s: Seq<char>, p: Seq<char>) -> bool {
    last_match(s, p) >= 0
}

/// True when `p` is a prefix of `s`.
pub open spec fn has_prefix(s: Seq<char>, p: Seq<char>) -> bool {
    match_at(s, p, 0)
}

/// The part of `s` after the last occurrence of `p`; all of `s` when `p`
/// never occurs.
pub open spec fn after_last(s: Seq<char>, p: Seq<char>) -> Seq<char> {
    let i = last_match(s, p);
    if i >= 0 {
        s.subrange(i + p.len(), s.len() as int)
    } else {
        s
    }
}

proof fn lemma_last_match_from_bounds(s: Seq<char>, p: Seq<char>, i: int)
    ensures
        last_match_from(s, p, i) == -1 || (0 <= last_match_from(s, p, i)
            && match_at(s, p, last_match_from(s, p, i))),
        last_match_from(s, p, i) <= i || i < 0,
        forall|j: int| last_match_from(s, p, i) < j <= i ==> !match_at(s, p, j),
    decreases i + 1,
{
    if i >= 0 && !match_at(s, p, i) {
        lemma_last_match_from_bounds(s, p, i - 1);
    }
}

/// True when `p` occurs at position `i` of `s`; checked character by character.
fn is_match_at(s: &str, p: &str, i: usize) -> (r: bool)
    requires
        i + p@.len() <= s@.len(),
    ensures
        r == match_at(s@, p@, i as int),
{
    let s_len: usize = s.unicode_len();
    let p_len: usize = p.unicode_len();
    let mut k: usize = 0;
    while k < p_len
        invariant
            0 <= k <= p_len,
            p_len == p@.len(),
            s_len == s@.len(),
            i + p@.len() <= s@.len(),
            forall|m: int| 0 <= m < k ==> s@[i + m] == p@[m],
        decreases p_len - k,
    {
        if s.get_char(i + k) != p.get_char(k) {
            assert(s@.subrange(i as int, i + p@.len()) != p@) by {
                assert(s@.subrange(i as int, i + p@.len())[k as int] != p@[k as int]);
            }
            return false;
        }
        k = k + 1;
    }
    assert(s@.subrange(i as int, i + p@.len()) =~= p@);
    true
}

/// Position of the last occurrence of `p` in `s`, if any.
pub fn find_last(s: &str, p: &str) -> (r: Option<usize>)
    ensures
        match r {
            Some(i) => i == last_match(s@, p@) && match_at(s@, p@, i as int),
            None => last_match(s@, p@) == -1,
        },
{
    let s_len: usize = s.unicode_len();
    let p_len: usize = p.unicode_len();
    if p_len > s_len {
        proof {
            lemma_last_match_from_bounds(s@, p@, s@.len() - p@.len());
        }
        return None;
    }
    let mut i: usize = s_len - p_len;
    loop
        invariant
            0 <= i <= s_len - p_len,
            s_len == s@.len(),
            p_len == p@.len(),
            p_len <= s_len,
            last_match(s@, p@) == last_match_from(s@, p@, i as int),
        decreases i + 1,
    {
        proof {
            lemma_last_match_from_bounds(s@, p@, i as int);
        }
        if is_match_at(s, p, i) {
            return Some(i);
        }
        if i == 0 {
            return None;
        }
        i = i - 1;
    }
}

/// True when `p` occurs somewhere in `s`.
pub fn contains_pattern(s: &str, p: &str) -> (r: bool)
    ensures
        r == contains_seq(s@, p@),
{
    find_last(s, p).is_some()
}

/// The suffix of `s` after the last occurrence of `p`; `s` itself when `p`
/// never occurs in it.
pub fn suffix_after_last<'a>(s: &'a str, p: &'a str) -> (r: &'a str)
    ensures
        r@ == after_last(s@, p@),
{
    proof {
        lemma_last_match_from_bounds(s@, p@, s@.len() - p@.len());
    }
    match find_last(s, p) {
        Some(i) => {
            let s_len: usize = s.unicode_len();
            let p_len: usize = p.unicode_len();
            s.substring_char(i + p_len, s_len)
        },
        None => s,
    }
}

/// True when the two strings hold the same characters.
pub fn str_eq(a: &str, b: &str) -> (r: bool)
    ensures
        r == (a@ == b@),
{
    let a_len: usize = a.unicode_len();
    let b_len: usize = b.unicode_len();
    if a_len != b_len {
        return false;
    }
    let mut i: usize = 0;
    while i < a_len
        invariant
            0 <= i <= a_len,
            a_len == a@.len(),
            a_len == b@.len(),
            forall|m: int| 0 <= m < i ==> a@[m] == b@[m],
        decreases a_len - i,
    {
        if a.get_char(i) != b.get_char(i) {
            assert(a@ != b@) by {
                assert(a@[i as int] != b@[i as int]);
            }
            return false;
        }
        i = i + 1;
    }
    assert(a@ =~= b@);
    true
}

/// The rest of `s` when `p` is a prefix of it.
pub fn strip_prefix_str<'a>(s: &'a str, p: &'a str) -> (r: Option<&'a str>)
    ensures
        match r {
            Some(t) => has_prefix(s@, p@) && t@ == s@.skip(p@.len() as int),
            None => !has_prefix(s@, p@),
        },
{
    let s_len: usize = s.unicode_len();
    let p_len: usize = p.unicode_len();
    if p_len > s_len {
        return None;
    }
    if is_match_at(s, p, 0) {
        let rest = s.substring_char(p_len, s_len);
        assert(rest@ =~= s@.skip(p@.len() as int));
        Some(rest)
    } else {
        None
    }
}

/// ASCII whitespace.
pub open spec fn is_ws(c: char) -> bool {
    c == ' ' || c == '\t' || c == '\r' || c == '\n'
}

/// Index of the first non-whitespace character at or after `i`; the length of
/// `s` when all of the rest is whitespace.
pub open spec fn first_non_ws(s: Seq<char>, i: int) -> int
    decreases s.len() - i,
{
    if i < 0 || i >= s.len() {
        s.len() as int
    } else if !is_ws(s[i]) {
        i
    } else {
        first_non_ws(s, i + 1)
    }
}

/// Index just past the last non-whitespace character before position `i`;
/// 0 when everything before `i` is whitespace.
pub open spec fn end_non_ws(s: Seq<char>, i: int) -> int
    decreases i,
{
    if i <= 0 || i > s.len() {
        0
    } else if !is_ws(s[i - 1]) {
        i
    } else {
        end_non_ws(s, i - 1)
    }
}

/// `s` with leading and trailing ASCII whitespace removed.
pub open spec fn spec_trim(s: Seq<char>) -> Seq<char> {
    let from = first_non_ws(s, 0);
    let to = end_non_ws(s, s.len() as int);
    if from < to {
        s.subrange(from, to)
    } else {
        Seq::empty()
    }
}

proof fn lemma_first_non_ws_bounds(s: Seq<char>, i: int)
    requires
        0 <= i <= s.len(),
    ensures
        i <= first_non_ws(s, i) <= s.len(),
        first_non_ws(s, i) < s.len() ==> !is_ws(s[first_non_ws(s, i)]),
        forall|j: int| i <= j < first_non_ws(s, i) ==> is_ws(s[j]),
    decreases s.len() - i,
{
    if i < s.len() && is_ws(s[i]) {
        lemma_first_non_ws_bounds(s, i + 1);
    }
}

proof fn lemma_end_non_ws_bounds(s: Seq<char>, i: int)
    requires
        0 <= i <= s.len(),
    ensures
        0 <= end_non_ws(s, i) <= i,
        end_non_ws(s, i) > 0 ==> !is_ws(s[end_non_ws(s, i) - 1]),
        forall|j: int| end_non_ws(s, i) <= j < i ==> is_ws(s[j]),
    decreases i,
{
    if i > 0 && is_ws(s[i - 1]) {
        lemma_end_non_ws_bounds(s, i - 1);
    }
}

fn char_is_ws(c: char) -> (r: bool)
    ensures
        r == is_ws(c),
{
    c == ' ' || c == '\t' || c == '\r' || c == '\n'
}

/// `s` with leading and trailing ASCII whitespace removed.
pub fn trim_ws<'a>(s: &'a str) -> (r: &'a str)
    ensures
        r@ == spec_trim(s@),
{
    let s_len: usize = s.unicode_len();
    let mut from: usize = 0;
    while from < s_len && char_is_ws(s.get_char(from))
        invariant
            0 <= from <= s_len,
            s_len == s@.len(),
            first_non_ws(s@, 0) == first_non_ws(s@, from as int),
        decreases s_len - from,
    {
        from = from + 1;
    }
    assert(first_non_ws(s@, 0) == from);
    let mut to: usize = s_len;
    while to > from && char_is_ws(s.get_char(to - 1))
        invariant
            from <= to <= s_len,
            s_len == s@.len(),
            from == first_non_ws(s@, 0),
            end_non_ws(s@, s@.len() as int) == end_non_ws(s@, to as int),
        decreases to,
    {
        to = to - 1;
    }
    proof {
        if to > from {
            assert(end_non_ws(s@, to as int) == to as int);
        } else {
            lemma_end_non_ws_bounds(s@, to as int);
            assert(spec_trim(s@) =~= Seq::<char>::empty());
        }
    }
    let r = s.substring_char(from, to);
    assert(r@ =~= spec_trim(s@));
    r
}

/// Appends one character to a string.
///
/// Relies on std's String::push: the pushed character becomes the last one.
#[verifier::external_body]
pub fn push_char(s: &mut String, c: char)
    ensures
        final(s)@ == old(s)@.push(c),
{
    s.push(c);
}

/// The decimal digit character for `d`.
pub open spec fn spec_digit(d: nat) -> char
    recommends
        d < 10,
{
    if d == 0 {
        '0'
    } else if d == 1 {
        '1'
    } else if d == 2 {
        '2'
    } else if d == 3 {
        '3'
    } else if d == 4 {
        '4'
    } else if d == 5 {
        '5'
    } else if d == 6 {
        '6'
    } else if d == 7 {
        '7'
    } else if d == 8 {
        '8'
    } else {
        '9'
    }
}

/// The decimal digits of `n`, most significant first.
pub open spec fn spec_dec(n: nat) -> Seq<char>
    decreases n,
{
    if n < 10 {
        seq![spec_digit(n)]
    } else {
        spec_dec(n / 10).push(spec_digit(n % 10))
    }
}

/// Renders a number in decimal.
///
/// Relies on std's integer formatting: decimal digits, most significant
/// first, no sign and no padding.
#[verifier::external_body]
pub fn usize_to_dec_string(n: usize) -> (r: String)
    ensures
        r@ == spec_dec(n as nat),
{
    format!("{}", n)
}

/// The method name carried by a registered function name: the last `::`
/// segment, then the last `.` segment of that.
pub open spec fn spec_method_from_name(s: Seq<char>) -> Seq<char> {
    after_last(after_last(s, "::"@), "."@)
}

/// Derive a method name from a function's registered name.
///
/// Reflection registries name functions by full path
/// (`my_game::Health::heal`), sometimes with a closure-style `.` suffix; the
/// method is the final segment.
pub fn method_from_name(name: &str) -> (r: &str)
    ensures
        r@ == spec_method_from_name(name@),
{
    let tail = suffix_after_last(name, "::");
    suffix_after_last(tail, ".")
}

/// A type path with a leading `&mut ` or `&` removed.
pub open spec fn spec_strip_ref(s: Seq<char>) -> Seq<char> {
    if has_prefix(s, "&mut "@) {
        s.skip("&mut "@.len() as int)
    } else if has_prefix(s, "&"@) {
        s.skip("&"@.len() as int)
    } else {
        s
    }
}

/// The canonical form of a type path: trimmed, without reference sigils, and
/// with the build-tool-internal crate prefix rewritten to the real package
/// name.
pub open spec fn spec_normalize_type_path(s: Seq<char>, pkg: Seq<char>) -> Seq<char> {
    let t = spec_strip_ref(spec_trim(s));
    if has_prefix(t, "build_script_build::"@) {
        pkg + "::"@ + t.skip("build_script_build::"@.len() as int)
    } else {
        t
    }
}

/// Normalize a type path before using it as a lookup key.
///
/// `pkg` is the real package name that replaces the `build_script_build`
/// crate root that a build script sees for its own types.
pub fn normalize_type_path(path: &str, pkg: &str) -> (r: String)
    ensures
        r@ == spec_normalize_type_path(path@, pkg@),
{
    let trimmed = trim_ws(path);
    let stripped = match strip_prefix_str(trimmed, "&mut ") {
        Some(rest) => rest,
        None => match strip_prefix_str(trimmed, "&") {
            Some(rest) => rest,
            None => trimmed,
        },
    };
    match strip_prefix_str(stripped, "build_script_build::") {
        Some(rest) => {
            let mut out = String::from_str(pkg);
            out.append("::");
            out.append(rest);
            assert(out@ =~= spec_normalize_type_path(path@, pkg@));
            out
        },
        None => String::from_str(stripped),
    }
}

/// Position of the first occurrence of `p` at or after position `i`, or -1.
pub open spec fn first_match_from(s: Seq<char>, p: Seq<char>, i: int) -> int
    decreases s.len() - i + 1,
{
    if i < 0 || i + p.len() > s.len() {
        -1
    } else if match_at(s, p, i) {
        i
    } else {
        first_match_from(s, p, i + 1)
    }
}

/// Position of the first occurrence of `p` in `s`, or -1.
pub open spec fn first_match(s: Seq<char>, p: Seq<char>) -> int {
    first_match_from(s, p, 0)
}

proof fn lemma_first_match_from_bounds(s: Seq<char>, p: Seq<char>, i: int)
    ensures
        first_match_from(s, p, i) == -1 || (i <= first_match_from(s, p, i) && match_at(
            s,
            p,
            first_match_from(s, p, i),
        )),
        forall|j: int| i <= j < first_match_from(s, p, i) ==> !match_at(s, p, j),
    decreases s.len() - i + 1,
{
    if !(i < 0 || i + p.len() > s.len()) && !match_at(s, p, i) {
        lemma_first_match_from_bounds(s, p, i + 1);
    }
}

/// Position of the first occurrence of `p` in `s`, if any.
pub fn find_first(s: &str, p: &str) -> (r: Option<usize>)
    ensures
        match r {
            Some(i) => i == first_match(s@, p@) && match_at(s@, p@, i as int),
            None => first_match(s@, p@) == -1,
        },
{
    let s_len: usize = s.unicode_len();
    let p_len: usize = p.unicode_len();
    if p_len > s_len {
        proof {
            lemma_first_match_from_bounds(s@, p@, 0);
        }
        return None;
    }
    let mut i: usize = 0;
    loop
        invariant
            s_len == s@.len(),
            p_len == p@.len(),
            p_len <= s_len,
            i as int <= s_len - p_len,
            first_match(s@, p@) == first_match_from(s@, p@, i as int),
        decreases s_len - i,
    {
        if is_match_at(s, p, i) {
            return Some(i);
        }
        if i == s_len - p_len {
            proof {
                assert(first_match_from(s@, p@, i + 1) == -1);
            }
            return None;
        }
        i = i + 1;
    }
}

/// Lower-case mapping of one character.
pub open spec fn spec_lower_char(c: char) -> char {
    if 'A' <= c && c <= 'Z' {
        ((c as u32) + 32) as char
    } else {
        c
    }
}

/// Upper-case mapping of one character.
pub open spec fn spec_upper_char(c: char) -> char {
    if 'a' <= c && c <= 'z' {
        ((c as u32) - 32) as char
    } else {
        c
    }
}

/// Lower-cases one character.
///
/// Relies on std's char::to_ascii_lowercase: an ASCII upper-case letter
/// maps to the letter 32 code points higher, everything else is unchanged.
#[verifier::external_body]
pub fn lower_char(c: char) -> (r: char)
    ensures
        r == spec_lower_char(c),
{
    c.to_ascii_lowercase()
}

/// Upper-cases one character.
///
/// Relies on std's char::to_ascii_uppercase: an ASCII lower-case letter
/// maps to the letter 32 code points lower, everything else is unchanged.
#[verifier::external_body]
pub fn upper_char(c: char) -> (r: char)
    ensures
        r == spec_upper_char(c),
{
    c.to_ascii_uppercase()
}

/// ASCII decimal digit.
pub open spec fn spec_is_digit(c: char) -> bool {
    '0' <= c && c <= '9'
}

/// True when the character is an ASCII decimal digit.
pub fn char_is_digit(c: char) -> (r: bool)
    ensures
        r == spec_is_digit(c),
{
    let u: u32 = c as u32;
    ('0' as u32) <= u && u <= ('9' as u32)
}

/// Decimal digit strings are never empty.
pub proof fn lemma_dec_len_pos(n: nat)
    ensures
        spec_dec(n).len() >= 1,
    decreases n,
{
    if n >= 10 {
        lemma_dec_len_pos(n / 10);
    }
}

/// Digit characters identify their digits.
pub proof fn lemma_digit_injective(x: nat, y: nat)
    requires
        x < 10,
        y < 10,
        spec_digit(x) == spec_digit(y),
    ensures
        x == y,
{
    if x != y {
        assert('0' != '1' && '0' != '2' && '1' != '2');
        assert(spec_digit(x) != spec_digit(y));
    }
}

/// Decimal rendering is injective: distinct numbers render as distinct
/// digit strings.
pub proof fn lemma_dec_injective(a: nat, b: nat)
    requires
        spec_dec(a) == spec_dec(b),
    ensures
        a == b,
    decreases a,
{
    if a < 10 && b < 10 {
        assert(spec_dec(a) == seq![spec_digit(a)]);
        assert(spec_dec(b) == seq![spec_digit(b)]);
        assert(seq![spec_digit(a)][0] == spec_digit(a));
        assert(seq![spec_digit(b)][0] == spec_digit(b));
        assert(spec_digit(a) == spec_digit(b));
        lemma_digit_injective(a, b);
    } else if a < 10 {
        lemma_dec_len_pos(b / 10);
        assert(spec_dec(b).len() >= 2);
    } else if b < 10 {
        lemma_dec_len_pos(a / 10);
        assert(spec_dec(a).len() >= 2);
    } else {
        assert(spec_dec(a) == spec_dec(a / 10).push(spec_digit(a % 10)));
        assert(spec_dec(b) == spec_dec(b / 10).push(spec_digit(b % 10)));
        assert(spec_dec(a / 10).push(spec_digit(a % 10)).last() == spec_digit(a % 10));
        assert(spec_dec(b / 10).push(spec_digit(b % 10)).last() == spec_digit(b % 10));
        assert(spec_digit(a % 10) == spec_digit(b % 10));
        lemma_digit_injective(a % 10, b % 10);
        assert(a % 10 == b % 10);
        assert(spec_dec(a).drop_last() =~= spec_dec(a / 10));
        assert(spec_dec(b).drop_last() =~= spec_dec(b / 10));
        lemma_dec_injective(a / 10, b / 10);
    }
}

/// ASCII upper-case letter.
pub open spec fn spec_is_upper(c: char) -> bool {
    'A' <= c && c <= 'Z'
}

/// ASCII lower-case letter.
pub open spec fn spec_is_lower(c: char) -> bool {
    'a' <= c && c <= 'z'
}

/// True when the character is an ASCII upper-case letter.
pub fn char_is_upper(c: char) -> (r: bool)
    ensures
        r == spec_is_upper(c),
{
    let u: u32 = c as u32;
    ('A' as u32) <= u && u <= ('Z' as u32)
}

/// True when the character is an ASCII lower-case letter.
pub fn char_is_lower(c: char) -> (r: bool)
    ensures
        r == spec_is_lower(c),
{
    let u: u32 = c as u32;
    ('a' as u32) <= u && u <= ('z' as u32)
}

} // verus!
