//! Character-sequence helpers shared by the URL, prompt and HTML logic.
//!
//! Every string is handled as its sequence of `char`s (`s@`). Each helper
//! states its result through a spec function over `Seq<char>`, written the way
//! the matching `str` method of std behaves.
use vstd::prelude::*;

verus! {

// ---------------------------------------------------------------------------
// Character classes
// ---------------------------------------------------------------------------

/// ASCII decimal digit (`char::is_ascii_digit`).
pub open spec fn is_digit(c: char) -> bool {
    '0' <= c && c <= '9'
}

/// ASCII letter or digit (`char::is_ascii_alphanumeric`).
pub open spec fn is_alnum(c: char) -> bool {
    is_digit(c) || ('a' <= c && c <= 'z') || ('A' <= c && c <= 'Z')
}

/// ASCII whitespace (`char::is_ascii_whitespace`): space, tab, LF, FF, CR.
pub open spec fn is_ascii_ws(c: char) -> bool {
    c == ' ' || c == '\t' || c == '\n' || c == '\x0C' || c == '\r'
}

/// The Unicode `White_Space` property (`char::is_whitespace`).
pub open spec fn is_ws(c: char) -> bool {
    let u = c as u32;
    (0x09 <= u && u <= 0x0D) || u == 0x20 || u == 0x85 || u == 0xA0 || u == 0x1680 || (0x2000 <= u
        && u <= 0x200A) || u == 0x2028 || u == 0x2029 || u == 0x202F || u == 0x205F || u == 0x3000
}

/// ASCII lowercase of one character (`char::to_ascii_lowercase`).
pub open spec fn lower_char(c: char) -> char {
    if 'A' <= c && c <= 'Z' {
        ((c as u32) + 32) as char
    } else {
        c
    }
}

/// Whether `c` is an ASCII character.
pub open spec fn is_ascii_char(c: char) -> bool {
    (c as u32) < 128
}

/// Every character of `s` is ASCII.
pub open spec fn all_ascii(s: Seq<char>) -> bool {
    forall|i: int| 0 <= i < s.len() ==> is_ascii_char(#[trigger] s[i])
}

/// Every character of `s` is an ASCII digit.
pub open spec fn all_digits(s: Seq<char>) -> bool {
    forall|i: int| 0 <= i < s.len() ==> is_digit(#[trigger] s[i])
}

/// Length in bytes of the UTF-8 encoding of `c` (`char::len_utf8`).
pub open spec fn utf8_len(c: char) -> nat {
    let u = c as u32;
    if u < 0x80 {
        1
    } else if u < 0x800 {
        2
    } else if u < 0x10000 {
        3
    } else {
        4
    }
}

/// Length in bytes of the UTF-8 encoding of `s` (`str::len`).
pub open spec fn byte_len(s: Seq<char>) -> nat
    decreases s.len(),
{
    if s.len() == 0 {
        0
    } else {
        byte_len(s.drop_last()) + utf8_len(s.last())
    }
}

pub fn char_is_digit(c: char) -> (r: bool)
    ensures
        r == is_digit(c),
{
    '0' <= c && c <= '9'
}

pub fn char_is_alnum(c: char) -> (r: bool)
    ensures
        r == is_alnum(c),
{
    ('0' <= c && c <= '9') || ('a' <= c && c <= 'z') || ('A' <= c && c <= 'Z')
}

pub fn char_is_ascii_ws(c: char) -> (r: bool)
    ensures
        r == is_ascii_ws(c),
{
    c == ' ' || c == '\t' || c == '\n' || c == '\x0C' || c == '\r'
}

/// The Unicode `White_Space` property, as `char::is_whitespace` tests it.
pub fn char_is_ws(c: char) -> (r: bool)
    ensures
        r == is_ws(c),
{
    let u = c as u32;
    (0x09 <= u && u <= 0x0D) || u == 0x20 || u == 0x85 || u == 0xA0 || u == 0x1680 || (0x2000 <= u
        && u <= 0x200A) || u == 0x2028 || u == 0x2029 || u == 0x202F || u == 0x205F || u == 0x3000
}

pub fn char_lower(c: char) -> (r: char)
    ensures
        r == lower_char(c),
{
    if 'A' <= c && c <= 'Z' {
        let b: u8 = c as u8;
        (b + 32) as char
    } else {
        c
    }
}

pub fn char_utf8_len(c: char) -> (r: usize)
    ensures
        r == utf8_len(c),
{
    let u = c as u32;
    if u < 0x80 {
        1
    } else if u < 0x800 {
        2
    } else if u < 0x10000 {
        3
    } else {
        4
    }
}

// ---------------------------------------------------------------------------
// Conversions between `str` / `String` and character vectors
// ---------------------------------------------------------------------------

/// The characters of `s`, in order.
pub fn chars_of(s: &str) -> (r: Vec<char>)
    ensures
        r@ == s@,
{
    let mut out: Vec<char> = Vec::new();
    for c in it: s.chars()
        invariant
            out@ == it.seq().take(it.index() as int),
    {
        out.push(c);
    }
    out
}

/// Appends one character to a `String` (`String::push`).
#[verifier::external_body]
fn push_char(s: &mut String, c: char)
    ensures
        final(s)@ == old(s)@.push(c),
{
    s.push(c);
}

/// The string made of the characters of `v`.
pub fn string_of(v: &[char]) -> (r: String)
    ensures
        r@ == v@,
{
    let mut s = String::new();
    let mut i: usize = 0;
    while i < v.len()
        invariant
            i <= v.len(),
            s@ == v@.take(i as int),
        decreases v.len() - i,
    {
        push_char(&mut s, v[i]);
        assert(v@.take(i as int).push(v@[i as int]) =~= v@.take(i + 1));
        i += 1;
    }
    assert(v@.take(v.len() as int) =~= v@);
    s
}

/// The characters of a string literal or borrowed string, as a vector.
pub fn lit(s: &str) -> (r: Vec<char>)
    ensures
        r@ == s@,
{
    chars_of(s)
}

/// `s[a..b]` as a new vector.
pub fn slice_of(s: &[char], a: usize, b: usize) -> (r: Vec<char>)
    requires
        a <= b <= s@.len(),
    ensures
        r@ == s@.subrange(a as int, b as int),
{
    let mut out: Vec<char> = Vec::new();
    let mut i = a;
    while i < b
        invariant
            a <= i <= b <= s@.len(),
            out@ == s@.subrange(a as int, i as int),
        decreases b - i,
    {
        out.push(s[i]);
        assert(s@.subrange(a as int, i as int).push(s@[i as int]) =~= s@.subrange(
            a as int,
            i + 1,
        ));
        i += 1;
    }
    out
}

/// Appends all of `s` to `out`.
pub fn push_all(out: &mut Vec<char>, s: &[char])
    ensures
        final(out)@ == old(out)@ + s@,
{
    let ghost start = out@;
    let mut i: usize = 0;
    while i < s.len()
        invariant
            i <= s@.len(),
            out@ == start + s@.take(i as int),
        decreases s.len() - i,
    {
        out.push(s[i]);
        assert(start + s@.take(i as int).push(s@[i as int]) =~= start + s@.take(i + 1));
        i += 1;
    }
    assert(s@.take(s@.len() as int) =~= s@);
}

/// Whether the two sequences are equal.
pub fn eq(a: &[char], b: &[char]) -> (r: bool)
    ensures
        r == (a@ == b@),
{
    if a.len() != b.len() {
        return false;
    }
    let mut i: usize = 0;
    while i < a.len()
        invariant
            a@.len() == b@.len(),
            i <= a@.len(),
            a@.take(i as int) == b@.take(i as int),
        decreases a.len() - i,
    {
        if a[i] != b[i] {
            return false;
        }
        assert(a@.take(i + 1) =~= a@.take(i as int).push(a@[i as int]));
        assert(b@.take(i + 1) =~= b@.take(i as int).push(b@[i as int]));
        i += 1;
    }
    assert(a@ =~= a@.take(a@.len() as int));
    assert(b@ =~= b@.take(b@.len() as int));
    true
}

/// Whether `s` equals the string `t`.
pub fn eq_str(s: &[char], t: &str) -> (r: bool)
    ensures
        r == (s@ == t@),
{
    let v = chars_of(t);
    eq(s, v.as_slice())
}

// ---------------------------------------------------------------------------
// Case mapping
// ---------------------------------------------------------------------------

/// ASCII lowercase of a sequence (`str::to_ascii_lowercase`).
pub open spec fn lower(s: Seq<char>) -> Seq<char> {
    s.map_values(|c: char| lower_char(c))
}

pub fn to_lower(s: &[char]) -> (r: Vec<char>)
    ensures
        r@ == lower(s@),
{
    let mut out: Vec<char> = Vec::new();
    let mut i: usize = 0;
    while i < s.len()
        invariant
            i <= s@.len(),
            out@ =~= lower(s@.take(i as int)),
        decreases s.len() - i,
    {
        out.push(char_lower(s[i]));
        assert(lower(s@.take(i + 1)) =~= lower(s@.take(i as int)).push(lower_char(s@[i as int])));
        i += 1;
    }
    assert(s@.take(s@.len() as int) =~= s@);
    out
}

/// Whether `a` and `b` are equal up to ASCII case (`str::eq_ignore_ascii_case`).
pub open spec fn eq_ignore_case(a: Seq<char>, b: Seq<char>) -> bool {
    lower(a) == lower(b)
}

pub fn eq_ignore_ascii_case(a: &[char], b: &[char]) -> (r: bool)
    ensures
        r == eq_ignore_case(a@, b@),
{
    let la = to_lower(a);
    let lb = to_lower(b);
    eq(la.as_slice(), lb.as_slice())
}

// ---------------------------------------------------------------------------
// Prefixes, suffixes and search
// ---------------------------------------------------------------------------

/// `s.starts_with(p)`.
pub open spec fn starts_with(s: Seq<char>, p: Seq<char>) -> bool {
    p.len() <= s.len() && s.take(p.len() as int) == p
}

/// `s.ends_with(p)`.
pub open spec fn ends_with(s: Seq<char>, p: Seq<char>) -> bool {
    p.len() <= s.len() && s.skip(s.len() - p.len()) == p
}

/// `p` occurs in `s` at index `i`.
pub open spec fn match_at(s: Seq<char>, p: Seq<char>, i: int) -> bool {
    0 <= i && i + p.len() <= s.len() && s.subrange(i, i + p.len()) == p
}

/// First index `>= i` at which `p` occurs in `s`.
pub open spec fn find_from(s: Seq<char>, p: Seq<char>, i: int) -> Option<int>
    decreases s.len() + 1 - i,
{
    if i < 0 || i + p.len() > s.len() {
        None
    } else if p.len() == 0 || match_at(s, p, i) {
        Some(i)
    } else {
        find_from(s, p, i + 1)
    }
}

/// `s.find(p)`: first index at which `p` occurs.
pub open spec fn find(s: Seq<char>, p: Seq<char>) -> Option<int> {
    find_from(s, p, 0)
}

/// `s.contains(p)`.
pub open spec fn contains(s: Seq<char>, p: Seq<char>) -> bool {
    find(s, p) is Some
}

/// Last index `<= i` at which `p` occurs in `s`.
pub open spec fn rfind_upto(s: Seq<char>, p: Seq<char>, i: int) -> Option<int>
    decreases i + 1,
{
    if i < 0 {
        None
    } else if match_at(s, p, i) {
        Some(i)
    } else {
        rfind_upto(s, p, i - 1)
    }
}

/// `s.rfind(p)`: last index at which `p` occurs.
pub open spec fn rfind(s: Seq<char>, p: Seq<char>) -> Option<int> {
    rfind_upto(s, p, s.len() - p.len())
}

pub fn starts_with_at(s: &[char], p: &[char], i: usize) -> (r: bool)
    ensures
        r == match_at(s@, p@, i as int),
{
    if i > s.len() || p.len() > s.len() - i {
        return false;
    }
    let n = s.len();
    let mut k: usize = 0;
    while k < p.len()
        invariant
            n == s@.len(),
            i + p@.len() <= s@.len(),
            k <= p@.len(),
            s@.subrange(i as int, i + k) == p@.take(k as int),
        decreases p.len() - k,
    {
        assert(i + k < n);
        if s[i + k] != p[k] {
            assert(s@.subrange(i as int, i + p@.len())[k as int] == s@[i + k]);
            return false;
        }
        assert(s@.subrange(i as int, i + k + 1) =~= s@.subrange(i as int, i + k).push(
            s@[i + k],
        ));
        assert(p@.take(k + 1) =~= p@.take(k as int).push(p@[k as int]));
        k += 1;
    }
    assert(p@.take(p@.len() as int) =~= p@);
    true
}

pub fn has_prefix(s: &[char], p: &[char]) -> (r: bool)
    ensures
        r == starts_with(s@, p@),
{
    let r = starts_with_at(s, p, 0);
    assert(s@.subrange(0, p@.len() as int) =~= s@.take(p@.len() as int));
    r
}

pub fn has_suffix(s: &[char], p: &[char]) -> (r: bool)
    ensures
        r == ends_with(s@, p@),
{
    if p.len() > s.len() {
        return false;
    }
    let r = starts_with_at(s, p, s.len() - p.len());
    assert(s@.subrange(s@.len() - p@.len(), s@.len() as int) =~= s@.skip(s@.len() - p@.len()));
    r
}

pub fn has_prefix_str(s: &[char], p: &str) -> (r: bool)
    ensures
        r == starts_with(s@, p@),
{
    let v = chars_of(p);
    has_prefix(s, v.as_slice())
}

pub fn has_suffix_str(s: &[char], p: &str) -> (r: bool)
    ensures
        r == ends_with(s@, p@),
{
    let v = chars_of(p);
    has_suffix(s, v.as_slice())
}

pub fn find_from_exec(s: &[char], p: &[char], i: usize) -> (r: Option<usize>)
    ensures
        match r {
            Some(j) => find_from(s@, p@, i as int) == Some(j as int) && match_at(s@, p@, j as int),
            None => find_from(s@, p@, i as int) is None,
        },
{
    let mut j = i;
    while j <= s.len() && p.len() <= s.len() - j
        invariant
            i <= j,
            find_from(s@, p@, i as int) == find_from(s@, p@, j as int),
        decreases s.len() + 1 - j,
    {
        if p.len() == 0 || starts_with_at(s, p, j) {
            if p.len() == 0 {
                assert(s@.subrange(j as int, j + p@.len()) =~= p@);
            }
            return Some(j);
        }
        j += 1;
    }
    None
}

pub fn find_exec(s: &[char], p: &[char]) -> (r: Option<usize>)
    ensures
        match r {
            Some(j) => find(s@, p@) == Some(j as int) && match_at(s@, p@, j as int),
            None => find(s@, p@) is None,
        },
{
    find_from_exec(s, p, 0)
}

pub fn find_str(s: &[char], p: &str) -> (r: Option<usize>)
    ensures
        match r {
            Some(j) => find(s@, p@) == Some(j as int) && match_at(s@, p@, j as int),
            None => find(s@, p@) is None,
        },
{
    let v = chars_of(p);
    find_exec(s, v.as_slice())
}

pub fn contains_exec(s: &[char], p: &[char]) -> (r: bool)
    ensures
        r == contains(s@, p@),
{
    find_exec(s, p).is_some()
}

pub fn contains_str(s: &[char], p: &str) -> (r: bool)
    ensures
        r == contains(s@, p@),
{
    find_str(s, p).is_some()
}

pub fn rfind_exec(s: &[char], p: &[char]) -> (r: Option<usize>)
    ensures
        match r {
            Some(j) => rfind(s@, p@) == Some(j as int),
            None => rfind(s@, p@) is None,
        },
{
    if p.len() > s.len() {
        assert(rfind_upto(s@, p@, s@.len() - p@.len()) is None);
        return None;
    }
    let mut j: usize = s.len() - p.len();
    loop
        invariant
            j <= s@.len() - p@.len(),
            rfind(s@, p@) == rfind_upto(s@, p@, j as int),
        decreases j,
    {
        if starts_with_at(s, p, j) {
            return Some(j);
        }
        if j == 0 {
            assert(rfind_upto(s@, p@, -1) is None);
            return None;
        }
        j -= 1;
    }
}

pub fn rfind_str(s: &[char], p: &str) -> (r: Option<usize>)
    ensures
        match r {
            Some(j) => rfind(s@, p@) == Some(j as int),
            None => rfind(s@, p@) is None,
        },
{
    let v = chars_of(p);
    rfind_exec(s, v.as_slice())
}

/// A found index lies inside `s`, with the pattern there.
pub proof fn lemma_find_from_sound(s: Seq<char>, p: Seq<char>, i: int)
    requires
        0 <= i,
    ensures
        find_from(s, p, i) matches Some(j) ==> i <= j && match_at(s, p, j) && (forall|k: int|
            i <= k < j ==> !match_at(s, p, k)),
        find_from(s, p, i) is None ==> forall|k: int| i <= k ==> !match_at(s, p, k),
    decreases s.len() + 1 - i,
{
    if i < 0 || i + p.len() > s.len() {
        if i >= 0 {
            assert forall|k: int| i <= k implies !match_at(s, p, k) by {}
        }
    } else if p.len() == 0 || match_at(s, p, i) {
        if p.len() == 0 {
            assert(s.subrange(i, i + p.len()) =~= p);
        }
    } else {
        lemma_find_from_sound(s, p, i + 1);
    }
}

/// A reverse search finds the last occurrence at or before `i`.
pub proof fn lemma_rfind_upto_sound(s: Seq<char>, p: Seq<char>, i: int)
    ensures
        rfind_upto(s, p, i) matches Some(j) ==> 0 <= j <= i && match_at(s, p, j) && (forall|k: int|
            j < k <= i ==> !match_at(s, p, k)),
        rfind_upto(s, p, i) is None ==> forall|k: int| k <= i ==> !match_at(s, p, k),
    decreases i + 1,
{
    if i >= 0 && !match_at(s, p, i) {
        lemma_rfind_upto_sound(s, p, i - 1);
    }
}

// ---------------------------------------------------------------------------
// Trimming
// ---------------------------------------------------------------------------

/// Index of the first non-whitespace character at or after `i`.
pub open spec fn lead(s: Seq<char>, i: int) -> int
    decreases s.len() - i,
{
    if 0 <= i < s.len() && is_ws(s[i]) {
        lead(s, i + 1)
    } else {
        i
    }
}

/// End of `s[lo..j]` once trailing whitespace is dropped.
pub open spec fn trail(s: Seq<char>, lo: int, j: int) -> int
    decreases j - lo,
{
    if lo < j && j <= s.len() && is_ws(s[j - 1]) {
        trail(s, lo, j - 1)
    } else {
        j
    }
}

/// `s.trim_end()`.
pub open spec fn trim_end(s: Seq<char>) -> Seq<char> {
    s.subrange(0, trail(s, 0, s.len() as int))
}

/// `s.trim()`: whitespace dropped at both ends.
pub open spec fn trim(s: Seq<char>) -> Seq<char> {
    s.subrange(lead(s, 0), trail(s, lead(s, 0), s.len() as int))
}

pub proof fn lemma_lead_bounds(s: Seq<char>, i: int)
    requires
        0 <= i <= s.len(),
    ensures
        i <= lead(s, i) <= s.len(),
        forall|k: int| i <= k < lead(s, i) ==> is_ws(#[trigger] s[k]),
        lead(s, i) < s.len() ==> !is_ws(s[lead(s, i)]),
    decreases s.len() - i,
{
    if i < s.len() && is_ws(s[i]) {
        lemma_lead_bounds(s, i + 1);
    }
}

pub proof fn lemma_trail_bounds(s: Seq<char>, lo: int, j: int)
    requires
        0 <= lo <= j <= s.len(),
    ensures
        lo <= trail(s, lo, j) <= j,
        forall|k: int| trail(s, lo, j) <= k < j ==> is_ws(#[trigger] s[k]),
        trail(s, lo, j) > lo ==> !is_ws(s[trail(s, lo, j) - 1]),
    decreases j - lo,
{
    if lo < j && is_ws(s[j - 1]) {
        lemma_trail_bounds(s, lo, j - 1);
    }
}

/// The bounds of `trim(s)` inside `s`.
pub fn trim_bounds(s: &[char]) -> (r: (usize, usize))
    ensures
        r.0 == lead(s@, 0),
        r.1 == trail(s@, lead(s@, 0), s@.len() as int),
        r.0 <= r.1 <= s@.len(),
{
    let mut a: usize = 0;
    while a < s.len() && char_is_ws(s[a])
        invariant
            a <= s@.len(),
            lead(s@, 0) == lead(s@, a as int),
        decreases s.len() - a,
    {
        a += 1;
    }
    let mut b: usize = s.len();
    while b > a && char_is_ws(s[b - 1])
        invariant
            a <= b <= s@.len(),
            trail(s@, a as int, s@.len() as int) == trail(s@, a as int, b as int),
        decreases b,
    {
        b -= 1;
    }
    proof {
        lemma_trail_bounds(s@, a as int, s@.len() as int);
    }
    (a, b)
}

pub fn trim_exec(s: &[char]) -> (r: Vec<char>)
    ensures
        r@ == trim(s@),
{
    let (a, b) = trim_bounds(s);
    slice_of(s, a, b)
}

/// End of `s[..j]` once trailing copies of `c` are dropped.
pub open spec fn trail_char(s: Seq<char>, c: char, j: int) -> int
    decreases j,
{
    if 0 < j && j <= s.len() && s[j - 1] == c {
        trail_char(s, c, j - 1)
    } else {
        j
    }
}

/// `s.trim_end_matches(c)`.
pub open spec fn trim_end_char(s: Seq<char>, c: char) -> Seq<char> {
    s.take(trail_char(s, c, s.len() as int))
}

pub proof fn lemma_trail_char_bounds(s: Seq<char>, c: char, j: int)
    requires
        0 <= j <= s.len(),
    ensures
        0 <= trail_char(s, c, j) <= j,
        forall|k: int| trail_char(s, c, j) <= k < j ==> #[trigger] s[k] == c,
        trail_char(s, c, j) > 0 ==> s[trail_char(s, c, j) - 1] != c,
    decreases j,
{
    if 0 < j && s[j - 1] == c {
        lemma_trail_char_bounds(s, c, j - 1);
    }
}

pub fn trim_end_char_exec(s: &[char], c: char) -> (r: Vec<char>)
    ensures
        r@ == trim_end_char(s@, c),
{
    let mut b: usize = s.len();
    while b > 0 && s[b - 1] == c
        invariant
            b <= s@.len(),
            trail_char(s@, c, s@.len() as int) == trail_char(s@, c, b as int),
        decreases b,
    {
        b -= 1;
    }
    proof {
        lemma_trail_char_bounds(s@, c, b as int);
    }
    assert(s@.subrange(0, b as int) =~= s@.take(b as int));
    slice_of(s, 0, b)
}

// ---------------------------------------------------------------------------
// Splitting and joining
// ---------------------------------------------------------------------------

/// Pieces of `s[st..]` cut at every `c`, the scan being at `i`.
pub open spec fn split_acc(s: Seq<char>, c: char, i: int, st: int) -> Seq<Seq<char>>
    decreases s.len() - i,
{
    if i >= s.len() {
        seq![s.subrange(st, s.len() as int)]
    } else if s[i] == c {
        seq![s.subrange(st, i)].add(split_acc(s, c, i + 1, i + 1))
    } else {
        split_acc(s, c, i + 1, st)
    }
}

/// `s.split(c)`: the pieces between occurrences of `c` (never empty).
pub open spec fn split(s: Seq<char>, c: char) -> Seq<Seq<char>> {
    split_acc(s, c, 0, 0)
}

pub proof fn lemma_split_acc_nonempty(s: Seq<char>, c: char, i: int, st: int)
    ensures
        split_acc(s, c, i, st).len() >= 1,
    decreases s.len() - i,
{
    if i < s.len() {
        if s[i] == c {
            lemma_split_acc_nonempty(s, c, i + 1, i + 1);
        } else {
            lemma_split_acc_nonempty(s, c, i + 1, st);
        }
    }
}

pub fn split_exec(s: &[char], c: char) -> (r: Vec<Vec<char>>)
    ensures
        views(r@) == split(s@, c),
{
    let mut out: Vec<Vec<char>> = Vec::new();
    let mut st: usize = 0;
    let mut i: usize = 0;
    while i < s.len()
        invariant
            st <= i <= s@.len(),
            views(out@) + split_acc(s@, c, i as int, st as int) == split(
                s@,
                c,
            ),
        decreases s.len() - i,
    {
        if s[i] == c {
            let piece = slice_of(s, st, i);
            let ghost before = views(out@);
            out.push(piece);
            assert(views(out@) =~= before.push(piece@));
            assert(before.push(piece@) + split_acc(s@, c, i + 1, i + 1) =~= before + (seq![
                piece@,
            ] + split_acc(s@, c, i + 1, i + 1)));
            st = i + 1;
        }
        i += 1;
    }
    let piece = slice_of(s, st, s.len());
    let ghost before = views(out@);
    out.push(piece);
    assert(views(out@) =~= before.push(piece@));
    assert(before.push(piece@) =~= before + seq![piece@]);
    out
}

/// Whitespace-separated tokens of `s[i..]`; `st` is the start of the token being read, or -1.
pub open spec fn ws_tokens(s: Seq<char>, i: int, st: int) -> Seq<Seq<char>>
    decreases s.len() - i,
{
    if i >= s.len() {
        if st >= 0 {
            seq![s.subrange(st, s.len() as int)]
        } else {
            seq![]
        }
    } else if is_ws(s[i]) {
        if st >= 0 {
            seq![s.subrange(st, i)].add(ws_tokens(s, i + 1, -1))
        } else {
            ws_tokens(s, i + 1, -1)
        }
    } else {
        ws_tokens(s, i + 1, if st >= 0 { st } else { i })
    }
}

/// `s.split_whitespace()`.
pub open spec fn words(s: Seq<char>) -> Seq<Seq<char>> {
    ws_tokens(s, 0, -1)
}

pub fn words_exec(s: &[char]) -> (r: Vec<Vec<char>>)
    ensures
        views(r@) == words(s@),
{
    let mut out: Vec<Vec<char>> = Vec::new();
    let mut st: usize = 0;
    let mut in_tok = false;
    let mut i: usize = 0;
    while i < s.len()
        invariant
            i <= s@.len(),
            in_tok ==> st <= i,
            views(out@) + ws_tokens(
                s@,
                i as int,
                if in_tok {
                    st as int
                } else {
                    -1
                },
            ) == words(s@),
        decreases s.len() - i,
    {
        if char_is_ws(s[i]) {
            if in_tok {
                let piece = slice_of(s, st, i);
                let ghost before = views(out@);
                out.push(piece);
                assert(views(out@) =~= before.push(piece@));
                assert(before.push(piece@) + ws_tokens(s@, i + 1, -1) =~= before + (seq![piece@]
                    + ws_tokens(s@, i + 1, -1)));
                in_tok = false;
            }
        } else {
            if !in_tok {
                st = i;
                in_tok = true;
            }
        }
        i += 1;
    }
    if in_tok {
        let piece = slice_of(s, st, s.len());
        let ghost before = views(out@);
        out.push(piece);
        assert(views(out@) =~= before.push(piece@));
        assert(before.push(piece@) =~= before + seq![piece@]);
    } else {
        assert(views(out@) + seq![] =~= views(out@));
    }
    out
}

/// The pieces of `parts` joined with `sep` (`[..].join(sep)`).
pub open spec fn join(parts: Seq<Seq<char>>, sep: Seq<char>) -> Seq<char>
    decreases parts.len(),
{
    if parts.len() == 0 {
        seq![]
    } else if parts.len() == 1 {
        parts[0]
    } else {
        join(parts.drop_last(), sep) + sep + parts.last()
    }
}

pub fn join_exec(parts: &Vec<Vec<char>>, sep: &[char]) -> (r: Vec<char>)
    ensures
        r@ == join(views(parts@), sep@),
{
    let ghost pv = views(parts@);
    let mut out: Vec<char> = Vec::new();
    let mut i: usize = 0;
    while i < parts.len()
        invariant
            i <= parts@.len(),
            pv == views(parts@),
            out@ == join(pv.take(i as int), sep@),
        decreases parts.len() - i,
    {
        if i > 0 {
            push_all(&mut out, sep);
        }
        push_all(&mut out, parts[i].as_slice());
        assert(pv.take(i + 1).drop_last() =~= pv.take(i as int));
        if i == 0 {
            assert(out@ =~= pv.take(1)[0]);
        }
        i += 1;
    }
    assert(pv.take(parts@.len() as int) =~= pv);
    out
}

/// Replaces every character of `set` in `s` with `to`.
pub open spec fn replace_chars(s: Seq<char>, set: Seq<char>, to: char) -> Seq<char> {
    s.map_values(|c: char| if set.contains(c) { to } else { c })
}

pub fn replace_chars_exec(s: &[char], set: &[char], to: char) -> (r: Vec<char>)
    ensures
        r@ == replace_chars(s@, set@, to),
{
    let mut out: Vec<char> = Vec::new();
    let mut i: usize = 0;
    while i < s.len()
        invariant
            i <= s@.len(),
            out@ =~= replace_chars(s@.take(i as int), set@, to),
        decreases s.len() - i,
    {
        let c = s[i];
        let mut hit = false;
        let mut k: usize = 0;
        while k < set.len()
            invariant
                k <= set@.len(),
                hit == set@.take(k as int).contains(c),
            decreases set.len() - k,
        {
            if set[k] == c {
                hit = true;
            }
            assert(set@.take(k + 1) =~= set@.take(k as int).push(set@[k as int]));
            proof {
                let t0 = set@.take(k as int);
                let t1 = set@.take(k + 1);
                if t0.contains(c) {
                    let w = choose|w: int| 0 <= w < t0.len() && t0[w] == c;
                    assert(t1[w] == c);
                }
                if set@[k as int] == c {
                    assert(t1[k as int] == c);
                }
                if t1.contains(c) {
                    let w = choose|w: int| 0 <= w < t1.len() && t1[w] == c;
                    if w < k {
                        assert(t0[w] == c);
                    }
                }
            }
            k += 1;
        }
        assert(set@.take(set@.len() as int) =~= set@);
        out.push(if hit { to } else { c });
        assert(replace_chars(s@.take(i + 1), set@, to) =~= replace_chars(
            s@.take(i as int),
            set@,
            to,
        ).push(if set@.contains(c) { to } else { c }));
        i += 1;
    }
    assert(s@.take(s@.len() as int) =~= s@);
    out
}

// ---------------------------------------------------------------------------
// Decimal numbers
// ---------------------------------------------------------------------------

/// The ASCII digit for `d < 10`.
pub open spec fn digit_char(d: nat) -> char {
    (('0' as u32) + d) as char
}

/// Decimal representation of `n` without leading zeros (`Display` of an unsigned integer).
pub open spec fn dec(n: nat) -> Seq<char>
    decreases n,
{
    if n < 10 {
        seq![digit_char(n)]
    } else {
        dec(n / 10).push(digit_char(n % 10))
    }
}

/// `n` in decimal, padded with leading zeros to at least `w` digits (`{:0w}`).
pub open spec fn dec_pad(n: nat, w: nat) -> Seq<char> {
    let d = dec(n);
    if d.len() >= w {
        d
    } else {
        Seq::new((w - d.len()) as nat, |i: int| '0') + d
    }
}

/// Decimal representation of a signed integer (`Display` of `i32`).
pub open spec fn dec_int(n: int) -> Seq<char> {
    if n < 0 {
        seq!['-'] + dec((-n) as nat)
    } else {
        dec(n as nat)
    }
}

pub proof fn lemma_dec_digits(n: nat)
    ensures
        dec(n).len() >= 1,
        all_digits(dec(n)),
    decreases n,
{
    if n >= 10 {
        lemma_dec_digits(n / 10);
        assert forall|i: int| 0 <= i < dec(n).len() implies is_digit(#[trigger] dec(n)[i]) by {
            if i < dec(n / 10).len() {
                assert(dec(n)[i] == dec(n / 10)[i]);
            }
        }
    }
}

fn digit_of(d: u64) -> (c: char)
    requires
        d < 10,
    ensures
        c == digit_char(d as nat),
{
    let b: u8 = d as u8;
    (b + 48) as char
}

/// Decimal representation of `n`.
pub fn dec_exec(n: u64) -> (r: Vec<char>)
    ensures
        r@ == dec(n as nat),
    decreases n,
{
    if n < 10 {
        let mut v: Vec<char> = Vec::new();
        v.push(digit_of(n));
        assert(v@ =~= seq![digit_char(n as nat)]);
        v
    } else {
        let mut v = dec_exec(n / 10);
        v.push(digit_of(n % 10));
        v
    }
}

/// `n` padded with zeros to `w` digits.
pub fn dec_pad_exec(n: u64, w: usize) -> (r: Vec<char>)
    ensures
        r@ == dec_pad(n as nat, w as nat),
{
    let d = dec_exec(n);
    if d.len() >= w {
        d
    } else {
        let mut out: Vec<char> = Vec::new();
        let k = w - d.len();
        let mut i: usize = 0;
        while i < k
            invariant
                i <= k,
                out@ =~= Seq::new(i as nat, |j: int| '0'),
            decreases k - i,
        {
            out.push('0');
            i += 1;
        }
        push_all(&mut out, d.as_slice());
        out
    }
}

/// Decimal representation of a signed 32-bit integer.
pub fn dec_i32_exec(n: i32) -> (r: Vec<char>)
    ensures
        r@ == dec_int(n as int),
{
    if n < 0 {
        let m: u64 = (0i64 - (n as i64)) as u64;
        let d = dec_exec(m);
        let mut out: Vec<char> = Vec::new();
        out.push('-');
        push_all(&mut out, d.as_slice());
        assert(out@ =~= seq!['-'] + d@);
        out
    } else {
        dec_exec(n as u64)
    }
}

/// The value of a run of decimal digits.
pub open spec fn digits_value(s: Seq<char>) -> int
    decreases s.len(),
{
    if s.len() == 0 {
        0
    } else {
        digits_value(s.drop_last()) * 10 + ((s.last() as u32) - ('0' as u32))
    }
}

/// `s.parse::<uN>()` for an unsigned type whose maximum is `max`: an optional `+`,
/// then one or more ASCII digits whose value is at most `max`.
pub open spec fn parse_unsigned(s: Seq<char>, max: int) -> Option<int> {
    let body = if s.len() > 0 && s[0] == '+' {
        s.drop_first()
    } else {
        s
    };
    if body.len() > 0 && all_digits(body) && digits_value(body) <= max {
        Some(digits_value(body))
    } else {
        None
    }
}

/// `s.parse::<i32>()`: an optional sign, then one or more ASCII digits, in range.
pub open spec fn parse_i32(s: Seq<char>) -> Option<int> {
    if s.len() > 0 && s[0] == '-' {
        let body = s.drop_first();
        if body.len() > 0 && all_digits(body) && digits_value(body) <= 0x8000_0000 {
            Some(-digits_value(body))
        } else {
            None
        }
    } else {
        parse_unsigned(s, 0x7FFF_FFFF)
    }
}

pub proof fn lemma_digits_value_nonneg(s: Seq<char>)
    requires
        all_digits(s),
    ensures
        digits_value(s) >= 0,
    decreases s.len(),
{
    if s.len() > 0 {
        lemma_digits_value_nonneg(s.drop_last());
    }
}

/// Value of `s[a..]` as digits, capped at `cap + 1`; `None` if some character is not a digit.
fn digits_capped(s: &[char], a: usize, cap: u128) -> (r: Option<u128>)
    requires
        a <= s@.len(),
        cap < 0x1_0000_0000_0000_0000_0000,
    ensures
        match r {
            Some(v) => all_digits(s@.skip(a as int)) && v as int == if digits_value(
                s@.skip(a as int),
            ) <= cap {
                digits_value(s@.skip(a as int))
            } else {
                cap + 1
            },
            None => !all_digits(s@.skip(a as int)),
        },
{
    let ghost body = s@.skip(a as int);
    let mut v: u128 = 0;
    let mut i: usize = a;
    while i < s.len()
        invariant
            a <= i <= s@.len(),
            body == s@.skip(a as int),
            cap < 0x1_0000_0000_0000_0000_0000,
            all_digits(s@.subrange(a as int, i as int)),
            v as int == if digits_value(s@.subrange(a as int, i as int)) <= cap {
                digits_value(s@.subrange(a as int, i as int))
            } else {
                cap + 1
            },
        decreases s.len() - i,
    {
        let c = s[i];
        let ghost pre = s@.subrange(a as int, i as int);
        let ghost nxt = s@.subrange(a as int, i + 1);
        assert(nxt.drop_last() =~= pre);
        if !char_is_digit(c) {
            assert(!all_digits(body)) by {
                assert(body[i - a] == c);
            }
            return None;
        }
        assert(all_digits(nxt)) by {
            assert forall|k: int| 0 <= k < nxt.len() implies is_digit(#[trigger] nxt[k]) by {
                if k < pre.len() {
                    assert(nxt[k] == pre[k]);
                }
            }
        }
        proof {
            lemma_digits_value_nonneg(pre);
        }
        let d: u128 = (c as u32 - '0' as u32) as u128;
        if v > cap {
            assert(digits_value(nxt) == digits_value(pre) * 10 + d);
        } else {
            v = v * 10 + d;
            if v > cap {
                v = cap + 1;
            }
        }
        i += 1;
    }
    assert(s@.subrange(a as int, s@.len() as int) =~= body);
    Some(v)
}

/// `s.parse::<u32>()`.
pub fn parse_u32_exec(s: &[char]) -> (r: Option<u32>)
    ensures
        match r {
            Some(v) => parse_unsigned(s@, 0xFFFF_FFFF) == Some(v as int),
            None => parse_unsigned(s@, 0xFFFF_FFFF) is None,
        },
{
    let a: usize = if s.len() > 0 && s[0] == '+' {
        1
    } else {
        0
    };
    assert(s@.skip(a as int) == (if s@.len() > 0 && s@[0] == '+' {
        s@.drop_first()
    } else {
        s@
    }));
    if a >= s.len() {
        return None;
    }
    match digits_capped(s, a, 0xFFFF_FFFF) {
        Some(v) => {
            if v > 0xFFFF_FFFF {
                None
            } else {
                Some(v as u32)
            }
        },
        None => None,
    }
}

/// `s.parse::<i32>()`.
pub fn parse_i32_exec(s: &[char]) -> (r: Option<i32>)
    ensures
        match r {
            Some(v) => parse_i32(s@) == Some(v as int),
            None => parse_i32(s@) is None,
        },
{
    if s.len() > 0 && s[0] == '-' {
        if s.len() < 2 {
            return None;
        }
        assert(s@.skip(1) =~= s@.drop_first());
        match digits_capped(s, 1, 0x8000_0000) {
            Some(v) => {
                if v > 0x8000_0000 {
                    None
                } else {
                    let w: i64 = 0i64 - (v as i64);
                    Some(w as i32)
                }
            },
            None => None,
        }
    } else {
        let a: usize = if s.len() > 0 && s[0] == '+' {
            1
        } else {
            0
        };
        assert(s@.skip(a as int) == (if s@.len() > 0 && s@[0] == '+' {
            s@.drop_first()
        } else {
            s@
        }));
        if a >= s.len() {
            return None;
        }
        match digits_capped(s, a, 0x7FFF_FFFF) {
            Some(v) => {
                if v > 0x7FFF_FFFF {
                    None
                } else {
                    Some(v as i32)
                }
            },
            None => None,
        }
    }
}

/// `s.parse::<usize>()`, on a platform whose `usize` holds `max` and less.
pub fn parse_usize_exec(s: &[char]) -> (r: Option<usize>)
    ensures
        match r {
            Some(v) => parse_unsigned(s@, usize::MAX as int) == Some(v as int),
            None => parse_unsigned(s@, usize::MAX as int) is None,
        },
{
    let a: usize = if s.len() > 0 && s[0] == '+' {
        1
    } else {
        0
    };
    assert(s@.skip(a as int) == (if s@.len() > 0 && s@[0] == '+' {
        s@.drop_first()
    } else {
        s@
    }));
    if a >= s.len() {
        return None;
    }
    match digits_capped(s, a, usize::MAX as u128) {
        Some(v) => {
            if v > usize::MAX as u128 {
                None
            } else {
                Some(v as usize)
            }
        },
        None => None,
    }
}

} // verus!

verus! {

// ---------------------------------------------------------------------------
// Replacement
// ---------------------------------------------------------------------------

/// `s[i..].replace(f, t)`: every non-overlapping occurrence of `f`, left to right.
pub open spec fn replace_from(s: Seq<char>, f: Seq<char>, t: Seq<char>, i: int) -> Seq<char>
    decreases s.len() - i,
{
    if f.len() == 0 || i < 0 || i >= s.len() {
        s.subrange(if 0 <= i <= s.len() { i } else { s.len() as int }, s.len() as int)
    } else if match_at(s, f, i) {
        t + replace_from(s, f, t, i + f.len())
    } else {
        seq![s[i]] + replace_from(s, f, t, i + 1)
    }
}

/// `s.replace(f, t)` for a non-empty pattern `f`.
pub open spec fn replace(s: Seq<char>, f: Seq<char>, t: Seq<char>) -> Seq<char> {
    replace_from(s, f, t, 0)
}

/// `s.replacen(f, t, 1)`: only the first occurrence of `f` is replaced.
pub open spec fn replace_first(s: Seq<char>, f: Seq<char>, t: Seq<char>) -> Seq<char> {
    match find(s, f) {
        Some(j) => s.take(j) + t + s.skip(j + f.len()),
        None => s,
    }
}

pub fn replace_exec(s: &[char], f: &[char], t: &[char]) -> (r: Vec<char>)
    requires
        f@.len() > 0,
    ensures
        r@ == replace(s@, f@, t@),
{
    let mut out: Vec<char> = Vec::new();
    let mut i: usize = 0;
    while i < s.len()
        invariant
            f@.len() > 0,
            i <= s@.len(),
            out@ + replace_from(s@, f@, t@, i as int) == replace(s@, f@, t@),
        decreases s.len() - i,
    {
        if starts_with_at(s, f, i) {
            let ghost before = out@;
            push_all(&mut out, t);
            assert(before + (t@ + replace_from(s@, f@, t@, i + f@.len())) =~= out@
                + replace_from(s@, f@, t@, i + f@.len()));
            i += f.len();
        } else {
            let ghost before = out@;
            out.push(s[i]);
            assert(before + (seq![s@[i as int]] + replace_from(s@, f@, t@, i + 1)) =~= out@
                + replace_from(s@, f@, t@, i + 1));
            i += 1;
        }
    }
    assert(replace_from(s@, f@, t@, i as int) =~= Seq::<char>::empty());
    assert(out@ + Seq::<char>::empty() =~= out@);
    out
}

pub fn replace_str(s: &[char], f: &str, t: &str) -> (r: Vec<char>)
    requires
        f@.len() > 0,
    ensures
        r@ == replace(s@, f@, t@),
{
    let fv = chars_of(f);
    let tv = chars_of(t);
    replace_exec(s, fv.as_slice(), tv.as_slice())
}

pub fn replace_first_str(s: &[char], f: &str, t: &str) -> (r: Vec<char>)
    ensures
        r@ == replace_first(s@, f@, t@),
{
    let fv = chars_of(f);
    let tv = chars_of(t);
    match find_exec(s, fv.as_slice()) {
        Some(j) => {
            proof {
                lemma_find_from_sound(s@, f@, 0);
                assert(find_from(s@, fv@, 0) == Some(j as int));
                assert(match_at(s@, fv@, j as int));
            }
            let n = s.len();
            assert(j + fv@.len() <= n);
            let mut out = slice_of(s, 0, j);
            push_all(&mut out, tv.as_slice());
            let rest = slice_of(s, j + fv.len(), s.len());
            push_all(&mut out, rest.as_slice());
            assert(s@.subrange(0, j as int) =~= s@.take(j as int));
            assert(s@.subrange(j + f@.len(), s@.len() as int) =~= s@.skip(j + f@.len()));
            out
        },
        None => slice_of(s, 0, s.len()),
    }
}

/// Converts an optional character vector into an optional `String`.
pub fn opt_string(v: Option<Vec<char>>) -> (r: Option<String>)
    ensures
        r.deep_view() == match v {
            Some(x) => Some(x@),
            None => None::<Seq<char>>,
        },
{
    match v {
        Some(x) => Some(string_of(x.as_slice())),
        None => None,
    }
}

} // verus!

verus! {

pub fn all_digits_exec(s: &[char]) -> (r: bool)
    ensures
        r == all_digits(s@),
{
    let mut i: usize = 0;
    while i < s.len()
        invariant
            i <= s@.len(),
            all_digits(s@.take(i as int)),
        decreases s.len() - i,
    {
        if !char_is_digit(s[i]) {
            assert(!all_digits(s@)) by {
                assert(!is_digit(s@[i as int]));
            }
            return false;
        }
        assert forall|k: int| 0 <= k < i + 1 implies is_digit(#[trigger] s@.take(i + 1)[k]) by {
            if k < i {
                assert(s@.take(i + 1)[k] == s@.take(i as int)[k]);
            }
        }
        i += 1;
    }
    assert(s@.take(s@.len() as int) =~= s@);
    true
}

} // verus!

verus! {

/// Unicode lowercase of a string, as `str::to_lowercase` computes it (full
/// case mapping of the Unicode Character Database).
pub uninterp spec fn unicode_lower(s: Seq<char>) -> Seq<char>;

/// `str::to_lowercase`. The result is named by `unicode_lower`; for an
/// all-ASCII string the Unicode mapping agrees with the ASCII one. Nothing
/// else about non-ASCII characters is stated.
#[verifier::external_body]
pub(crate) fn to_lowercase(s: &str) -> (r: String)
    ensures
        r@ == unicode_lower(s@),
        all_ascii(s@) ==> r@ == lower(s@),
{
    s.to_lowercase()
}

/// Characters of `s` with every whitespace character removed.
pub open spec fn drop_ws(s: Seq<char>) -> Seq<char> {
    s.filter(|c: char| !is_ws(c))
}

pub fn drop_ws_exec(s: &[char]) -> (r: Vec<char>)
    ensures
        r@ == drop_ws(s@),
{
    let mut out: Vec<char> = Vec::new();
    let mut i: usize = 0;
    while i < s.len()
        invariant
            i <= s@.len(),
            out@ == drop_ws(s@.take(i as int)),
        decreases s.len() - i,
    {
        assert(s@.take(i + 1).drop_last() =~= s@.take(i as int));
        assert(s@.take(i + 1).last() == s@[i as int]);
        reveal_with_fuel(Seq::filter, 1);
        if !char_is_ws(s[i]) {
            out.push(s[i]);
        }
        i += 1;
    }
    assert(s@.take(s@.len() as int) =~= s@);
    out
}

/// UTF-8 length in bytes of `s`.
pub fn byte_len_exec(s: &[char]) -> (r: u128)
    ensures
        r == byte_len(s@),
{
    let mut total: u128 = 0;
    let mut i: usize = 0;
    while i < s.len()
        invariant
            i <= s@.len(),
            total == byte_len(s@.take(i as int)),
            total <= 4 * i,
        decreases s.len() - i,
    {
        assert(s@.take(i + 1).drop_last() =~= s@.take(i as int));
        total = total + char_utf8_len(s[i]) as u128;
        i += 1;
    }
    assert(s@.take(s@.len() as int) =~= s@);
    total
}

/// An ASCII sequence takes one byte per character.
pub proof fn lemma_ascii_byte_len(s: Seq<char>)
    requires
        all_ascii(s),
    ensures
        byte_len(s) == s.len(),
    decreases s.len(),
{
    if s.len() > 0 {
        assert(all_ascii(s.drop_last())) by {
            assert forall|i: int| 0 <= i < s.drop_last().len() implies is_ascii_char(
                #[trigger] s.drop_last()[i],
            ) by {
                assert(s.drop_last()[i] == s[i]);
            }
        }
        lemma_ascii_byte_len(s.drop_last());
        assert(is_ascii_char(s[s.len() - 1]));
    }
}

} // verus!

verus! {

/// The character sequences held by a vector of character vectors.
pub open spec fn views(v: Seq<Vec<char>>) -> Seq<Seq<char>> {
    v.map_values(|x: Vec<char>| x@)
}

/// Lexicographic order on code points (the order `String` compares in).
pub open spec fn lex_lt(a: Seq<char>, b: Seq<char>) -> bool
    decreases a.len(),
{
    if a.len() == 0 {
        b.len() > 0
    } else if b.len() == 0 {
        false
    } else if a[0] != b[0] {
        a[0] < b[0]
    } else {
        lex_lt(a.drop_first(), b.drop_first())
    }
}

/// `s` is sorted in strictly increasing order, hence without duplicates.
pub open spec fn strictly_sorted(s: Seq<Seq<char>>) -> bool {
    forall|i: int, j: int| 0 <= i < j < s.len() ==> lex_lt(#[trigger] s[i], #[trigger] s[j])
}

pub proof fn lemma_lex_irreflexive(a: Seq<char>)
    ensures
        !lex_lt(a, a),
    decreases a.len(),
{
    if a.len() > 0 {
        lemma_lex_irreflexive(a.drop_first());
    }
}

pub proof fn lemma_lex_transitive(a: Seq<char>, b: Seq<char>, c: Seq<char>)
    requires
        lex_lt(a, b),
        lex_lt(b, c),
    ensures
        lex_lt(a, c),
    decreases a.len(),
{
    if a.len() > 0 && b.len() > 0 && c.len() > 0 {
        if a[0] == b[0] && b[0] == c[0] {
            lemma_lex_transitive(a.drop_first(), b.drop_first(), c.drop_first());
        }
    }
}

pub proof fn lemma_lex_total(a: Seq<char>, b: Seq<char>)
    requires
        a != b,
    ensures
        lex_lt(a, b) || lex_lt(b, a),
    decreases a.len(),
{
    if a.len() > 0 && b.len() > 0 && a[0] == b[0] {
        if a.drop_first() == b.drop_first() {
            assert(a =~= seq![a[0]] + a.drop_first());
            assert(b =~= seq![b[0]] + b.drop_first());
        }
        lemma_lex_total(a.drop_first(), b.drop_first());
    } else if a.len() == 0 && b.len() == 0 {
        assert(a =~= b);
    }
}

pub fn lex_lt_exec(a: &[char], b: &[char]) -> (r: bool)
    ensures
        r == lex_lt(a@, b@),
{
    let mut i: usize = 0;
    assert(a@.skip(0) =~= a@);
    assert(b@.skip(0) =~= b@);
    loop
        invariant
            i <= a@.len(),
            i <= b@.len(),
            lex_lt(a@, b@) == lex_lt(a@.skip(i as int), b@.skip(i as int)),
        decreases a@.len() - i,
    {
        if i == a.len() {
            return i < b.len();
        }
        if i == b.len() {
            return false;
        }
        if a[i] != b[i] {
            return a[i] < b[i];
        }
        assert(a@.skip(i as int).drop_first() =~= a@.skip(i + 1));
        assert(b@.skip(i as int).drop_first() =~= b@.skip(i + 1));
        i += 1;
    }
}

/// Inserting into a sequence adds the element to its set.
pub proof fn lemma_insert_to_set(s: Seq<Seq<char>>, p: int, x: Seq<char>)
    requires
        0 <= p <= s.len(),
    ensures
        s.insert(p, x).to_set() == s.to_set().insert(x),
{
    let t = s.insert(p, x);
    assert forall|e: Seq<char>| t.to_set().contains(e) == s.to_set().insert(x).contains(e) by {
        if t.contains(e) {
            let j = choose|j: int| 0 <= j < t.len() && t[j] == e;
            if j < p {
                assert(s[j] == e);
            } else if j > p {
                assert(s[j - 1] == e);
            }
        }
        if s.contains(e) {
            let j = choose|j: int| 0 <= j < s.len() && s[j] == e;
            if j < p {
                assert(t[j] == e);
            } else {
                assert(t[j + 1] == e);
            }
        }
        assert(t[p] == x);
    }
    assert(t.to_set() =~= s.to_set().insert(x));
}

/// The distinct pieces of `v`, in strictly increasing order (`sort` then `dedup`).
pub fn sort_dedup(v: &Vec<Vec<char>>) -> (r: Vec<Vec<char>>)
    ensures
        strictly_sorted(views(r@)),
        views(r@).to_set() == views(v@).to_set(),
{
    let mut out: Vec<Vec<char>> = Vec::new();
    let mut k: usize = 0;
    while k < v.len()
        invariant
            k <= v@.len(),
            strictly_sorted(views(out@)),
            views(out@).to_set() == views(v@.take(k as int)).to_set(),
        decreases v.len() - k,
    {
        let x = &v[k];
        let mut p: usize = 0;
        while p < out.len() && lex_lt_exec(out[p].as_slice(), x.as_slice())
            invariant
                p <= out@.len(),
                forall|i: int| 0 <= i < p ==> lex_lt(#[trigger] views(out@)[i], x@),
            decreases out.len() - p,
        {
            p += 1;
        }
        let ghost old_views = views(out@);
        proof {
            assert(views(v@.take(k + 1)) =~= views(v@.take(k as int)) + seq![x@]);
            Seq::lemma_to_set_insert_commutes(views(v@.take(k as int)), x@);
        }
        if p < out.len() && eq(out[p].as_slice(), x.as_slice()) {
            proof {
                assert(old_views[p as int] == x@);
                assert(old_views.to_set().contains(x@));
                assert(old_views.to_set().insert(x@) =~= old_views.to_set());
            }
        } else {
            proof {
                assert forall|i: int| p <= i < old_views.len() implies lex_lt(
                    x@,
                    #[trigger] old_views[i],
                ) by {
                    if i == p {
                        lemma_lex_total(x@, old_views[i]);
                    } else {
                        lemma_lex_total(x@, old_views[p as int]);
                        lemma_lex_transitive(x@, old_views[p as int], old_views[i]);
                    }
                }
            }
            out.insert(p, x.clone());
            proof {
                assert(views(out@) =~= old_views.insert(p as int, x@));
                lemma_insert_to_set(old_views, p as int, x@);
            }
        }
        k += 1;
    }
    assert(v@.take(v@.len() as int) =~= v@);
    out
}

} // verus!

verus! {

/// The character sequences held by a sequence of strings.
pub open spec fn string_views(v: Seq<String>) -> Seq<Seq<char>> {
    v.map_values(|s: String| s@)
}

} // verus!

verus! {

// ---------------------------------------------------------------------------
// Byte-length prefixes
// ---------------------------------------------------------------------------

/// Byte `n` of the UTF-8 encoding of `s` falls on a character boundary.
pub open spec fn byte_boundary(s: Seq<char>, n: int) -> bool {
    exists|k: int| 0 <= k <= s.len() && byte_len(s.take(k)) == n
}

/// The prefix of `s` made of its first `n` bytes (`&s[..n]`), where byte `n`
/// is a character boundary.
pub open spec fn cut_bytes(s: Seq<char>, n: int) -> Seq<char> {
    s.take(choose|k: int| 0 <= k <= s.len() && byte_len(s.take(k)) == n)
}

pub proof fn lemma_byte_len_step(s: Seq<char>, i: int)
    requires
        0 <= i < s.len(),
    ensures
        byte_len(s.take(i + 1)) == byte_len(s.take(i)) + utf8_len(s[i]),
{
    assert(s.take(i + 1).drop_last() =~= s.take(i));
}

/// Longer prefixes take strictly more bytes.
pub proof fn lemma_byte_len_take_strict(s: Seq<char>, i: int, j: int)
    requires
        0 <= i < j <= s.len(),
    ensures
        byte_len(s.take(i)) < byte_len(s.take(j)),
    decreases j - i,
{
    lemma_byte_len_step(s, j - 1);
    if i < j - 1 {
        lemma_byte_len_take_strict(s, i, j - 1);
    }
}

/// Number of characters in the longest prefix of `s` whose UTF-8 encoding
/// takes at most `n` bytes (a cut at the last character boundary).
pub open spec fn fit_count(s: Seq<char>, n: int) -> nat
    decreases s.len(),
{
    if s.len() == 0 || byte_len(s) <= n {
        s.len()
    } else {
        fit_count(s.drop_last(), n)
    }
}

/// A prefix within `n` bytes whose next character would pass `n` is the
/// longest one.
proof fn lemma_fit_count_at(s: Seq<char>, n: int, i: int)
    requires
        0 <= i <= s.len(),
        byte_len(s.take(i)) <= n,
        i < s.len() ==> byte_len(s.take(i + 1)) > n,
    ensures
        fit_count(s, n) == i,
    decreases s.len(),
{
    assert(s.take(s.len() as int) =~= s);
    if s.len() == 0 || byte_len(s) <= n {
        if i < s.len() {
            if i + 1 < s.len() {
                lemma_byte_len_take_strict(s, i + 1, s.len() as int);
            }
        }
    } else {
        let d = s.drop_last();
        assert(d.take(i) =~= s.take(i));
        if i + 1 <= d.len() {
            assert(d.take(i + 1) =~= s.take(i + 1));
        }
        lemma_fit_count_at(d, n, i);
    }
}

/// The cut kept by [`fit_count`] is a prefix within `n` bytes, the whole
/// text when it fits, and one character more would pass `n`.
pub proof fn lemma_fit_count(s: Seq<char>, n: int)
    requires
        n >= 0,
    ensures
        fit_count(s, n) <= s.len(),
        byte_len(s.take(fit_count(s, n) as int)) <= n,
        fit_count(s, n) < s.len() ==> byte_len(s.take(fit_count(s, n) as int + 1)) > n,
        byte_len(s) <= n ==> fit_count(s, n) == s.len(),
    decreases s.len(),
{
    assert(s.take(s.len() as int) =~= s);
    if s.len() == 0 || byte_len(s) <= n {
    } else {
        let d = s.drop_last();
        lemma_fit_count(d, n);
        let f = fit_count(d, n) as int;
        assert(s.take(f) =~= d.take(f));
        if f < d.len() {
            assert(s.take(f + 1) =~= d.take(f + 1));
        }
    }
}

/// Number of characters of `s` that fit in `n` bytes of UTF-8.
pub fn byte_fit_len(s: &[char], n: usize) -> (k: usize)
    ensures
        k == fit_count(s@, n as int),
        k <= s@.len(),
{
    let mut i: usize = 0;
    let mut acc: usize = 0;
    while i < s.len()
        invariant_except_break
            i <= s@.len(),
            acc == byte_len(s@.take(i as int)),
            acc <= n,
        ensures
            i <= s@.len(),
            acc == byte_len(s@.take(i as int)),
            acc <= n,
            i < s@.len() ==> byte_len(s@.take(i + 1)) > n,
        decreases s.len() - i,
    {
        proof {
            lemma_byte_len_step(s@, i as int);
        }
        let c = char_utf8_len(s[i]);
        if c > n - acc {
            break;
        }
        acc = acc + c;
        i += 1;
    }
    proof {
        lemma_fit_count_at(s@, n as int, i as int);
    }
    i
}

// ---------------------------------------------------------------------------
// Facts about trimming and searching
// ---------------------------------------------------------------------------

/// The trailing-whitespace cut does not depend on a lower bound it stays above.
pub proof fn lemma_trail_indep(s: Seq<char>, lo1: int, lo2: int, j: int)
    requires
        0 <= lo1 <= lo2 <= j <= s.len(),
        trail(s, lo1, j) > lo2,
    ensures
        trail(s, lo2, j) == trail(s, lo1, j),
    decreases j - lo1,
{
    lemma_trail_bounds(s, lo1, j);
    if lo1 < j && is_ws(s[j - 1]) {
        lemma_trail_indep(s, lo1, lo2, j - 1);
    }
}

/// Trailing whitespace of `h + u` is that of `u` when `u` has a non-space.
pub proof fn lemma_trail_concat(h: Seq<char>, u: Seq<char>, j: int)
    requires
        h.len() <= j <= h.len() + u.len(),
        trail(u, 0, j - h.len()) > 0,
    ensures
        trail(h + u, 0, j) == h.len() + trail(u, 0, j - h.len()),
    decreases j,
{
    let x = h + u;
    let jj = j - h.len();
    lemma_trail_bounds(u, 0, jj);
    if is_ws(u[jj - 1]) {
        assert(x[j - 1] == u[jj - 1]);
        lemma_trail_concat(h, u, j - 1);
    } else {
        assert(x[j - 1] == u[jj - 1]);
    }
}

/// A sequence with a non-space character keeps one after its last
/// trailing-space cut.
pub proof fn lemma_trail_positive(s: Seq<char>, k: int)
    requires
        0 <= k < s.len(),
        !is_ws(s[k]),
    ensures
        trail(s, 0, s.len() as int) > k,
{
    lemma_trail_bounds(s, 0, s.len() as int);
}

/// `trim(trim_end(s)) == trim(s)`.
pub proof fn lemma_trim_of_trim_end(s: Seq<char>)
    ensures
        trim(trim_end(s)) == trim(s),
{
    let n = s.len() as int;
    lemma_lead_bounds(s, 0);
    lemma_trail_bounds(s, 0, n);
    let a = lead(s, 0);
    let e = trail(s, 0, n);
    let x = trim_end(s);
    if a < n {
        lemma_trail_positive(s, a);
        lemma_trail_indep(s, 0, a, n);
        assert forall|i: int| 0 <= i <= a implies lead(x, i) == lead(s, i) by {
            lemma_lead_agree(s, x, i, a);
        }
        lemma_trail_bounds(x, a, e);
        assert(x[e - 1] == s[e - 1]);
        assert(trail(x, a, e) == e);
        assert(trim(x) =~= trim(s));
    } else {
        assert(lead(x, 0) == x.len()) by {
            lemma_lead_all_ws(x, 0);
        }
        lemma_trail_bounds(s, a, n);
        assert(trim(x) =~= trim(s));
    }
}

proof fn lemma_lead_agree(s: Seq<char>, x: Seq<char>, i: int, a: int)
    requires
        0 <= i <= a,
        a < x.len() <= s.len(),
        a == lead(s, 0),
        forall|k: int| 0 <= k < x.len() ==> x[k] == s[k],
    ensures
        lead(x, i) == lead(s, i),
    decreases a - i,
{
    lemma_lead_bounds(s, 0);
    if i < a {
        assert(is_ws(s[i]));
        lemma_lead_agree(s, x, i + 1, a);
    }
}

proof fn lemma_lead_all_ws(x: Seq<char>, i: int)
    requires
        0 <= i <= x.len(),
        forall|k: int| i <= k < x.len() ==> is_ws(#[trigger] x[k]),
    ensures
        lead(x, i) == x.len(),
    decreases x.len() - i,
{
    if i < x.len() {
        lemma_lead_all_ws(x, i + 1);
    }
}

/// A sequence whose ends are not whitespace is its own trim.
pub proof fn lemma_trim_fixed(s: Seq<char>)
    requires
        s.len() > 0,
        !is_ws(s[0]),
        !is_ws(s[s.len() - 1]),
    ensures
        trim(s) == s,
{
    assert(lead(s, 0) == 0);
    assert(trail(s, 0, s.len() as int) == s.len());
    assert(trim(s) =~= s);
}

/// An occurrence inside a slice is an occurrence in the whole.
pub proof fn lemma_match_in_slice(s: Seq<char>, a: int, b: int, p: Seq<char>, i: int)
    requires
        0 <= a <= b <= s.len(),
        match_at(s.subrange(a, b), p, i),
    ensures
        match_at(s, p, a + i),
{
    assert(s.subrange(a + i, a + i + p.len()) =~= s.subrange(a, b).subrange(i, i + p.len()));
}

/// A slice of a sequence without `p` has no `p` either.
pub proof fn lemma_no_match_in_slice(s: Seq<char>, a: int, b: int, p: Seq<char>)
    requires
        0 <= a <= b <= s.len(),
        !contains(s, p),
    ensures
        !contains(s.subrange(a, b), p),
{
    lemma_find_from_sound(s, p, 0);
    lemma_find_from_sound(s.subrange(a, b), p, 0);
    if contains(s.subrange(a, b), p) {
        let i = find(s.subrange(a, b), p)->0;
        lemma_match_in_slice(s, a, b, p, i);
    }
}

/// The last occurrence at or before `i` is found when nothing follows it.
pub proof fn lemma_rfind_upto_complete(s: Seq<char>, p: Seq<char>, i: int, k: int)
    requires
        0 <= k <= i,
        match_at(s, p, k),
        forall|q: int| k < q <= i ==> !match_at(s, p, q),
    ensures
        rfind_upto(s, p, i) == Some(k),
    decreases i - k,
{
    if i > k {
        lemma_rfind_upto_complete(s, p, i - 1, k);
    }
}

/// ASCII lowercasing commutes with slicing.
pub proof fn lemma_lower_subrange(s: Seq<char>, a: int, b: int)
    requires
        0 <= a <= b <= s.len(),
    ensures
        lower(s.subrange(a, b)) == lower(s).subrange(a, b),
{
    assert(lower(s.subrange(a, b)) =~= lower(s).subrange(a, b));
}

} // verus!

verus! {

/// `s.get(..n)` on the UTF-8 encoding of `s`: its first `n` bytes when byte
/// `n` is a character boundary, else nothing.
pub open spec fn byte_prefix(s: Seq<char>, n: int) -> Option<Seq<char>> {
    if byte_boundary(s, n) {
        Some(cut_bytes(s, n))
    } else {
        None
    }
}

/// The first `n` bytes of `s`, when they end on a character boundary.
pub fn byte_prefix_exec(s: &[char], n: usize) -> (r: Option<Vec<char>>)
    ensures
        match r {
            Some(v) => byte_prefix(s@, n as int) == Some(v@),
            None => byte_prefix(s@, n as int) is None,
        },
{
    let mut i: usize = 0;
    let mut acc: u128 = 0;
    while i < s.len() && acc < n as u128
        invariant
            i <= s@.len(),
            acc == byte_len(s@.take(i as int)),
            acc <= 4 * i,
            i > 0 ==> byte_len(s@.take(i - 1)) < n,
        decreases s.len() - i,
    {
        proof {
            lemma_byte_len_step(s@, i as int);
        }
        acc = acc + char_utf8_len(s[i]) as u128;
        i += 1;
    }
    if acc == n as u128 {
        proof {
            assert(byte_boundary(s@, n as int));
            let k = choose|k: int| 0 <= k <= s@.len() && byte_len(s@.take(k)) == n;
            if k < i {
                lemma_byte_len_take_strict(s@, k, i as int);
            }
            if k > i {
                lemma_byte_len_take_strict(s@, i as int, k);
            }
        }
        Some(slice_of(s, 0, i))
    } else {
        proof {
            if byte_boundary(s@, n as int) {
                let k = choose|k: int| 0 <= k <= s@.len() && byte_len(s@.take(k)) == n;
                if acc > n as u128 {
                    if k < i {
                        if k < i - 1 {
                            lemma_byte_len_take_strict(s@, k, i - 1);
                        }
                    } else if k > i {
                        lemma_byte_len_take_strict(s@, i as int, k);
                    }
                } else {
                    if k < i {
                        lemma_byte_len_take_strict(s@, k, i as int);
                    }
                }
            }
        }
        None
    }
}

} // verus!

verus! {

/// A parsed unsigned number lies in `0..=max`.
pub proof fn lemma_parse_unsigned_range(s: Seq<char>, max: int)
    ensures
        parse_unsigned(s, max) matches Some(v) ==> 0 <= v <= max,
{
    let body = if s.len() > 0 && s[0] == '+' {
        s.drop_first()
    } else {
        s
    };
    if body.len() > 0 && all_digits(body) {
        lemma_digits_value_nonneg(body);
    }
}

} // verus!
