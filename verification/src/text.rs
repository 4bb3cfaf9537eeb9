//! Character-level text helpers shared by the rest of the library.

use vstd::prelude::*;
use vstd::string::*;
use vstd::utf8::*;

verus! {

/// Appends one character to a string (`String::push`).
#[verifier::external_body]
pub(crate) fn push_char(s: &mut String, c: char)
    ensures
        final(s)@ == old(s)@.push(c),
{
    s.push(c);
}

/// The characters of a string slice, in order.
pub fn chars_of(s: &str) -> (v: Vec<char>)
    ensures
        v@ == s@,
{
    let mut v: Vec<char> = Vec::new();
    for c in it: s.chars()
        invariant
            v@ == it.seq().take(it.index() as int),
    {
        v.push(c);
    }
    v
}


/// Appends a string slice to a string.
pub(crate) fn push_str(s: &mut String, t: &str)
    ensures
        final(s)@ == old(s)@ + t@,
{
    s.append(t);
}

/// A string holding the given characters.
pub fn string_of(cs: &[char]) -> (s: String)
    ensures
        s@ == cs@,
{
    let mut s = String::new();
    let mut i: usize = 0;
    while i < cs.len()
        invariant
            i <= cs.len(),
            s@ == cs@.subrange(0, i as int),
        decreases cs.len() - i,
    {
        push_char(&mut s, cs[i]);
        proof {
            assert(cs@.subrange(0, i + 1) == cs@.subrange(0, i as int).push(cs@[i as int]));
        }
        i += 1;
    }
    proof {
        assert(cs@.subrange(0, i as int) == cs@);
    }
    s
}

/// The character of a decimal digit.
pub open spec fn digit_char(d: int) -> char {
    if d == 0 {
        '0'
    } else if d == 1 {
        '1'
    } else if d == 2 {
        '2'
    } else if d == 3 {
        '3'
    } else if d == 4 {
        '4'
    } else if d == 5 {
        '5'
    } else if d == 6 {
        '6'
    } else if d == 7 {
        '7'
    } else if d == 8 {
        '8'
    } else {
        '9'
    }
}

/// The decimal notation of a natural number, without leading zeros.
pub open spec fn decimal(n: nat) -> Seq<char>
    decreases n,
{
    if n < 10 {
        seq![digit_char(n as int)]
    } else {
        decimal(n / 10).push(digit_char((n % 10) as int))
    }
}

fn digit(d: u64) -> (c: char)
    requires
        d < 10,
    ensures
        c == digit_char(d as int),
{
    if d == 0 {
        '0'
    } else if d == 1 {
        '1'
    } else if d == 2 {
        '2'
    } else if d == 3 {
        '3'
    } else if d == 4 {
        '4'
    } else if d == 5 {
        '5'
    } else if d == 6 {
        '6'
    } else if d == 7 {
        '7'
    } else if d == 8 {
        '8'
    } else {
        '9'
    }
}

/// Appends the decimal notation of `n`.
pub fn push_decimal(s: &mut String, n: u64)
    ensures
        final(s)@ == old(s)@ + decimal(n as nat),
    decreases n,
{
    if n >= 10 {
        push_decimal(s, n / 10);
        push_char(s, digit(n % 10));
        proof {
            assert(decimal(n as nat) == decimal((n / 10) as nat).push(digit_char((n % 10) as int)));
        }
    } else {
        push_char(s, digit(n));
        proof {
            assert(decimal(n as nat) == seq![digit_char(n as int)]);
        }
    }
}

/// `c` has the Unicode `White_Space` property (`char::is_whitespace`):
/// tab to carriage return, space, next line, no-break space, ogham space
/// mark, the spaces from en quad to hair space, line and paragraph
/// separator, narrow no-break space, medium mathematical space and
/// ideographic space.
pub open spec fn unicode_whitespace(c: char) -> bool {
    let u = c as u32;
    (0x09 <= u <= 0x0D) || u == 0x20 || u == 0x85 || u == 0xA0 || u == 0x1680 || (0x2000 <= u <= 0x200A)
        || u == 0x2028 || u == 0x2029 || u == 0x202F || u == 0x205F || u == 0x3000
}

/// ASCII white space as the Unicode White_Space property classifies it:
/// tab, line feed, vertical tab, form feed, carriage return and space.
pub open spec fn ascii_whitespace(c: char) -> bool {
    c == '\t' || c == '\n' || c == '\u{0B}' || c == '\u{0C}' || c == '\r' || c == ' '
}

/// Whether `c` is white space (see `unicode_whitespace`); an ASCII
/// character is exactly when it is a tab, line feed, vertical tab, form
/// feed, carriage return or space.
pub fn is_whitespace(c: char) -> (res: bool)
    ensures
        res == unicode_whitespace(c),
        (c as u32) < 128 ==> (res <==> ascii_whitespace(c)),
{
    let u = c as u32;
    (0x09 <= u && u <= 0x0D) || u == 0x20 || u == 0x85 || u == 0xA0 || u == 0x1680 || (0x2000 <= u && u
        <= 0x200A) || u == 0x2028 || u == 0x2029 || u == 0x202F || u == 0x205F || u == 0x3000
}


/// `s` without its leading white space (`str::trim_start`).
pub open spec fn trim_start(s: Seq<char>) -> Seq<char>
    decreases s.len(),
{
    if s.len() > 0 && unicode_whitespace(s[0]) {
        trim_start(s.drop_first())
    } else {
        s
    }
}

/// `s` without its trailing white space (`str::trim_end`).
pub open spec fn trim_end(s: Seq<char>) -> Seq<char>
    decreases s.len(),
{
    if s.len() > 0 && unicode_whitespace(s.last()) {
        trim_end(s.drop_last())
    } else {
        s
    }
}

/// `s` without leading and trailing white space (`str::trim`).
pub open spec fn trim(s: Seq<char>) -> Seq<char> {
    trim_end(trim_start(s))
}

proof fn lemma_trim_start_skip(s: Seq<char>, i: int)
    requires
        0 <= i <= s.len(),
        forall|k: int| 0 <= k < i ==> unicode_whitespace(#[trigger] s[k]),
    ensures
        trim_start(s) == trim_start(s.subrange(i, s.len() as int)),
    decreases i,
{
    if i > 0 {
        assert(s.drop_first().subrange(i - 1, s.drop_first().len() as int) =~= s.subrange(i, s.len() as int));
        assert forall|k: int| 0 <= k < i - 1 implies unicode_whitespace(#[trigger] s.drop_first()[k]) by {
            assert(s.drop_first()[k] == s[k + 1]);
        }
        lemma_trim_start_skip(s.drop_first(), i - 1);
    } else {
        assert(s.subrange(0, s.len() as int) =~= s);
    }
}

proof fn lemma_trim_end_skip(s: Seq<char>, j: int)
    requires
        0 <= j <= s.len(),
        forall|k: int| j <= k < s.len() ==> unicode_whitespace(#[trigger] s[k]),
    ensures
        trim_end(s) == trim_end(s.subrange(0, j)),
    decreases s.len() - j,
{
    if j < s.len() {
        assert(s.drop_last().subrange(0, j) =~= s.subrange(0, j));
        lemma_trim_end_skip(s.drop_last(), j);
    } else {
        assert(s.subrange(0, j) =~= s);
    }
}

/// The characters of `s` without leading and trailing white space.
pub fn trimmed_chars(s: &str) -> (t: Vec<char>)
    ensures
        t@ == trim(s@),
{
    let cs = chars_of(s);
    let mut i: usize = 0;
    while i < cs.len() && is_whitespace(cs[i])
        invariant
            cs@ == s@,
            i <= cs.len(),
            forall|k: int| 0 <= k < i ==> unicode_whitespace(#[trigger] cs@[k]),
        decreases cs.len() - i,
    {
        i += 1;
    }
    proof {
        lemma_trim_start_skip(s@, i as int);
    }
    let ghost rest = s@.subrange(i as int, s@.len() as int);
    let mut j: usize = cs.len();
    while j > i && is_whitespace(cs[j - 1])
        invariant
            cs@ == s@,
            i <= j <= cs.len(),
            rest == s@.subrange(i as int, s@.len() as int),
            forall|k: int| j <= k < cs.len() ==> unicode_whitespace(#[trigger] cs@[k]),
        decreases j,
    {
        j -= 1;
    }
    let mut t: Vec<char> = Vec::new();
    let mut k: usize = i;
    while k < j
        invariant
            cs@ == s@,
            i <= k <= j <= cs.len(),
            t@ == s@.subrange(i as int, k as int),
        decreases j - k,
    {
        t.push(cs[k]);
        proof {
            assert(s@.subrange(i as int, k + 1) =~= s@.subrange(i as int, k as int).push(s@[k as int]));
        }
        k += 1;
    }
    proof {
        if i < cs.len() {
            assert(!unicode_whitespace(rest[0]));
            assert(trim_start(rest) == rest);
        } else {
            assert(rest.len() == 0);
        }
        assert forall|m: int| j - i <= m < rest.len() implies unicode_whitespace(#[trigger] rest[m]) by {
            assert(rest[m] == s@[m + i]);
        }
        lemma_trim_end_skip(rest, j - i);
        assert(rest.subrange(0, j - i) =~= t@);
        if j > i {
            assert(t@.last() == s@[j - 1]);
        }
    }
    t
}

/// ASCII upper-case letters mapped to lower case, other characters kept.
pub open spec fn ascii_lower_char(c: char) -> char {
    if 'A' <= c <= 'Z' {
        ((c as u32) + 32) as char
    } else {
        c
    }
}

/// `s` with ASCII letters in lower case (`to_ascii_lowercase`).
pub open spec fn ascii_lower(s: Seq<char>) -> Seq<char> {
    s.map_values(|c: char| ascii_lower_char(c))
}

fn lower_char(c: char) -> (d: char)
    ensures
        d == ascii_lower_char(c),
{
    if 'A' <= c && c <= 'Z' {
        let code: u8 = c as u8 + 32;
        code as char
    } else {
        c
    }
}

/// The characters with ASCII letters in lower case.
pub fn lower_chars(cs: &[char]) -> (out: Vec<char>)
    ensures
        out@ == ascii_lower(cs@),
{
    let mut out: Vec<char> = Vec::new();
    let mut i: usize = 0;
    while i < cs.len()
        invariant
            i <= cs.len(),
            out@ == ascii_lower(cs@.subrange(0, i as int)),
        decreases cs.len() - i,
    {
        out.push(lower_char(cs[i]));
        proof {
            assert(ascii_lower(cs@.subrange(0, i + 1)) =~= ascii_lower(cs@.subrange(0, i as int)).push(
                ascii_lower_char(cs@[i as int]),
            ));
        }
        i += 1;
    }
    proof {
        assert(cs@.subrange(0, i as int) =~= cs@);
    }
    out
}

/// `needle` occurs in `hay` at position `at`.
pub open spec fn occurs_at(hay: Seq<char>, needle: Seq<char>, at: int) -> bool {
    0 <= at && at + needle.len() <= hay.len() && hay.subrange(at, at + needle.len()) == needle
}

/// `needle` occurs somewhere in `hay` (`str::contains`).
pub open spec fn contains_chars(hay: Seq<char>, needle: Seq<char>) -> bool {
    exists|at: int| occurs_at(hay, needle, at)
}

fn matches_at(hay: &[char], needle: &[char], at: usize) -> (r: bool)
    requires
        at + needle@.len() <= hay@.len(),
    ensures
        r == occurs_at(hay@, needle@, at as int),
{
    let mut k: usize = 0;
    while k < needle.len()
        invariant
            at + needle.len() <= hay.len(),
            k <= needle.len(),
            forall|m: int| 0 <= m < k ==> hay@[at + m] == needle@[m],
        decreases needle.len() - k,
    {
        if hay[at + k] != needle[k] {
            proof {
                assert(hay@.subrange(at as int, at + needle@.len())[k as int] != needle@[k as int]);
            }
            return false;
        }
        k += 1;
    }
    assert(hay@.subrange(at as int, at + needle@.len()) =~= needle@);
    true
}

/// Whether `needle` occurs in `hay`.
pub fn find_chars(hay: &[char], needle: &[char]) -> (r: bool)
    ensures
        r == contains_chars(hay@, needle@),
{
    if needle.len() > hay.len() {
        assert(forall|at: int| !occurs_at(hay@, needle@, at));
        return false;
    }
    let last = hay.len() - needle.len();
    let mut at: usize = 0;
    loop
        invariant
            last == hay@.len() - needle@.len(),
            at <= last,
            forall|a: int| 0 <= a < at ==> !occurs_at(hay@, needle@, a),
        ensures
            forall|a: int| 0 <= a <= last ==> !occurs_at(hay@, needle@, a),
        decreases last - at,
    {
        if matches_at(hay, needle, at) {
            return true;
        }
        if at == last {
            break;
        }
        at += 1;
    }
    assert forall|a: int| !occurs_at(hay@, needle@, a) by {
        if 0 <= a && a + needle@.len() <= hay@.len() {
            assert(a <= last);
        }
    }
    false
}

/// Number of UTF-8 bytes taken by the first `k` characters of `s`.
pub open spec fn byte_offset(s: Seq<char>, k: int) -> int {
    encode_utf8(s.take(k)).len() as int
}

/// Number of UTF-8 bytes of one character.
pub open spec fn char_width(c: char) -> int {
    encode_scalar(c as u32).len() as int
}

pub proof fn lemma_encode_concat(a: Seq<char>, b: Seq<char>)
    ensures
        encode_utf8(a + b) == encode_utf8(a) + encode_utf8(b),
    decreases a.len(),
{
    if a.len() == 0 {
        assert(a + b =~= b);
    } else {
        lemma_encode_concat(a.drop_first(), b);
        assert((a + b).drop_first() =~= a.drop_first() + b);
        assert(encode_utf8(a) + encode_utf8(b) =~= encode_scalar(a[0] as u32) + (encode_utf8(
            a.drop_first(),
        ) + encode_utf8(b)));
    }
}

pub proof fn lemma_width_bounds(c: char)
    ensures
        1 <= char_width(c) <= 4,
        ((c as u32) < 128) == (char_width(c) == 1),
{
    char_is_scalar(c);
}

pub proof fn lemma_offset_step(s: Seq<char>, k: int)
    requires
        0 <= k < s.len(),
    ensures
        byte_offset(s, k + 1) == byte_offset(s, k) + char_width(s[k]),
{
    assert(s.take(k + 1) =~= s.take(k) + seq![s[k]]);
    lemma_encode_concat(s.take(k), seq![s[k]]);
    let one = seq![s[k]];
    assert(one[0] == s[k]);
    assert(one.drop_first() =~= Seq::<char>::empty());
    assert(encode_utf8(one.drop_first()) =~= Seq::<u8>::empty());
    assert(encode_utf8(one) =~= encode_scalar(s[k] as u32));
}

/// Byte offsets grow with the character index.
pub proof fn lemma_offset_monotone(s: Seq<char>, i: int, j: int)
    requires
        0 <= i <= j <= s.len(),
    ensures
        byte_offset(s, i) + (j - i) <= byte_offset(s, j),
    decreases j - i,
{
    if i < j {
        lemma_offset_monotone(s, i, j - 1);
        lemma_offset_step(s, j - 1);
        lemma_width_bounds(s[j - 1]);
    }
}

/// The UTF-8 width of a character.
pub fn utf8_width(c: char) -> (w: usize)
    ensures
        w as int == char_width(c),
{
    proof {
        char_is_scalar(c);
    }
    let v = c as u32;
    if v <= 0x7F {
        1
    } else if v <= 0x7FF {
        2
    } else if v <= 0xFFFF {
        3
    } else {
        4
    }
}

/// Byte offsets of every character boundary of `cs`: entry `k` is the
/// offset of character `k`, the last entry the total length.
pub fn byte_offsets(cs: &Vec<char>, total: usize) -> (offsets: Vec<usize>)
    requires
        byte_offset(cs@, cs@.len() as int) == total,
    ensures
        offsets@.len() == cs@.len() + 1,
        forall|k: int| 0 <= k <= cs@.len() ==> #[trigger] offsets@[k] as int == byte_offset(cs@, k),
{
    let mut offsets: Vec<usize> = Vec::new();
    let mut at: usize = 0;
    offsets.push(0);
    proof {
        assert(cs@.take(0) =~= Seq::<char>::empty());
    }
    let mut k: usize = 0;
    while k < cs.len()
        invariant
            byte_offset(cs@, cs@.len() as int) == total,
            k <= cs@.len(),
            offsets@.len() == k + 1,
            at as int == byte_offset(cs@, k as int),
            forall|j: int| 0 <= j <= k ==> #[trigger] offsets@[j] as int == byte_offset(cs@, j),
        decreases cs.len() - k,
    {
        proof {
            lemma_offset_step(cs@, k as int);
            lemma_offset_monotone(cs@, k + 1, cs@.len() as int);
        }
        at = at + utf8_width(cs[k]);
        offsets.push(at);
        k += 1;
    }
    offsets
}

/// How many of the leading characters of `s`, counting down from `k`,
/// fit in `limit` UTF-8 bytes.
pub open spec fn chars_within_from(s: Seq<char>, limit: int, k: int) -> int
    decreases k,
{
    if k <= 0 {
        0
    } else if byte_offset(s, k) <= limit {
        k
    } else {
        chars_within_from(s, limit, k - 1)
    }
}

/// The largest number of leading characters of `s` whose UTF-8 encoding
/// fits in `limit` bytes: the cut at the last character boundary at or
/// before byte `limit`.
pub open spec fn chars_within(s: Seq<char>, limit: int) -> int {
    chars_within_from(s, limit, s.len() as int)
}

/// The cut that `chars_within` picks fits in `limit` bytes, and one more
/// character would not.
pub proof fn lemma_chars_within(s: Seq<char>, limit: int)
    requires
        limit >= 0,
    ensures
        0 <= chars_within(s, limit) <= s.len(),
        byte_offset(s, chars_within(s, limit)) <= limit,
        chars_within(s, limit) < s.len() ==> byte_offset(s, chars_within(s, limit) + 1) > limit,
{
    lemma_chars_within_from(s, limit, s.len() as int);
}

proof fn lemma_chars_within_from(s: Seq<char>, limit: int, k: int)
    requires
        limit >= 0,
        0 <= k <= s.len(),
        k < s.len() ==> byte_offset(s, k + 1) > limit,
    ensures
        0 <= chars_within_from(s, limit, k) <= k,
        byte_offset(s, chars_within_from(s, limit, k)) <= limit,
        chars_within_from(s, limit, k) < s.len() ==> byte_offset(s, chars_within_from(s, limit, k) + 1) > limit,
    decreases k,
{
    if k <= 0 {
        assert(s.take(0) =~= Seq::<char>::empty());
    } else if byte_offset(s, k) > limit {
        lemma_chars_within_from(s, limit, k - 1);
    }
}

/// The leading characters of `s` that fit in `limit` UTF-8 bytes, and the
/// byte length they take.
pub fn prefix_within(s: &str, limit: usize) -> (r: (Vec<char>, usize))
    ensures
        r.0@ == s@.take(chars_within(s@, limit as int)),
        r.1 as int == byte_offset(s@, chars_within(s@, limit as int)),
        0 <= chars_within(s@, limit as int) <= s@.len(),
{
    let (cs, offsets) = chars_and_offsets(s);
    let mut k: usize = cs.len();
    while k > 0 && offsets[k] > limit
        invariant
            cs@ == s@,
            offsets@.len() == cs@.len() + 1,
            forall|j: int| 0 <= j <= cs@.len() ==> #[trigger] offsets@[j] as int == byte_offset(cs@, j),
            k <= cs@.len(),
            chars_within(s@, limit as int) == chars_within_from(s@, limit as int, k as int),
        decreases k,
    {
        k -= 1;
    }
    let mut prefix: Vec<char> = Vec::new();
    let mut j: usize = 0;
    while j < k
        invariant
            cs@ == s@,
            k <= cs@.len(),
            j <= k,
            prefix@ == s@.take(j as int),
        decreases k - j,
    {
        prefix.push(cs[j]);
        proof {
            assert(s@.take(j + 1) =~= s@.take(j as int).push(s@[j as int]));
        }
        j += 1;
    }
    (prefix, offsets[k])
}

/// The characters of a string slice together with the byte offset of each
/// character boundary.
pub fn chars_and_offsets(s: &str) -> (res: (Vec<char>, Vec<usize>))
    ensures
        res.0@ == s@,
        res.1@.len() == s@.len() + 1,
        forall|k: int| 0 <= k <= s@.len() ==> #[trigger] res.1@[k] as int == byte_offset(s@, k),
        byte_offset(s@, s@.len() as int) == s.spec_bytes().len(),
{
    let cs = chars_of(s);
    let total = s.as_bytes().len();
    proof {
        assert(s@.take(s@.len() as int) =~= s@);
    }
    let offsets = byte_offsets(&cs, total);
    (cs, offsets)
}

/// Whether two character slices are equal.
pub fn chars_eq(x: &[char], y: &[char]) -> (res: bool)
    ensures
        res == (x@ == y@),
{
    if x.len() != y.len() {
        return false;
    }
    let mut i: usize = 0;
    while i < x.len()
        invariant
            x.len() == y.len(),
            i <= x.len(),
            forall|j: int| 0 <= j < i ==> x@[j] == y@[j],
        decreases x.len() - i,
    {
        if x[i] != y[i] {
            return false;
        }
        i += 1;
    }
    assert(x@ =~= y@);
    true
}

/// Whether two string slices hold the same characters.
pub fn str_eq(a: &str, b: &str) -> (res: bool)
    ensures
        res == (a@ == b@),
{
    let x = chars_of(a);
    let y = chars_of(b);
    chars_eq(x.as_slice(), y.as_slice())
}

/// Whether two strings are equal once ASCII letters are put in lower case
/// (`eq_ignore_ascii_case`).
pub fn same_ignoring_ascii_case(a: &str, b: &str) -> (res: bool)
    ensures
        res == (ascii_lower(a@) == ascii_lower(b@)),
{
    let x = chars_of(a);
    let y = chars_of(b);
    let lx = lower_chars(x.as_slice());
    let ly = lower_chars(y.as_slice());
    chars_eq(lx.as_slice(), ly.as_slice())
}

} // verus!
