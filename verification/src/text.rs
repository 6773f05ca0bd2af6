//! Byte-string helpers for the shell: trimming white space, finding a byte,
//! matching a prefix, and decimal numbers.

use vstd::prelude::*;
use vstd::string::StringSliceAdditionalSpecFns;

verus! {

/// Whether two byte strings are equal.
pub fn same_bytes(a: &[u8], b: &[u8]) -> (same: bool)
    ensures
        same == (a@ == b@),
{
    if a.len() != b.len() {
        return false;
    }
    let mut j: usize = 0;
    while j < a.len()
        invariant
            a@.len() == b@.len(),
            j <= a@.len(),
            forall|k: int| 0 <= k < j ==> a@[k] == b@[k],
        decreases a@.len() - j,
    {
        if a[j] != b[j] {
            return false;
        }
        j = j + 1;
    }
    assert(a@ =~= b@);
    true
}

/// Whether `s` begins with `prefix`.
pub open spec fn starts_with(s: Seq<u8>, prefix: Seq<u8>) -> bool {
    s.len() >= prefix.len() && s.take(prefix.len() as int) == prefix
}

/// Whether `s` begins with `prefix`.
pub fn has_prefix(s: &[u8], prefix: &[u8]) -> (yes: bool)
    ensures
        yes == starts_with(s@, prefix@),
{
    if s.len() < prefix.len() {
        return false;
    }
    let head = &s[0..prefix.len()];
    assert(head@ =~= s@.take(prefix@.len() as int));
    same_bytes(head, prefix)
}

/// The index of the first `b` in `s`, if there is one.
pub open spec fn find_byte(s: Seq<u8>, b: u8) -> Option<int>
    decreases s.len(),
{
    if s.len() == 0 {
        None
    } else {
        match find_byte(s.drop_last(), b) {
            Some(i) => Some(i),
            None => if s.last() == b {
                Some(s.len() - 1)
            } else {
                None
            },
        }
    }
}

/// `find_byte` finds the first `b`, and finds none only where there is none.
pub proof fn lemma_find_byte(s: Seq<u8>, b: u8)
    ensures
        match find_byte(s, b) {
            Some(i) => 0 <= i < s.len() && s[i] == b && forall|k: int| 0 <= k < i ==> s[k] != b,
            None => forall|k: int| 0 <= k < s.len() ==> s[k] != b,
        },
    decreases s.len(),
{
    if s.len() > 0 {
        lemma_find_byte(s.drop_last(), b);
        assert(forall|k: int| 0 <= k < s.len() - 1 ==> s.drop_last()[k] == s[k]);
    }
}

/// A `b` found among the first `n` bytes is the first `b`.
proof fn lemma_find_byte_prefix(s: Seq<u8>, b: u8, n: int)
    requires
        0 <= n <= s.len(),
        find_byte(s.take(n), b) is Some,
    ensures
        find_byte(s, b) == find_byte(s.take(n), b),
    decreases s.len(),
{
    if n == s.len() {
        assert(s.take(n) =~= s);
    } else {
        assert(s.drop_last().take(n) =~= s.take(n));
        lemma_find_byte_prefix(s.drop_last(), b, n);
    }
}

/// The index of the first `b` in `s`.
pub fn position_of(s: &[u8], b: u8) -> (found: Option<usize>)
    ensures
        match found {
            Some(i) => find_byte(s@, b) == Some(i as int) && i < s@.len(),
            None => find_byte(s@, b) is None,
        },
        s@.len() <= usize::MAX,
{
    proof {
        lemma_find_byte(s@, b);
    }
    let mut i: usize = 0;
    while i < s.len()
        invariant
            i <= s@.len(),
            find_byte(s@.take(i as int), b) is None,
        decreases s@.len() - i,
    {
        assert(s@.take(i + 1).drop_last() =~= s@.take(i as int));
        if s[i] == b {
            proof {
                lemma_find_byte_prefix(s@, b, i + 1);
            }
            return Some(i);
        }
        i = i + 1;
    }
    assert(s@.take(i as int) =~= s@);
    None
}

/// Whether `b` is one of the ASCII white space characters: tab, line feed,
/// vertical tab, form feed, carriage return and space.
pub open spec fn is_ascii_space(b: u8) -> bool {
    b == 32 || (9 <= b && b <= 13)
}

/// Whether three bytes encode one of the three-byte white space characters of
/// Unicode: U+1680, U+2000 to U+200A, U+2028, U+2029, U+202F, U+205F, U+3000.
pub open spec fn is_wide_space(a: u8, b: u8, c: u8) -> bool {
    ||| a == 0xE1 && b == 0x9A && c == 0x80
    ||| a == 0xE2 && b == 0x80 && ((0x80 <= c && c <= 0x8A) || c == 0xA8 || c == 0xA9 || c == 0xAF)
    ||| a == 0xE2 && b == 0x81 && c == 0x9F
    ||| a == 0xE3 && b == 0x80 && c == 0x80
}

/// Whether two bytes encode one of the two-byte white space characters of
/// Unicode: U+0085 and U+00A0.
pub open spec fn is_narrow_space(a: u8, b: u8) -> bool {
    a == 0xC2 && (b == 0x85 || b == 0xA0)
}

/// The length of the white space character that `s` starts with, or 0.
pub open spec fn leading_space_len(s: Seq<u8>) -> int {
    if s.len() >= 1 && is_ascii_space(s[0]) {
        1
    } else if s.len() >= 2 && is_narrow_space(s[0], s[1]) {
        2
    } else if s.len() >= 3 && is_wide_space(s[0], s[1], s[2]) {
        3
    } else {
        0
    }
}

/// The length of the white space character that `s` ends with, or 0.
pub open spec fn trailing_space_len(s: Seq<u8>) -> int {
    let n = s.len() as int;
    if n >= 1 && is_ascii_space(s[n - 1]) {
        1
    } else if n >= 2 && is_narrow_space(s[n - 2], s[n - 1]) {
        2
    } else if n >= 3 && is_wide_space(s[n - 3], s[n - 2], s[n - 1]) {
        3
    } else {
        0
    }
}

/// `s` without the white space it starts with.
pub open spec fn trim_start(s: Seq<u8>) -> Seq<u8>
    decreases s.len(),
{
    if leading_space_len(s) > 0 {
        trim_start(s.skip(leading_space_len(s)))
    } else {
        s
    }
}

/// `s` without the white space it ends with.
pub open spec fn trim_end(s: Seq<u8>) -> Seq<u8>
    decreases s.len(),
{
    if trailing_space_len(s) > 0 {
        trim_end(s.take(s.len() - trailing_space_len(s)))
    } else {
        s
    }
}

/// `s` without white space at either end.
pub open spec fn trim(s: Seq<u8>) -> Seq<u8> {
    trim_end(trim_start(s))
}

fn leading_space(s: &[u8], i: usize) -> (n: usize)
    requires
        i <= s@.len(),
    ensures
        n == leading_space_len(s@.skip(i as int)),
        i + n <= s@.len(),
{
    let rest = s.len() - i;
    if rest >= 1 && (s[i] == 32 || (9 <= s[i] && s[i] <= 13)) {
        1
    } else if rest >= 2 && s[i] == 0xC2 && (s[i + 1] == 0x85 || s[i + 1] == 0xA0) {
        2
    } else if rest >= 3 && wide_space(s[i], s[i + 1], s[i + 2]) {
        3
    } else {
        0
    }
}

fn trailing_space(s: &[u8], j: usize) -> (n: usize)
    requires
        j <= s@.len(),
    ensures
        n == trailing_space_len(s@.take(j as int)),
        n <= j,
{
    if j >= 1 && (s[j - 1] == 32 || (9 <= s[j - 1] && s[j - 1] <= 13)) {
        1
    } else if j >= 2 && s[j - 2] == 0xC2 && (s[j - 1] == 0x85 || s[j - 1] == 0xA0) {
        2
    } else if j >= 3 && wide_space(s[j - 3], s[j - 2], s[j - 1]) {
        3
    } else {
        0
    }
}

fn wide_space(a: u8, b: u8, c: u8) -> (yes: bool)
    ensures
        yes == is_wide_space(a, b, c),
{
    (a == 0xE1 && b == 0x9A && c == 0x80) || (a == 0xE2 && b == 0x80 && ((0x80 <= c && c <= 0x8A)
        || c == 0xA8 || c == 0xA9 || c == 0xAF)) || (a == 0xE2 && b == 0x81 && c == 0x9F) || (a
        == 0xE3 && b == 0x80 && c == 0x80)
}

/// `s` without white space at either end.
pub fn trim_bytes(s: &[u8]) -> (t: &[u8])
    ensures
        t@ == trim(s@),
{
    let len = s.len();
    let mut i: usize = 0;
    assert(s@.skip(0) =~= s@);
    while leading_space(s, i) > 0
        invariant
            len == s@.len(),
            i <= s@.len(),
            trim_start(s@) == trim_start(s@.skip(i as int)),
        decreases s@.len() - i,
    {
        let n = leading_space(s, i);
        assert(s@.skip(i as int).skip(n as int) =~= s@.skip(i + n));
        i = i + n;
    }
    let rest = &s[i..s.len()];
    assert(rest@ =~= s@.skip(i as int));
    let mut j: usize = rest.len();
    assert(rest@.take(j as int) =~= rest@);
    while trailing_space(rest, j) > 0
        invariant
            j <= rest@.len(),
            trim_end(rest@) == trim_end(rest@.take(j as int)),
        decreases j,
    {
        let n = trailing_space(rest, j);
        assert(rest@.take(j as int).take(j - n) =~= rest@.take(j - n));
        j = j - n;
    }
    let t = &rest[0..j];
    assert(t@ =~= rest@.take(j as int));
    t
}

/// `s` without the zero bytes it ends with.
pub open spec fn trim_end_nul(s: Seq<u8>) -> Seq<u8>
    decreases s.len(),
{
    if s.len() > 0 && s.last() == 0 {
        trim_end_nul(s.drop_last())
    } else {
        s
    }
}

/// `s` without the zero bytes it ends with.
pub fn trim_nul_bytes(s: &[u8]) -> (t: &[u8])
    ensures
        t@ == trim_end_nul(s@),
{
    let mut j: usize = s.len();
    assert(s@.take(j as int) =~= s@);
    while j > 0 && s[j - 1] == 0
        invariant
            j <= s@.len(),
            trim_end_nul(s@) == trim_end_nul(s@.take(j as int)),
        decreases j,
    {
        assert(s@.take(j as int).drop_last() =~= s@.take(j - 1));
        j = j - 1;
    }
    let t = &s[0..j];
    assert(t@ =~= s@.take(j as int));
    t
}

/// `s` without the double quotes it starts and ends with.
pub open spec fn trim_quotes(s: Seq<u8>) -> Seq<u8> {
    trim_end_quotes(trim_start_quotes(s))
}

/// `s` without the double quotes it starts with.
pub open spec fn trim_start_quotes(s: Seq<u8>) -> Seq<u8>
    decreases s.len(),
{
    if s.len() > 0 && s[0] == 34 {
        trim_start_quotes(s.skip(1))
    } else {
        s
    }
}

/// `s` without the double quotes it ends with.
pub open spec fn trim_end_quotes(s: Seq<u8>) -> Seq<u8>
    decreases s.len(),
{
    if s.len() > 0 && s.last() == 34 {
        trim_end_quotes(s.drop_last())
    } else {
        s
    }
}

/// `s` without the double quotes it starts and ends with.
pub fn trim_quote_bytes(s: &[u8]) -> (t: &[u8])
    ensures
        t@ == trim_quotes(s@),
{
    let mut i: usize = 0;
    assert(s@.skip(0) =~= s@);
    while i < s.len() && s[i] == 34
        invariant
            i <= s@.len(),
            trim_start_quotes(s@) == trim_start_quotes(s@.skip(i as int)),
        decreases s@.len() - i,
    {
        assert(s@.skip(i as int).skip(1) =~= s@.skip(i + 1));
        i = i + 1;
    }
    let rest = &s[i..s.len()];
    assert(rest@ =~= s@.skip(i as int));
    let mut j: usize = rest.len();
    assert(rest@.take(j as int) =~= rest@);
    while j > 0 && rest[j - 1] == 34
        invariant
            j <= rest@.len(),
            trim_end_quotes(rest@) == trim_end_quotes(rest@.take(j as int)),
        decreases j,
    {
        assert(rest@.take(j as int).drop_last() =~= rest@.take(j - 1));
        j = j - 1;
    }
    let t = &rest[0..j];
    assert(t@ =~= rest@.take(j as int));
    t
}

/// The bytes of a string.
pub fn str_bytes(s: &str) -> (b: &[u8])
    ensures
        b@ == s.spec_bytes(),
{
    s.as_bytes()
}

} // verus!
