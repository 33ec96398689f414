//! Byte-level text primitives: ASCII case folding, case-insensitive
//! comparison and substring search, and Unicode whitespace trimming.
//!
//! All string-valued fields are reasoned about through their UTF-8 bytes
//! (`vstd::utf8::encode_utf8` of the character view). Case folding for
//! substring matching is ASCII-only, matching the default behaviour of
//! case-insensitive matching in the document store; trimming removes the
//! full Unicode whitespace class, as `str::trim` does, by recognising its
//! one-, two- and three-byte UTF-8 encodings.

use vstd::prelude::*;

verus! {

/// ASCII lower-casing of one byte; bytes outside `A..=Z` are unchanged.
pub open spec fn lower(b: u8) -> u8 {
    if 'A' as u8 <= b <= 'Z' as u8 {
        (b + 0x20) as u8
    } else {
        b
    }
}

/// The UTF-8 bytes of a string, the form all text specifications use.
pub open spec fn str_bytes(s: Seq<char>) -> Seq<u8> {
    vstd::utf8::encode_utf8(s)
}

/// Two byte sequences are equal up to ASCII case.
pub open spec fn ci_eq(a: Seq<u8>, b: Seq<u8>) -> bool {
    a.len() == b.len() && forall|i: int| 0 <= i < a.len() ==> lower(a[i]) == lower(#[trigger] b[i])
}

/// `pat` occurs at offset `k` of `hay`, up to ASCII case.
pub open spec fn ci_matches_at(pat: Seq<u8>, hay: Seq<u8>, k: int) -> bool {
    &&& 0 <= k
    &&& k + pat.len() <= hay.len()
    &&& forall|j: int| 0 <= j < pat.len() ==> lower(#[trigger] pat[j]) == lower(hay[k + j])
}

/// `pat` is a substring of `hay`, up to ASCII case.
pub open spec fn ci_contains(hay: Seq<u8>, pat: Seq<u8>) -> bool {
    exists|k: int| ci_matches_at(pat, hay, k)
}

/// ASCII whitespace: the single-byte whitespace characters.
pub open spec fn is_space(b: u8) -> bool {
    b == 0x20 || b == 0x09 || b == 0x0a || b == 0x0b || b == 0x0c || b == 0x0d
}

/// A two-byte UTF-8 whitespace character: U+0085 (next line) or U+00A0
/// (no-break space).
pub open spec fn is_space_2(b0: u8, b1: u8) -> bool {
    b0 == 0xc2 && (b1 == 0x85 || b1 == 0xa0)
}

/// A three-byte UTF-8 whitespace character: U+1680, U+2000 through U+200A,
/// U+2028, U+2029, U+202F, U+205F or U+3000.
pub open spec fn is_space_3(b0: u8, b1: u8, b2: u8) -> bool {
    ||| (b0 == 0xe1 && b1 == 0x9a && b2 == 0x80)
    ||| (b0 == 0xe2 && b1 == 0x80 && (0x80 <= b2 <= 0x8a || b2 == 0xa8 || b2 == 0xa9 || b2
        == 0xaf))
    ||| (b0 == 0xe2 && b1 == 0x81 && b2 == 0x9f)
    ||| (b0 == 0xe3 && b1 == 0x80 && b2 == 0x80)
}

/// The length of the UTF-8 whitespace character `b` begins with (1, 2 or
/// 3), or 0 when `b` does not begin with whitespace.
pub open spec fn space_prefix_len(b: Seq<u8>) -> int {
    if b.len() >= 1 && is_space(b[0]) {
        1
    } else if b.len() >= 2 && is_space_2(b[0], b[1]) {
        2
    } else if b.len() >= 3 && is_space_3(b[0], b[1], b[2]) {
        3
    } else {
        0
    }
}

/// The length of the UTF-8 whitespace character `b` ends with (1, 2 or 3),
/// or 0 when `b` does not end with whitespace.
pub open spec fn space_suffix_len(b: Seq<u8>) -> int {
    if b.len() >= 1 && is_space(b.last()) {
        1
    } else if b.len() >= 2 && is_space_2(b[b.len() - 2], b.last()) {
        2
    } else if b.len() >= 3 && is_space_3(b[b.len() - 3], b[b.len() - 2], b.last()) {
        3
    } else {
        0
    }
}

/// `b` without leading Unicode whitespace.
pub open spec fn trim_left(b: Seq<u8>) -> Seq<u8>
    decreases b.len(),
{
    if space_prefix_len(b) > 0 {
        trim_left(b.skip(space_prefix_len(b)))
    } else {
        b
    }
}

/// `b` without trailing Unicode whitespace.
pub open spec fn trim_right(b: Seq<u8>) -> Seq<u8>
    decreases b.len(),
{
    if space_suffix_len(b) > 0 {
        trim_right(b.take(b.len() - space_suffix_len(b)))
    } else {
        b
    }
}

/// `b` without leading and trailing Unicode whitespace.
pub open spec fn trim(b: Seq<u8>) -> Seq<u8> {
    trim_right(trim_left(b))
}

/// Whether `b` is single-byte (ASCII) whitespace.
pub fn is_space_byte(b: u8) -> (r: bool)
    ensures
        r == is_space(b),
{
    b == 0x20 || b == 0x09 || b == 0x0a || b == 0x0b || b == 0x0c || b == 0x0d
}

/// The length of the whitespace character that `b` holds at offset `i`,
/// or 0 when none starts there.
fn space_len_at(b: &[u8], i: usize) -> (k: usize)
    requires
        i <= b@.len(),
    ensures
        k == space_prefix_len(b@.skip(i as int)),
        i + k <= b@.len(),
{
    let len = b.len();
    proof {
        let rest = b@.skip(i as int);
        assert(rest.len() == len - i);
        if rest.len() >= 1 {
            assert(rest[0] == b@[i as int]);
        }
        if rest.len() >= 2 {
            assert(rest[1] == b@[i + 1]);
        }
        if rest.len() >= 3 {
            assert(rest[2] == b@[i + 2]);
        }
    }
    if i < len && is_space_byte(b[i]) {
        1
    } else if len - i >= 2 && b[i] == 0xc2 && (b[i + 1] == 0x85 || b[i + 1] == 0xa0) {
        2
    } else if len - i >= 3 && ((b[i] == 0xe1 && b[i + 1] == 0x9a && b[i + 2] == 0x80) || (b[i]
        == 0xe2 && b[i + 1] == 0x80 && (0x80 <= b[i + 2] && b[i + 2] <= 0x8a || b[i + 2] == 0xa8
        || b[i + 2] == 0xa9 || b[i + 2] == 0xaf)) || (b[i] == 0xe2 && b[i + 1] == 0x81 && b[i
        + 2] == 0x9f) || (b[i] == 0xe3 && b[i + 1] == 0x80 && b[i + 2] == 0x80)) {
        3
    } else {
        0
    }
}

/// The length of the whitespace character that `b[start..end]` ends with,
/// or 0 when none ends there.
fn space_len_before(b: &[u8], start: usize, end: usize) -> (k: usize)
    requires
        start <= end <= b@.len(),
    ensures
        k == space_suffix_len(b@.subrange(start as int, end as int)),
        k <= end - start,
{
    proof {
        let sub = b@.subrange(start as int, end as int);
        assert(sub.len() == end - start);
        if sub.len() >= 1 {
            assert(sub.last() == b@[end - 1]);
        }
        if sub.len() >= 2 {
            assert(sub[sub.len() - 2] == b@[end - 2]);
        }
        if sub.len() >= 3 {
            assert(sub[sub.len() - 3] == b@[end - 3]);
        }
    }
    if end - start >= 1 && is_space_byte(b[end - 1]) {
        1
    } else if end - start >= 2 && b[end - 2] == 0xc2 && (b[end - 1] == 0x85 || b[end - 1]
        == 0xa0) {
        2
    } else if end - start >= 3 && ((b[end - 3] == 0xe1 && b[end - 2] == 0x9a && b[end - 1]
        == 0x80) || (b[end - 3] == 0xe2 && b[end - 2] == 0x80 && (0x80 <= b[end - 1] && b[end
        - 1] <= 0x8a || b[end - 1] == 0xa8 || b[end - 1] == 0xa9 || b[end - 1] == 0xaf)) || (b[end
        - 3] == 0xe2 && b[end - 2] == 0x81 && b[end - 1] == 0x9f) || (b[end - 3] == 0xe3 && b[end
        - 2] == 0x80 && b[end - 1] == 0x80)) {
        3
    } else {
        0
    }
}

/// `b` without leading and trailing Unicode whitespace, as a fresh vector.
pub fn trim_bytes(b: &[u8]) -> (r: Vec<u8>)
    ensures
        r@ == trim(b@),
{
    let len = b.len();
    let mut start: usize = 0;
    let mut step = space_len_at(b, 0);
    proof {
        assert(b@.skip(0) =~= b@);
    }
    while step > 0
        invariant
            len == b@.len(),
            0 <= start <= len,
            step == space_prefix_len(b@.skip(start as int)),
            start + step <= len,
            trim_left(b@) == trim_left(b@.skip(start as int)),
        decreases len - start,
    {
        proof {
            assert(b@.skip(start as int).skip(step as int) =~= b@.skip(start + step));
        }
        start += step;
        step = space_len_at(b, start);
    }
    proof {
        assert(trim_left(b@) == b@.skip(start as int));
        assert(b@.skip(start as int) =~= b@.subrange(start as int, len as int));
    }
    let mut end: usize = len;
    let mut step_r = space_len_before(b, start, end);
    while step_r > 0
        invariant
            len == b@.len(),
            0 <= start <= end <= len,
            step_r == space_suffix_len(b@.subrange(start as int, end as int)),
            step_r <= end - start,
            trim_right(b@.subrange(start as int, len as int)) == trim_right(
                b@.subrange(start as int, end as int),
            ),
        decreases end,
    {
        proof {
            let sub = b@.subrange(start as int, end as int);
            assert(sub.take(sub.len() - step_r) =~= b@.subrange(start as int, end - step_r));
        }
        end -= step_r;
        step_r = space_len_before(b, start, end);
    }
    proof {
        assert(trim(b@) == b@.subrange(start as int, end as int));
    }
    let mut r: Vec<u8> = Vec::new();
    let mut i: usize = start;
    while i < end
        invariant
            len == b@.len(),
            0 <= start <= i <= end <= len,
            r@ =~= b@.subrange(start as int, i as int),
        decreases end - i,
    {
        r.push(b[i]);
        i += 1;
    }
    proof {
        assert(r@ =~= trim(b@));
    }
    r
}

/// The UTF-8 bytes of a string, as a borrowed slice.
pub fn string_bytes(s: &String) -> (b: &[u8])
    ensures
        b@ == str_bytes(s@),
{
    s.as_str().as_bytes()
}

/// ASCII lower-casing of one byte.
pub fn lower_byte(b: u8) -> (r: u8)
    ensures
        r == lower(b),
{
    if 'A' as u8 <= b && b <= 'Z' as u8 {
        b + 0x20
    } else {
        b
    }
}

/// Case-insensitive equality of two byte slices.
pub fn ci_eq_bytes(a: &[u8], b: &[u8]) -> (r: bool)
    ensures
        r == ci_eq(a@, b@),
{
    if a.len() != b.len() {
        return false;
    }
    let mut i: usize = 0;
    while i < a.len()
        invariant
            0 <= i <= a.len(),
            a@.len() == b@.len(),
            forall|j: int| 0 <= j < i ==> lower(a@[j]) == lower(#[trigger] b@[j]),
        decreases a.len() - i,
    {
        if lower_byte(a[i]) != lower_byte(b[i]) {
            return false;
        }
        i += 1;
    }
    true
}

/// Exact equality of two byte slices.
pub fn eq_bytes(a: &[u8], b: &[u8]) -> (r: bool)
    ensures
        r == (a@ == b@),
{
    if a.len() != b.len() {
        return false;
    }
    let mut i: usize = 0;
    while i < a.len()
        invariant
            0 <= i <= a.len(),
            a@.len() == b@.len(),
            forall|j: int| 0 <= j < i ==> a@[j] == #[trigger] b@[j],
        decreases a.len() - i,
    {
        if a[i] != b[i] {
            return false;
        }
        i += 1;
    }
    proof {
        assert(a@ =~= b@);
    }
    true
}

/// Case-insensitive substring search: does `pat` occur anywhere in `hay`?
pub fn ci_contains_bytes(hay: &[u8], pat: &[u8]) -> (r: bool)
    ensures
        r == ci_contains(hay@, pat@),
{
    let hay_len = hay.len();
    let pat_len = pat.len();
    if pat_len > hay_len {
        assert(forall|k: int| !ci_matches_at(pat@, hay@, k));
        return false;
    }
    let mut k: usize = 0;
    while k <= hay_len - pat_len
        invariant
            hay_len == hay@.len(),
            pat_len == pat@.len(),
            hay@.len() >= pat@.len(),
            0 <= k <= hay@.len() - pat@.len() + 1,
            forall|m: int| 0 <= m < k ==> !ci_matches_at(pat@, hay@, m),
        decreases hay_len - pat_len + 1 - k,
    {
        let mut j: usize = 0;
        let mut hit = true;
        while hit && j < pat_len
            invariant
                hay_len == hay@.len(),
                pat_len == pat@.len(),
                0 <= j <= pat@.len(),
                0 <= k,
                k + pat@.len() <= hay@.len(),
                hit ==> forall|n: int| 0 <= n < j ==> lower(#[trigger] pat@[n]) == lower(
                    hay@[k + n],
                ),
                !hit ==> !ci_matches_at(pat@, hay@, k as int),
            decreases pat.len() - j,
        {
            if lower_byte(pat[j]) != lower_byte(hay[k + j]) {
                hit = false;
            }
            j += 1;
        }
        if hit {
            assert(ci_matches_at(pat@, hay@, k as int));
            return true;
        }
        k += 1;
    }
    proof {
        assert(forall|m: int| ci_matches_at(pat@, hay@, m) ==> 0 <= m <= hay@.len() - pat@.len());
    }
    false
}

} // verus!
