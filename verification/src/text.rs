//! Byte-level text helpers shared by the parsers: ASCII case folding and the
//! Unicode whitespace that `str::trim` and `split_whitespace` skip.
//!
//! Everything works on the UTF-8 bytes of a `&str`. Whitespace characters are
//! recognised by their encodings, and since the input is valid UTF-8 a match
//! at a position is a whole character there, never the tail of another one.
use vstd::prelude::*;
use vstd::string::StringSliceAdditionalSpecFns;

verus! {

// ---------------------------------------------------------------------------
// ASCII case folding
// ---------------------------------------------------------------------------

/// The byte with an ASCII upper-case letter folded to lower case.
pub open spec fn ascii_lower(b: u8) -> u8 {
    if 0x41 <= b && b <= 0x5a {
        (b + 32) as u8
    } else {
        b
    }
}

/// Equal ignoring ASCII case.
pub open spec fn eq_ignore_case(a: Seq<u8>, b: Seq<u8>) -> bool {
    &&& a.len() == b.len()
    &&& forall|i: int| 0 <= i < a.len() ==> ascii_lower(#[trigger] a[i]) == ascii_lower(b[i])
}

/// [`ascii_lower`], computed.
pub fn exec_ascii_lower(b: u8) -> (r: u8)
    ensures
        r == ascii_lower(b),
{
    if 0x41 <= b && b <= 0x5a {
        b + 32
    } else {
        b
    }
}

/// ASCII case-insensitive equality of two byte strings.
pub fn bytes_eq_ignore_case(a: &[u8], b: &[u8]) -> (r: bool)
    ensures
        r == eq_ignore_case(a@, b@),
{
    if a.len() != b.len() {
        return false;
    }
    let mut i: usize = 0;
    while i < a.len()
        invariant
            i <= a.len(),
            a.len() == b.len(),
            forall|j: int| 0 <= j < i ==> ascii_lower(#[trigger] a@[j]) == ascii_lower(b@[j]),
        decreases a.len() - i,
    {
        if exec_ascii_lower(a[i]) != exec_ascii_lower(b[i]) {
            return false;
        }
        i = i + 1;
    }
    true
}

// ---------------------------------------------------------------------------
// Unicode whitespace
// ---------------------------------------------------------------------------

/// The byte length of the whitespace character that starts at `i`, or 0 if
/// none does.
///
/// The characters are those with the Unicode `White_Space` property, which is
/// what `char::is_whitespace` tests: the ASCII tab, line feed, vertical tab,
/// form feed, carriage return and space; U+0085 and U+00A0; U+1680;
/// U+2000 to U+200A, U+2028, U+2029, U+202F and U+205F; and U+3000.
pub open spec fn ws_at(s: Seq<u8>, i: int) -> int {
    if i < 0 || i >= s.len() {
        0
    } else if s[i] == 0x20 || (0x09 <= s[i] && s[i] <= 0x0d) {
        1
    } else if i + 1 < s.len() && s[i] == 0xc2 && (s[i + 1] == 0x85 || s[i + 1] == 0xa0) {
        2
    } else if i + 2 < s.len() && s[i] == 0xe1 && s[i + 1] == 0x9a && s[i + 2] == 0x80 {
        3
    } else if i + 2 < s.len() && s[i] == 0xe2 && s[i + 1] == 0x80 && ((0x80 <= s[i + 2] && s[i
        + 2] <= 0x8a) || s[i + 2] == 0xa8 || s[i + 2] == 0xa9 || s[i + 2] == 0xaf) {
        3
    } else if i + 2 < s.len() && s[i] == 0xe2 && s[i + 1] == 0x81 && s[i + 2] == 0x9f {
        3
    } else if i + 2 < s.len() && s[i] == 0xe3 && s[i + 1] == 0x80 && s[i + 2] == 0x80 {
        3
    } else {
        0
    }
}

/// The byte length of the whitespace character that ends just before `j`, or
/// 0 if none does.
pub open spec fn ws_before(s: Seq<u8>, j: int) -> int {
    if j >= 1 && j <= s.len() && ws_at(s, j - 1) == 1 {
        1
    } else if j >= 2 && j <= s.len() && ws_at(s, j - 2) == 2 {
        2
    } else if j >= 3 && j <= s.len() && ws_at(s, j - 3) == 3 {
        3
    } else {
        0
    }
}

/// The first position at or after `i` where no whitespace character starts.
pub open spec fn skip_ws(s: Seq<u8>, i: int) -> int
    decreases s.len() - i,
{
    if i < 0 || i >= s.len() {
        i
    } else if ws_at(s, i) > 0 {
        skip_ws(s, i + ws_at(s, i))
    } else {
        i
    }
}

/// The first position at or after `i` where a whitespace character starts,
/// or the end.
pub open spec fn find_ws(s: Seq<u8>, i: int) -> int
    decreases s.len() - i,
{
    if i < 0 || i >= s.len() {
        i
    } else if ws_at(s, i) > 0 {
        i
    } else {
        find_ws(s, i + 1)
    }
}

/// The last position at or before `j` with no whitespace character ending
/// just before it.
pub open spec fn back_ws(s: Seq<u8>, j: int) -> int
    decreases j,
{
    if j <= 0 || j > s.len() {
        j
    } else if ws_before(s, j) > 0 {
        back_ws(s, j - ws_before(s, j))
    } else {
        j
    }
}

/// `s` without leading whitespace.
pub open spec fn trim_start(s: Seq<u8>) -> Seq<u8> {
    s.subrange(skip_ws(s, 0), s.len() as int)
}

/// `s` without trailing whitespace.
pub open spec fn trim_end(s: Seq<u8>) -> Seq<u8> {
    s.subrange(0, back_ws(s, s.len() as int))
}

/// `s` without leading or trailing whitespace, as `str::trim` leaves it.
pub open spec fn trim(s: Seq<u8>) -> Seq<u8> {
    trim_end(trim_start(s))
}

pub proof fn lemma_skip_ws(s: Seq<u8>, i: int)
    requires
        0 <= i <= s.len(),
    ensures
        i <= skip_ws(s, i) <= s.len(),
        skip_ws(s, i) < s.len() ==> ws_at(s, skip_ws(s, i)) == 0,
    decreases s.len() - i,
{
    if i < s.len() && ws_at(s, i) > 0 {
        lemma_skip_ws(s, i + ws_at(s, i));
    }
}

pub proof fn lemma_find_ws(s: Seq<u8>, i: int)
    requires
        0 <= i <= s.len(),
    ensures
        i <= find_ws(s, i) <= s.len(),
        find_ws(s, i) < s.len() ==> ws_at(s, find_ws(s, i)) > 0,
    decreases s.len() - i,
{
    if i < s.len() && ws_at(s, i) == 0 {
        lemma_find_ws(s, i + 1);
    }
}

pub proof fn lemma_back_ws(s: Seq<u8>, j: int)
    requires
        0 <= j <= s.len(),
    ensures
        0 <= back_ws(s, j) <= j,
    decreases j,
{
    if j > 0 && ws_before(s, j) > 0 {
        lemma_back_ws(s, j - ws_before(s, j));
    }
}

/// [`ws_at`], computed.
pub fn ws_len_at(s: &[u8], i: usize) -> (r: usize)
    ensures
        r == ws_at(s@, i as int),
{
    if i >= s.len() {
        return 0;
    }
    let b = s[i];
    if b == 0x20 || (0x09 <= b && b <= 0x0d) {
        return 1;
    }
    let n = s.len() - i;
    if n >= 2 && b == 0xc2 && (s[i + 1] == 0x85 || s[i + 1] == 0xa0) {
        return 2;
    }
    if n >= 3 {
        let c = s[i + 1];
        let d = s[i + 2];
        if b == 0xe1 && c == 0x9a && d == 0x80 {
            return 3;
        }
        if b == 0xe2 && c == 0x80 && ((0x80 <= d && d <= 0x8a) || d == 0xa8 || d == 0xa9 || d
            == 0xaf) {
            return 3;
        }
        if b == 0xe2 && c == 0x81 && d == 0x9f {
            return 3;
        }
        if b == 0xe3 && c == 0x80 && d == 0x80 {
            return 3;
        }
    }
    0
}

/// [`ws_before`], computed.
pub fn ws_len_before(s: &[u8], j: usize) -> (r: usize)
    ensures
        r == ws_before(s@, j as int),
{
    if j >= 1 && j <= s.len() && ws_len_at(s, j - 1) == 1 {
        1
    } else if j >= 2 && j <= s.len() && ws_len_at(s, j - 2) == 2 {
        2
    } else if j >= 3 && j <= s.len() && ws_len_at(s, j - 3) == 3 {
        3
    } else {
        0
    }
}

/// [`skip_ws`], computed.
pub fn exec_skip_ws(s: &[u8], i: usize) -> (r: usize)
    requires
        i <= s.len(),
    ensures
        r == skip_ws(s@, i as int),
{
    let mut j = i;
    loop
        invariant
            i <= j <= s.len(),
            skip_ws(s@, i as int) == skip_ws(s@, j as int),
        decreases s.len() - j,
    {
        let n = ws_len_at(s, j);
        if n == 0 {
            return j;
        }
        j = j + n;
    }
}

/// [`find_ws`], computed.
pub fn exec_find_ws(s: &[u8], i: usize) -> (r: usize)
    requires
        i <= s.len(),
    ensures
        r == find_ws(s@, i as int),
{
    let mut j = i;
    while j < s.len() && ws_len_at(s, j) == 0
        invariant
            i <= j <= s.len(),
            find_ws(s@, i as int) == find_ws(s@, j as int),
        decreases s.len() - j,
    {
        j = j + 1;
    }
    j
}

/// [`back_ws`], computed.
pub fn exec_back_ws(s: &[u8], j: usize) -> (r: usize)
    requires
        j <= s.len(),
    ensures
        r == back_ws(s@, j as int),
{
    let mut k = j;
    loop
        invariant
            k <= j,
            back_ws(s@, j as int) == back_ws(s@, k as int),
        decreases k,
    {
        let n = ws_len_before(s, k);
        if n == 0 {
            return k;
        }
        k = k - n;
    }
}

/// The slice without leading whitespace.
pub fn trim_start_bytes(s: &[u8]) -> (r: &[u8])
    ensures
        r@ == trim_start(s@),
{
    proof {
        lemma_skip_ws(s@, 0);
    }
    let a = exec_skip_ws(s, 0);
    vstd::slice::slice_subrange(s, a, s.len())
}

/// The slice without trailing whitespace.
pub fn trim_end_bytes(s: &[u8]) -> (r: &[u8])
    ensures
        r@ == trim_end(s@),
{
    proof {
        lemma_back_ws(s@, s@.len() as int);
    }
    let b = exec_back_ws(s, s.len());
    vstd::slice::slice_subrange(s, 0, b)
}

/// The slice without leading or trailing whitespace.
pub fn trim_bytes(s: &[u8]) -> (r: &[u8])
    ensures
        r@ == trim(s@),
{
    trim_end_bytes(trim_start_bytes(s))
}

// ---------------------------------------------------------------------------
// UTF-8
// ---------------------------------------------------------------------------

/// The text these bytes encode, if they are UTF-8.
///
/// Calls `std::str::from_utf8`, which the standard library documents as
/// returning the same bytes as a `&str` when they are valid UTF-8 and an
/// error when they are not. Trusted to agree with `valid_utf8` on what valid
/// means.
#[verifier::external_body]
pub(crate) fn str_from_utf8(bytes: &[u8]) -> (r: Option<&str>)
    ensures
        r is Some <==> vstd::utf8::valid_utf8(bytes@),
        r matches Some(s) ==> s.spec_bytes() == bytes@,
{
    std::str::from_utf8(bytes).ok()
}

/// Byte-wise equality of two slices.
pub fn bytes_eq(a: &[u8], b: &[u8]) -> (r: bool)
    ensures
        r == (a@ == b@),
{
    if a.len() != b.len() {
        return false;
    }
    let mut i: usize = 0;
    while i < a.len()
        invariant
            i <= a.len(),
            a.len() == b.len(),
            forall|j: int| 0 <= j < i ==> a@[j] == b@[j],
        decreases a.len() - i,
    {
        if a[i] != b[i] {
            return false;
        }
        i = i + 1;
    }
    assert(a@ =~= b@);
    true
}

/// The first position at or after `i` holding `b`, if any.
pub open spec fn find_byte(s: Seq<u8>, b: u8, i: int) -> Option<int>
    decreases s.len() - i,
{
    if i < 0 || i >= s.len() {
        None
    } else if s[i] == b {
        Some(i)
    } else {
        find_byte(s, b, i + 1)
    }
}

pub proof fn lemma_find_byte(s: Seq<u8>, b: u8, i: int)
    requires
        0 <= i,
    ensures
        find_byte(s, b, i) matches Some(k) ==> i <= k < s.len() && s[k] == b && forall|j: int|
            i <= j < k ==> s[j] != b,
        find_byte(s, b, i) is None ==> forall|j: int| i <= j < s.len() ==> s[j] != b,
    decreases s.len() - i,
{
    if i < s.len() && s[i] != b {
        lemma_find_byte(s, b, i + 1);
    }
}

/// [`find_byte`], computed.
pub fn exec_find_byte(s: &[u8], b: u8, i: usize) -> (r: Option<usize>)
    ensures
        r matches Some(k) ==> i <= k < s@.len() && s@[k as int] == b,
        match find_byte(s@, b, i as int) {
            Some(k) => r == Some(k as usize),
            None => r is None,
        },
{
    let mut j = i;
    while j < s.len()
        invariant
            i <= j,
            find_byte(s@, b, i as int) == find_byte(s@, b, j as int),
            i <= s@.len() ==> j <= s@.len() || j == i,
        decreases s.len() - j,
    {
        if s[j] == b {
            return Some(j);
        }
        j = j + 1;
    }
    None
}

// ---------------------------------------------------------------------------
// Pieces of text
// ---------------------------------------------------------------------------

/// Whether position `i` of `s` is an end, or falls just before or just after
/// an ASCII byte: a place where a character always starts or ends.
pub open spec fn ascii_cut(s: Seq<u8>, i: int) -> bool {
    0 <= i <= s.len() && (i == 0 || i == s.len() || s[i] < 0x80 || s[i - 1] < 0x80)
}

/// A cut next to an ASCII byte, or at either end, is a character boundary of
/// any valid text.
pub proof fn lemma_ascii_cut(s: &str, i: int)
    requires
        ascii_cut(s.spec_bytes(), i),
    ensures
        vstd::utf8::is_char_boundary(s.spec_bytes(), i),
{
    let b = s.spec_bytes();
    vstd::utf8::encode_utf8_valid_utf8(s@);
    vstd::utf8::is_char_boundary_start_end_of_seq(b);
    if 0 < i < b.len() {
        if b[i] < 0x80 {
            vstd::utf8::is_char_boundary_iff_not_is_continuation_byte(b, i);
        } else {
            vstd::utf8::is_char_boundary_iff_not_is_continuation_byte(b, i - 1);
            vstd::utf8::valid_utf8_split(b, i - 1);
            let t = b.subrange(i - 1, b.len() as int);
            assert(t[0] == b[i - 1]);
            assert(vstd::utf8::length_of_first_scalar(t) == 1);
            assert(vstd::utf8::pop_first_scalar(t) =~= b.subrange(i, b.len() as int));
            let u = b.subrange(i, b.len() as int);
            assert(u.len() > 0);
            assert(u[0] == b[i]);
            assert(vstd::utf8::valid_utf8(t));
            assert(vstd::utf8::valid_utf8(vstd::utf8::pop_first_scalar(t)));
            assert(vstd::utf8::valid_utf8(u));
            assert(vstd::utf8::valid_first_scalar(u));
            vstd::utf8::is_char_boundary_iff_not_is_continuation_byte(b, i);
        }
    }
}

/// The text of a valid UTF-8 byte sequence.
pub open spec fn text_of(b: Seq<u8>) -> Seq<char> {
    vstd::utf8::decode_utf8(b)
}

/// A piece of text's characters are the decoding of its bytes.
pub proof fn lemma_text_of(s: &str)
    ensures
        s@ == text_of(s.spec_bytes()),
{
    vstd::utf8::encode_utf8_decode_utf8(s@);
}

/// The text between two cuts that each fall before an ASCII byte or at an end.
pub fn substr<'a>(s: &'a str, a: usize, b: usize) -> (r: &'a str)
    requires
        a <= b,
        ascii_cut(s.spec_bytes(), a as int),
        ascii_cut(s.spec_bytes(), b as int),
    ensures
        r.spec_bytes() == s.spec_bytes().subrange(a as int, b as int),
{
    proof {
        lemma_ascii_cut(s, a as int);
    }
    let (_, rest) = s.split_at(a);
    proof {
        let rb = rest.spec_bytes();
        assert(rb =~= s.spec_bytes().subrange(a as int, s.spec_bytes().len() as int));
        if b - a > 0 && b - a < rb.len() {
            assert(rb[b - a] == s.spec_bytes()[b as int]);
            assert(rb[b - a - 1] == s.spec_bytes()[b - 1]);
        }
        if b > a && s.spec_bytes()[b - 1] >= 0x80 && b < s.spec_bytes().len() && s.spec_bytes()[b as int] >= 0x80 {
            assert(false);
        }
        assert(ascii_cut(rb, b - a) || b == a);
        lemma_ascii_cut(rest, b - a);
    }
    let (mid, _) = rest.split_at(b - a);
    proof {
        assert(mid.spec_bytes() =~= s.spec_bytes().subrange(a as int, b as int));
    }
    mid
}

} // verus!
