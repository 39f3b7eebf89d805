//! A lexical scan of SQL text: enough to tell SQL words from the contents of
//! strings, quoted identifiers and comments, and nothing more.
//!
//! It does not build a tree and does not know which names exist. It has to be
//! right about lexical structure, because mistaking the inside of a string for
//! SQL, or SQL for the inside of a string, is how a write gets called a read.
//!
//! Everything is defined over bytes. The constructs it recognises are all
//! delimited by ASCII bytes, and in UTF-8 an ASCII byte is never part of a
//! longer character, so a byte scan finds exactly the boundaries a character
//! scan would.
use vstd::prelude::*;

verus! {

/// One lexical unit of a statement.
#[derive(Clone, Copy, Debug, PartialEq, Eq, Structural)]
pub enum Token {
    /// A bare word: a keyword, an unquoted identifier or a number, as the byte
    /// range `start..end` of the input.
    Word(usize, usize),
    /// A string literal, a quoted identifier or a dollar-quoted body. Never a
    /// keyword, whatever it contains.
    Quoted,
    /// Any other single byte.
    Punct(u8),
    /// A statement separator.
    Semicolon,
}

// ---------------------------------------------------------------------------
// Byte classes
// ---------------------------------------------------------------------------

/// Whitespace between tokens.
pub open spec fn is_space(b: u8) -> bool {
    b == 0x20 || (0x09 <= b && b <= 0x0d)
}

pub open spec fn is_ascii_alpha(b: u8) -> bool {
    (0x41 <= b && b <= 0x5a) || (0x61 <= b && b <= 0x7a)
}

pub open spec fn is_ascii_digit(b: u8) -> bool {
    0x30 <= b && b <= 0x39
}

/// A byte that may start a bare word. Numbers are words too: they are never
/// keywords, and they must not be mistaken for anything else.
pub open spec fn is_word_start(b: u8) -> bool {
    is_ascii_alpha(b) || is_ascii_digit(b) || b == 0x5f || b >= 0x80
}

/// A byte that may continue a bare word. `$` is legal inside an unquoted
/// identifier, though never at its start.
pub open spec fn is_word_byte(b: u8) -> bool {
    is_word_start(b) || b == 0x24
}

/// A byte that may start a dollar-quote tag, which follows the rules for an
/// unquoted identifier: not a digit.
pub open spec fn is_tag_start(b: u8) -> bool {
    is_ascii_alpha(b) || b == 0x5f || b >= 0x80
}

/// A byte that may continue a dollar-quote tag.
pub open spec fn is_tag_byte(b: u8) -> bool {
    is_tag_start(b) || is_ascii_digit(b)
}

// ---------------------------------------------------------------------------
// The scan, as spec functions over the input and a position in it
// ---------------------------------------------------------------------------

/// Just past the end of a line comment's line, or the end of the input.
pub open spec fn line_end(s: Seq<u8>, i: int) -> int
    decreases s.len() - i,
{
    if i >= s.len() {
        s.len() as int
    } else if s[i] == 0x0a {
        i + 1
    } else {
        line_end(s, i + 1)
    }
}

/// Whether `s[i..]` starts with the two bytes `a` and `b`.
pub open spec fn at2(s: Seq<u8>, i: int, a: u8, b: u8) -> bool {
    0 <= i && i + 1 < s.len() && s[i] == a && s[i + 1] == b
}

/// Just past the `*/` that closes a block comment `depth` levels deep, or the
/// end of the input if it is never closed. Block comments nest.
pub open spec fn block_end(s: Seq<u8>, i: int, depth: nat) -> int
    decreases s.len() - i,
{
    if i >= s.len() {
        s.len() as int
    } else if at2(s, i, 0x2f, 0x2a) {
        block_end(s, i + 2, depth + 1)
    } else if at2(s, i, 0x2a, 0x2f) {
        if depth <= 1 {
            i + 2
        } else {
            block_end(s, i + 2, (depth - 1) as nat)
        }
    } else {
        block_end(s, i + 1, depth)
    }
}

/// The first position at or after `i` that is not whitespace or a comment.
pub open spec fn skip_trivia(s: Seq<u8>, i: int) -> int
    decreases s.len() - i,
{
    if i < 0 || i >= s.len() {
        i
    } else if is_space(s[i]) {
        skip_trivia(s, i + 1)
    } else if at2(s, i, 0x2d, 0x2d) {
        let e = line_end(s, i + 2);
        if e > i && e <= s.len() {
            skip_trivia(s, e)
        } else {
            i
        }
    } else if at2(s, i, 0x2f, 0x2a) {
        let e = block_end(s, i + 2, 1);
        if e > i && e <= s.len() {
            skip_trivia(s, e)
        } else {
            i
        }
    } else {
        i
    }
}

/// Just past the closing quote `q` of a quoted run that started before `i`.
///
/// A doubled quote is an escaped one. With `backslash`, as in an `E'...'`
/// string, a backslash escapes the byte after it.
pub open spec fn quote_end(s: Seq<u8>, i: int, q: u8, backslash: bool) -> int
    decreases s.len() - i,
{
    if i >= s.len() {
        s.len() as int
    } else if backslash && s[i] == 0x5c {
        if i + 2 > s.len() {
            s.len() as int
        } else {
            quote_end(s, i + 2, q, backslash)
        }
    } else if s[i] == q {
        if i + 1 < s.len() && s[i + 1] == q {
            quote_end(s, i + 2, q, backslash)
        } else {
            i + 1
        }
    } else {
        quote_end(s, i + 1, q, backslash)
    }
}

/// The end of the run of word bytes starting at `i`.
pub open spec fn word_end(s: Seq<u8>, i: int) -> int
    decreases s.len() - i,
{
    if i >= s.len() || !is_word_byte(s[i]) {
        i
    } else {
        word_end(s, i + 1)
    }
}

/// The end of the run of tag bytes starting at `i`.
pub open spec fn tag_run_end(s: Seq<u8>, i: int) -> int
    decreases s.len() - i,
{
    if i >= s.len() || !is_tag_byte(s[i]) {
        i
    } else {
        tag_run_end(s, i + 1)
    }
}

/// Where the `$` closing a dollar-quote tag is, for a `$` just before `i`.
///
/// [`None`] when what follows is not a tag: `$1` is a parameter placeholder
/// and `$ INSERT $` is not a tag at all, and taking either for one would hide
/// the rest of the statement inside a string.
pub open spec fn dollar_tag_close(s: Seq<u8>, i: int) -> Option<int> {
    if 0 <= i < s.len() && s[i] == 0x24 {
        Some(i)
    } else if 0 <= i < s.len() && is_tag_start(s[i]) {
        let e = tag_run_end(s, i + 1);
        if e < s.len() && s[e] == 0x24 {
            Some(e)
        } else {
            None
        }
    } else {
        None
    }
}

/// The first position at or after `i` where `pat` occurs in `s`.
pub open spec fn find_from(s: Seq<u8>, pat: Seq<u8>, i: int) -> Option<int>
    decreases s.len() - i,
{
    if i < 0 || i + pat.len() > s.len() {
        None
    } else if s.subrange(i, i + pat.len() as int) == pat {
        Some(i)
    } else if i >= s.len() {
        None
    } else {
        find_from(s, pat, i + 1)
    }
}

/// The token starting at `k`, which is not trivia, and where it ends.
pub open spec fn lex_at(s: Seq<u8>, k: int) -> (Token, int) {
    let b = s[k];
    if b == 0x3b {
        (Token::Semicolon, k + 1)
    } else if b == 0x27 {
        (Token::Quoted, quote_end(s, k + 1, 0x27, false))
    } else if b == 0x22 {
        (Token::Quoted, quote_end(s, k + 1, 0x22, false))
    } else if b == 0x24 {
        match dollar_tag_close(s, k + 1) {
            Some(m) => {
                let tag = s.subrange(k, m + 1);
                match find_from(s, tag, m + 1) {
                    Some(p) => (Token::Quoted, p + tag.len()),
                    None => (Token::Quoted, s.len() as int),
                }
            },
            None => (Token::Punct(b), k + 1),
        }
    } else if is_word_start(b) {
        let e = word_end(s, k + 1);
        if e == k + 1 && (b == 0x45 || b == 0x65) && e < s.len() && s[e] == 0x27 {
            (Token::Quoted, quote_end(s, e + 1, 0x27, true))
        } else {
            (Token::Word(k as usize, e as usize), e)
        }
    } else {
        (Token::Punct(b), k + 1)
    }
}

/// The next token at or after `i`, and where the scan continues.
pub open spec fn next_token(s: Seq<u8>, i: int) -> Option<(Token, int)> {
    let k = skip_trivia(s, i);
    if k < 0 || k >= s.len() {
        None
    } else {
        Some(lex_at(s, k))
    }
}

/// Every token at or after `i`, in order.
pub open spec fn tokens_from(s: Seq<u8>, i: int) -> Seq<Token>
    decreases s.len() - i,
{
    if i < 0 || i > s.len() {
        Seq::empty()
    } else {
        match next_token(s, i) {
            None => Seq::empty(),
            Some((t, j)) => if j > i && j <= s.len() {
                seq![t] + tokens_from(s, j)
            } else {
                seq![t]
            },
        }
    }
}

/// The tokens of a whole input.
pub open spec fn tokens(s: Seq<u8>) -> Seq<Token> {
    tokens_from(s, 0)
}

/// The bytes a word token covers.
pub open spec fn word_text(s: Seq<u8>, start: usize, end: usize) -> Seq<u8> {
    s.subrange(start as int, end as int)
}

// ---------------------------------------------------------------------------
// Facts about the scan
// ---------------------------------------------------------------------------

pub proof fn lemma_line_end_bounds(s: Seq<u8>, i: int)
    requires
        0 <= i,
    ensures
        i <= s.len() ==> i <= line_end(s, i) <= s.len(),
        i < s.len() ==> i < line_end(s, i),
    decreases s.len() - i,
{
    if i < s.len() && s[i] != 0x0a {
        lemma_line_end_bounds(s, i + 1);
    }
}

pub proof fn lemma_block_end_bounds(s: Seq<u8>, i: int, depth: nat)
    requires
        0 <= i <= s.len(),
    ensures
        i <= block_end(s, i, depth) <= s.len(),
    decreases s.len() - i,
{
    if i < s.len() {
        if at2(s, i, 0x2f, 0x2a) {
            lemma_block_end_bounds(s, i + 2, depth + 1);
        } else if at2(s, i, 0x2a, 0x2f) {
            if depth > 1 {
                lemma_block_end_bounds(s, i + 2, (depth - 1) as nat);
            }
        } else {
            lemma_block_end_bounds(s, i + 1, depth);
        }
    }
}

pub proof fn lemma_skip_trivia_bounds(s: Seq<u8>, i: int)
    requires
        0 <= i <= s.len(),
    ensures
        i <= skip_trivia(s, i) <= s.len(),
    decreases s.len() - i,
{
    if i < s.len() {
        if is_space(s[i]) {
            lemma_skip_trivia_bounds(s, i + 1);
        } else if at2(s, i, 0x2d, 0x2d) {
            lemma_line_end_bounds(s, i + 2);
            lemma_skip_trivia_bounds(s, line_end(s, i + 2));
        } else if at2(s, i, 0x2f, 0x2a) {
            lemma_block_end_bounds(s, i + 2, 1);
            if block_end(s, i + 2, 1) > i && block_end(s, i + 2, 1) <= s.len() {
                lemma_skip_trivia_bounds(s, block_end(s, i + 2, 1));
            }
        }
    }
}

pub proof fn lemma_quote_end_bounds(s: Seq<u8>, i: int, q: u8, backslash: bool)
    requires
        0 <= i,
    ensures
        i <= s.len() ==> i <= quote_end(s, i, q, backslash) <= s.len(),
        i > s.len() ==> quote_end(s, i, q, backslash) == s.len(),
    decreases s.len() - i,
{
    if i < s.len() {
        if backslash && s[i] == 0x5c {
            if i + 2 <= s.len() {
                lemma_quote_end_bounds(s, i + 2, q, backslash);
            }
        } else if s[i] == q {
            if i + 1 < s.len() && s[i + 1] == q {
                lemma_quote_end_bounds(s, i + 2, q, backslash);
            }
        } else {
            lemma_quote_end_bounds(s, i + 1, q, backslash);
        }
    }
}

pub proof fn lemma_word_end_bounds(s: Seq<u8>, i: int)
    requires
        0 <= i <= s.len(),
    ensures
        i <= word_end(s, i) <= s.len(),
        forall|j: int| i <= j < word_end(s, i) ==> is_word_byte(#[trigger] s[j]),
    decreases s.len() - i,
{
    if i < s.len() && is_word_byte(s[i]) {
        lemma_word_end_bounds(s, i + 1);
    }
}

pub proof fn lemma_tag_run_end_bounds(s: Seq<u8>, i: int)
    requires
        0 <= i <= s.len(),
    ensures
        i <= tag_run_end(s, i) <= s.len(),
    decreases s.len() - i,
{
    if i < s.len() && is_tag_byte(s[i]) {
        lemma_tag_run_end_bounds(s, i + 1);
    }
}

pub proof fn lemma_find_from_bounds(s: Seq<u8>, pat: Seq<u8>, i: int)
    requires
        0 <= i,
    ensures
        find_from(s, pat, i) matches Some(p) ==> i <= p && p + pat.len() <= s.len(),
    decreases s.len() - i,
{
    if i + pat.len() <= s.len() && i < s.len() && s.subrange(i, i + pat.len() as int) != pat {
        lemma_find_from_bounds(s, pat, i + 1);
    }
}

/// Every token ends strictly after it starts, and inside the input.
pub proof fn lemma_lex_at_bounds(s: Seq<u8>, k: int)
    requires
        0 <= k < s.len(),
        s.len() <= usize::MAX,
    ensures
        k < lex_at(s, k).1 <= s.len(),
        lex_at(s, k).0 matches Token::Word(a, b) ==> a == k && k < b && b == lex_at(s, k).1,
{
    let b = s[k];
    if b == 0x27 || b == 0x22 {
        lemma_quote_end_bounds(s, k + 1, b, false);
    } else if b == 0x24 {
        match dollar_tag_close(s, k + 1) {
            Some(m) => {
                if k + 1 < s.len() && is_tag_start(s[k + 1]) {
                    lemma_tag_run_end_bounds(s, k + 2);
                }
                lemma_find_from_bounds(s, s.subrange(k, m + 1), m + 1);
            },
            None => {},
        }
    } else if is_word_start(b) {
        lemma_word_end_bounds(s, k + 1);
        let e = word_end(s, k + 1);
        if e == k + 1 && (b == 0x45 || b == 0x65) && e < s.len() && s[e] == 0x27 {
            lemma_quote_end_bounds(s, e + 1, 0x27, true);
        }
    }
}

/// A word token names a non-empty range of the input.
pub proof fn lemma_tokens_from_words(s: Seq<u8>, i: int)
    requires
        0 <= i <= s.len(),
        s.len() <= usize::MAX,
    ensures
        forall|n: int|
            0 <= n < tokens_from(s, i).len() ==> (#[trigger] tokens_from(s, i)[n] matches Token::Word(
                a,
                b,
            ) ==> a < b <= s.len()),
    decreases s.len() - i,
{
    lemma_skip_trivia_bounds(s, i);
    let k = skip_trivia(s, i);
    if k < s.len() {
        lemma_lex_at_bounds(s, k);
        let j = lex_at(s, k).1;
        lemma_tokens_from_words(s, j);
        let rest = tokens_from(s, j);
        assert forall|n: int| 0 <= n < tokens_from(s, i).len() implies (#[trigger] tokens_from(
            s,
            i,
        )[n] matches Token::Word(a, b) ==> a < b <= s.len()) by {
            if n > 0 {
                assert(tokens_from(s, i)[n] == rest[n - 1]);
            }
        }
    }
}

// ---------------------------------------------------------------------------
// The scan, executable
// ---------------------------------------------------------------------------

fn exec_line_end(s: &[u8], i: usize) -> (r: usize)
    requires
        i <= s.len(),
    ensures
        r == line_end(s@, i as int),
{
    let mut j = i;
    while j < s.len() && s[j] != 0x0a
        invariant
            i <= j <= s.len(),
            line_end(s@, i as int) == line_end(s@, j as int),
        decreases s.len() - j,
    {
        j = j + 1;
    }
    if j < s.len() {
        j + 1
    } else {
        j
    }
}

fn exec_at2(s: &[u8], i: usize, a: u8, b: u8) -> (r: bool)
    ensures
        r == at2(s@, i as int, a, b),
{
    i < s.len() && s.len() - i >= 2 && s[i] == a && s[i + 1] == b
}

fn exec_block_end(s: &[u8], i: usize) -> (r: usize)
    requires
        i <= s.len(),
    ensures
        r == block_end(s@, i as int, 1),
{
    let mut j = i;
    let mut depth: usize = 1;
    loop
        invariant
            i <= j <= s.len(),
            1 <= depth <= j + 1,
            block_end(s@, i as int, 1) == block_end(s@, j as int, depth as nat),
        decreases s.len() - j,
    {
        if j >= s.len() {
            return j;
        }
        if exec_at2(s, j, 0x2f, 0x2a) {
            depth = depth + 1;
            j = j + 2;
        } else if exec_at2(s, j, 0x2a, 0x2f) {
            if depth <= 1 {
                return j + 2;
            }
            depth = depth - 1;
            j = j + 2;
        } else {
            j = j + 1;
        }
    }
}

fn exec_is_space(b: u8) -> (r: bool)
    ensures
        r == is_space(b),
{
    b == 0x20 || (0x09 <= b && b <= 0x0d)
}

fn exec_is_word_start(b: u8) -> (r: bool)
    ensures
        r == is_word_start(b),
{
    (0x41 <= b && b <= 0x5a) || (0x61 <= b && b <= 0x7a) || (0x30 <= b && b <= 0x39) || b == 0x5f
        || b >= 0x80
}

fn exec_is_word_byte(b: u8) -> (r: bool)
    ensures
        r == is_word_byte(b),
{
    exec_is_word_start(b) || b == 0x24
}

fn exec_is_tag_start(b: u8) -> (r: bool)
    ensures
        r == is_tag_start(b),
{
    (0x41 <= b && b <= 0x5a) || (0x61 <= b && b <= 0x7a) || b == 0x5f || b >= 0x80
}

fn exec_is_tag_byte(b: u8) -> (r: bool)
    ensures
        r == is_tag_byte(b),
{
    exec_is_tag_start(b) || (0x30 <= b && b <= 0x39)
}

fn exec_skip_trivia(s: &[u8], i: usize) -> (r: usize)
    requires
        i <= s.len(),
    ensures
        r == skip_trivia(s@, i as int),
        i <= r <= s.len(),
{
    let mut j = i;
    proof {
        lemma_skip_trivia_bounds(s@, i as int);
    }
    loop
        invariant
            i <= j <= s.len(),
            skip_trivia(s@, i as int) == skip_trivia(s@, j as int),
            i <= skip_trivia(s@, i as int) <= s.len(),
        decreases s.len() - j,
    {
        if j >= s.len() {
            return j;
        }
        if exec_is_space(s[j]) {
            j = j + 1;
        } else if exec_at2(s, j, 0x2d, 0x2d) {
            proof {
                lemma_line_end_bounds(s@, j + 2);
            }
            j = exec_line_end(s, j + 2);
        } else if exec_at2(s, j, 0x2f, 0x2a) {
            proof {
                lemma_block_end_bounds(s@, j + 2, 1);
            }
            j = exec_block_end(s, j + 2);
        } else {
            return j;
        }
    }
}

fn exec_quote_end(s: &[u8], i: usize, q: u8, backslash: bool) -> (r: usize)
    requires
        i <= s.len() + 1,
    ensures
        r == quote_end(s@, i as int, q, backslash),
{
    let mut j = i;
    loop
        invariant
            i <= j <= s.len() + 1,
            quote_end(s@, i as int, q, backslash) == quote_end(s@, j as int, q, backslash),
        decreases s.len() + 2 - j,
    {
        if j >= s.len() {
            return s.len();
        }
        if backslash && s[j] == 0x5c {
            if s.len() - j < 2 {
                return s.len();
            }
            j = j + 2;
        } else if s[j] == q {
            if j + 1 < s.len() && s[j + 1] == q {
                j = j + 2;
            } else {
                return j + 1;
            }
        } else {
            j = j + 1;
        }
    }
}

fn exec_word_end(s: &[u8], i: usize) -> (r: usize)
    requires
        i <= s.len(),
    ensures
        r == word_end(s@, i as int),
{
    let mut j = i;
    while j < s.len() && exec_is_word_byte(s[j])
        invariant
            i <= j <= s.len(),
            word_end(s@, i as int) == word_end(s@, j as int),
        decreases s.len() - j,
    {
        j = j + 1;
    }
    j
}

fn exec_tag_run_end(s: &[u8], i: usize) -> (r: usize)
    requires
        i <= s.len(),
    ensures
        r == tag_run_end(s@, i as int),
{
    let mut j = i;
    while j < s.len() && exec_is_tag_byte(s[j])
        invariant
            i <= j <= s.len(),
            tag_run_end(s@, i as int) == tag_run_end(s@, j as int),
        decreases s.len() - j,
    {
        j = j + 1;
    }
    j
}

fn exec_dollar_tag_close(s: &[u8], i: usize) -> (r: Option<usize>)
    requires
        i <= s.len(),
    ensures
        r matches Some(m) ==> dollar_tag_close(s@, i as int) == Some(m as int),
        r is None ==> dollar_tag_close(s@, i as int) is None,
{
    if i < s.len() && s[i] == 0x24 {
        Some(i)
    } else if i < s.len() && exec_is_tag_start(s[i]) {
        let e = exec_tag_run_end(s, i + 1);
        if e < s.len() && s[e] == 0x24 {
            Some(e)
        } else {
            None
        }
    } else {
        None
    }
}

/// Whether `s[at..]` starts with `s[from..to]`.
fn exec_matches_at(s: &[u8], at: usize, from: usize, to: usize) -> (r: bool)
    requires
        from <= to <= s.len(),
        at <= s.len(),
    ensures
        r == (at + (to - from) <= s.len() && s@.subrange(at as int, at + (to - from)) == s@.subrange(
            from as int,
            to as int,
        )),
{
    let n = to - from;
    if s.len() - at < n {
        return false;
    }
    let ghost x = s@.subrange(at as int, at + n);
    let ghost y = s@.subrange(from as int, to as int);
    let mut k: usize = 0;
    while k < n
        invariant
            k <= n,
            n == to - from,
            at + n <= s.len(),
            from <= to <= s.len(),
            x == s@.subrange(at as int, at + n),
            y == s@.subrange(from as int, to as int),
            forall|m: int| 0 <= m < k ==> #[trigger] x[m] == y[m],
        decreases n - k,
    {
        if s[at + k] != s[from + k] {
            assert(x[k as int] != y[k as int]);
            return false;
        }
        k = k + 1;
    }
    assert(x =~= y);
    true
}

fn exec_find_tag(s: &[u8], from: usize, to: usize, i: usize) -> (r: Option<usize>)
    requires
        from < to <= s.len(),
        i <= s.len(),
    ensures
        r matches Some(p) ==> find_from(s@, s@.subrange(from as int, to as int), i as int) == Some(
            p as int,
        ),
        r is None ==> find_from(s@, s@.subrange(from as int, to as int), i as int) is None,
{
    let ghost pat = s@.subrange(from as int, to as int);
    let mut j = i;
    loop
        invariant
            i <= j <= s.len(),
            from < to <= s.len(),
            pat == s@.subrange(from as int, to as int),
            find_from(s@, pat, i as int) == find_from(s@, pat, j as int),
        decreases s.len() - j,
    {
        if s.len() - j < to - from {
            return None;
        }
        if exec_matches_at(s, j, from, to) {
            return Some(j);
        }
        j = j + 1;
    }
}

/// The token starting at `k`, and where it ends.
fn exec_lex_at(s: &[u8], k: usize) -> (r: (Token, usize))
    requires
        k < s.len(),
    ensures
        r.0 == lex_at(s@, k as int).0,
        r.1 == lex_at(s@, k as int).1,
{
    proof {
        lemma_lex_at_bounds(s@, k as int);
    }
    let b = s[k];
    if b == 0x3b {
        (Token::Semicolon, k + 1)
    } else if b == 0x27 {
        (Token::Quoted, exec_quote_end(s, k + 1, 0x27, false))
    } else if b == 0x22 {
        (Token::Quoted, exec_quote_end(s, k + 1, 0x22, false))
    } else if b == 0x24 {
        match exec_dollar_tag_close(s, k + 1) {
            Some(m) => {
                proof {
                    if k + 1 < s.len() && is_tag_start(s@[k + 1]) {
                        lemma_tag_run_end_bounds(s@, k + 2);
                    }
                }
                match exec_find_tag(s, k, m + 1, m + 1) {
                    Some(p) => (Token::Quoted, p + (m + 1 - k)),
                    None => (Token::Quoted, s.len()),
                }
            },
            None => (Token::Punct(b), k + 1),
        }
    } else if exec_is_word_start(b) {
        let e = exec_word_end(s, k + 1);
        if e == k + 1 && (b == 0x45 || b == 0x65) && e < s.len() && s[e] == 0x27 {
            (Token::Quoted, exec_quote_end(s, e + 1, 0x27, true))
        } else {
            (Token::Word(k, e), e)
        }
    } else {
        (Token::Punct(b), k + 1)
    }
}

/// Splits SQL text into its tokens, skipping whitespace and comments.
///
/// Never fails: an unterminated string, quoted identifier, dollar-quoted body
/// or comment runs to the end of the input, so nothing after it is read as
/// SQL and nothing before it is lost.
pub fn tokenize(s: &[u8]) -> (r: Vec<Token>)
    ensures
        r@ == tokens(s@),
{
    let mut out: Vec<Token> = Vec::new();
    let mut i: usize = 0;
    loop
        invariant
            i <= s.len(),
            tokens(s@) == out@ + tokens_from(s@, i as int),
        decreases s.len() - i,
    {
        let k = exec_skip_trivia(s, i);
        if k >= s.len() {
            assert(tokens_from(s@, i as int) =~= Seq::<Token>::empty());
            assert(out@ + Seq::<Token>::empty() =~= out@);
            return out;
        }
        let (t, j) = exec_lex_at(s, k);
        proof {
            lemma_lex_at_bounds(s@, k as int);
            assert(tokens_from(s@, i as int) == seq![t] + tokens_from(s@, j as int));
            assert(out@ + tokens_from(s@, i as int) =~= out@.push(t) + tokens_from(s@, j as int));
        }
        out.push(t);
        i = j;
    }
}

} // verus!
