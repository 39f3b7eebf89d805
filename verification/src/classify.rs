//! Deciding what a statement does, from its text.
//!
//! A false negative sends a read to the primary and costs a little throughput.
//! A false positive sends a write's read to a replica and returns stale data.
//! So every ambiguity resolves to [`StmtClass::Unknown`], which is not
//! replica-eligible.
//!
//! A statement is [`StmtClass::ReadOnly`] only when its first word is on a
//! short allowlist, no word in it is on a denylist of things that write, lock
//! or have side effects, and no word in it names a function known to write.
//! A string of several statements is as restrictive as its most restrictive
//! part.
use vstd::prelude::*;
use vstd::string::StringSliceAdditionalSpecFns;

use crate::route::StmtClass;
use crate::text::{ascii_lower, eq_ignore_case, bytes_eq_ignore_case};
use crate::sql::{Token, tokenize, tokens, word_text, lemma_tokens_from_words};

verus! {

// ---------------------------------------------------------------------------
// Word lists and their filter
// ---------------------------------------------------------------------------

/// What every list entry is: lowercase at both ends, and short enough for a
/// 64-bit length mask.
pub open spec fn keyword_ok(w: Seq<u8>) -> bool {
    &&& 0 < w.len() < 64
    &&& 0x61 <= w[0] <= 0x7a
    &&& 0x61 <= w[w.len() - 1] <= 0x7a
}

/// Whether some entry equals `w`, ignoring ASCII case.
pub open spec fn held_by(entries: Seq<Seq<u8>>, w: Seq<u8>) -> bool {
    exists|i: int| 0 <= i < entries.len() && eq_ignore_case(w, #[trigger] entries[i])
}

/// The bytes of each word of a list.
pub open spec fn entry_bytes(words: Seq<&'static str>) -> Seq<Seq<u8>> {
    words.map_values(|w: &'static str| w.spec_bytes())
}

pub open spec fn bit64(x: u64, n: u64) -> bool {
    x & (1u64 << n) != 0
}

pub open spec fn bit32(x: u32, n: u32) -> bool {
    x & (1u32 << n) != 0
}

proof fn lemma_bit64_set(x: u64, n: u64)
    requires
        n < 64,
    ensures
        bit64(x | (1u64 << n), n),
{
    assert((x | (1u64 << n)) & (1u64 << n) != 0) by (bit_vector)
        requires
            n < 64,
    ;
}

proof fn lemma_bit64_keep(x: u64, y: u64, n: u64)
    requires
        n < 64,
        bit64(x, n),
    ensures
        bit64(x | y, n),
{
    assert((x & (1u64 << n)) != 0 ==> ((x | y) & (1u64 << n)) != 0) by (bit_vector)
        requires
            n < 64,
    ;
}

proof fn lemma_bit32_set(x: u32, n: u32)
    requires
        n < 32,
    ensures
        bit32(x | (1u32 << n), n),
{
    assert((x | (1u32 << n)) & (1u32 << n) != 0) by (bit_vector)
        requires
            n < 32,
    ;
}

proof fn lemma_bit32_keep(x: u32, y: u32, n: u32)
    requires
        n < 32,
        bit32(x, n),
    ensures
        bit32(x | y, n),
{
    assert((x & (1u32 << n)) != 0 ==> ((x | y) & (1u32 << n)) != 0) by (bit_vector)
        requires
            n < 32,
    ;
}

/// `| 0x20` folds an upper-case ASCII letter onto its lower case and leaves a
/// lower-case one alone.
proof fn lemma_fold_letter(b: u8, c: u8)
    requires
        0x61 <= c <= 0x7a,
        ascii_lower(b) == c,
    ensures
        b | 0x20 == c,
{
    if 0x41 <= b && b <= 0x5a {
        assert(0x41 <= b <= 0x5a ==> b | 0x20 == b + 32) by (bit_vector);
    } else {
        assert(0x61 <= b <= 0x7a ==> b | 0x20 == b) by (bit_vector);
    }
}

/// A letter folded with `| 0x20` is that letter in lower case, and nothing
/// but a letter folds into the lower-case range.
proof fn lemma_fold_back(b: u8)
    requires
        0x61 <= b | 0x20 <= 0x7a,
    ensures
        ascii_lower(b) == b | 0x20,
{
    assert(0x61 <= b | 0x20 <= 0x7a ==> (0x41 <= b <= 0x5a && b | 0x20 == b + 32) || (0x61 <= b <= 0x7a
        && b | 0x20 == b)) by (bit_vector);
}

proof fn lemma_bit64_empty(n: u64)
    requires
        n < 64,
    ensures
        !bit64(0, n),
{
    assert(0u64 & (1u64 << n) == 0) by (bit_vector)
        requires
            n < 64,
    ;
}

proof fn lemma_bit32_empty(n: u32)
    requires
        n < 32,
    ensures
        !bit32(0, n),
{
    assert(0u32 & (1u32 << n) == 0) by (bit_vector)
        requires
            n < 32,
    ;
}

proof fn lemma_bit64_only(x: u64, m: u64, n: u64)
    requires
        n < 64,
        m < 64,
        bit64(x | (1u64 << m), n),
        n != m,
    ensures
        bit64(x, n),
{
    assert(((x | (1u64 << m)) & (1u64 << n)) != 0 && n != m ==> (x & (1u64 << n)) != 0) by (bit_vector)
        requires
            n < 64,
            m < 64,
    ;
}

proof fn lemma_bit32_only(x: u32, m: u32, n: u32)
    requires
        n < 32,
        m < 32,
        bit32(x | (1u32 << m), n),
        n != m,
    ensures
        bit32(x, n),
{
    assert(((x | (1u32 << m)) & (1u32 << n)) != 0 && n != m ==> (x & (1u32 << n)) != 0) by (bit_vector)
        requires
            n < 32,
            m < 32,
    ;
}

/// Whether some entry is `n` bytes long.
pub open spec fn has_length(entries: Seq<Seq<u8>>, n: int) -> bool {
    exists|i: int| 0 <= i < entries.len() && (#[trigger] entries[i]).len() == n
}

/// Whether some entry starts with byte `c`.
pub open spec fn has_initial(entries: Seq<Seq<u8>>, c: int) -> bool {
    exists|i: int| 0 <= i < entries.len() && (#[trigger] entries[i])[0] == c
}

/// Whether some entry ends with byte `c`.
pub open spec fn has_final(entries: Seq<Seq<u8>>, c: int) -> bool {
    exists|i: int| 0 <= i < entries.len() && (#[trigger] entries[i])[entries[i].len() - 1] == c
}

/// What the filter lets through: a word as long as some entry, starting as
/// some entry starts and ending as some entry ends, ignoring ASCII case.
pub open spec fn filter_admits(entries: Seq<Seq<u8>>, w: Seq<u8>) -> bool {
    &&& 0 < w.len() < 64
    &&& has_length(entries, w.len() as int)
    &&& has_initial(entries, ascii_lower(w[0]) as int)
    &&& has_final(entries, ascii_lower(w[w.len() - 1]) as int)
}

/// A keyword list, and a filter over it.
///
/// Three facts about each entry are kept as bitmasks: its length, its first
/// byte and its last byte. A word disagreeing with any of them cannot be on
/// the list and is refused before a single comparison happens. The filter is
/// derived from the list rather than written down, so an entry cannot be
/// added without its filter bits.
pub struct WordSet {
    words: Vec<&'static str>,
    /// Bit `n` set if some entry is `n` bytes long.
    lengths: u64,
    /// Bit `n` set if some entry starts with the `n`th letter.
    initials: u32,
    /// The same for the last letter.
    finals: u32,
}

impl WordSet {
    /// The entries, as bytes.
    pub closed spec fn entries(&self) -> Seq<Seq<u8>> {
        entry_bytes(self.words@)
    }

    /// Whether `w` is on the list, ignoring ASCII case.
    pub open spec fn holds(&self, w: Seq<u8>) -> bool {
        held_by(self.entries(), w)
    }

    /// The entries, in the order they were listed.
    pub fn words(&self) -> (r: &[&'static str])
        ensures
            entry_bytes(r@) == self.entries(),
    {
        self.words.as_slice()
    }

    #[verifier::type_invariant]
    closed spec fn filter_covers(&self) -> bool {
        &&& forall|i: int|
            0 <= i < self.words@.len() ==> {
                let w = #[trigger] self.words@[i].spec_bytes();
                &&& keyword_ok(w)
                &&& bit64(self.lengths, w.len() as u64)
                &&& bit32(self.initials, (w[0] - 0x61) as u32)
                &&& bit32(self.finals, (w[w.len() - 1] - 0x61) as u32)
            }
        &&& forall|n: u64| n < 64 && #[trigger] bit64(self.lengths, n) ==> has_length(self.entries(), n as int)
        &&& forall|c: u32| c < 26 && #[trigger] bit32(self.initials, c) ==> has_initial(self.entries(), c + 0x61)
        &&& forall|c: u32| c < 26 && #[trigger] bit32(self.finals, c) ==> has_final(self.entries(), c + 0x61)
    }

    /// Builds the filter by reading the list.
    pub fn new(words: Vec<&'static str>) -> (r: WordSet)
        requires
            forall|i: int| 0 <= i < words@.len() ==> keyword_ok(#[trigger] words@[i].spec_bytes()),
        ensures
            r.entries() == entry_bytes(words@),
    {
        let mut lengths: u64 = 0;
        let mut initials: u32 = 0;
        let mut finals: u32 = 0;
        let mut at: usize = 0;
        let ghost all = entry_bytes(words@);
        proof {
            assert forall|n: u64| n < 64 && #[trigger] bit64(lengths, n) implies has_length(
                all.subrange(0, 0),
                n as int,
            ) by {
                lemma_bit64_empty(n);
            }
            assert forall|c: u32| c < 26 && #[trigger] bit32(initials, c) implies has_initial(
                all.subrange(0, 0),
                c + 0x61,
            ) by {
                lemma_bit32_empty(c);
            }
            assert forall|c: u32| c < 26 && #[trigger] bit32(finals, c) implies has_final(
                all.subrange(0, 0),
                c + 0x61,
            ) by {
                lemma_bit32_empty(c);
            }
        }
        while at < words.len()
            invariant
                at <= words@.len(),
                all == entry_bytes(words@),
                forall|i: int| 0 <= i < words@.len() ==> keyword_ok(#[trigger] words@[i].spec_bytes()),
                forall|i: int|
                    0 <= i < at ==> {
                        let w = #[trigger] words@[i].spec_bytes();
                        &&& bit64(lengths, w.len() as u64)
                        &&& bit32(initials, (w[0] - 0x61) as u32)
                        &&& bit32(finals, (w[w.len() - 1] - 0x61) as u32)
                    },
                forall|n: u64| n < 64 && #[trigger] bit64(lengths, n) ==> has_length(all.subrange(0, at as int), n as int),
                forall|c: u32| c < 26 && #[trigger] bit32(initials, c) ==> has_initial(all.subrange(0, at as int), c + 0x61),
                forall|c: u32| c < 26 && #[trigger] bit32(finals, c) ==> has_final(all.subrange(0, at as int), c + 0x61),
            decreases words.len() - at,
        {
            let bytes = words[at].as_bytes();
            let n = bytes.len();
            let first = bytes[0];
            let last = bytes[n - 1];
            let ghost old_lengths = lengths;
            let ghost old_initials = initials;
            let ghost old_finals = finals;
            lengths = lengths | (1u64 << (n as u64));
            initials = initials | (1u32 << ((first - 0x61) as u32));
            finals = finals | (1u32 << ((last - 0x61) as u32));
            proof {
                let before = all.subrange(0, at as int);
                let after = all.subrange(0, at + 1);
                let w = words@[at as int].spec_bytes();
                assert(after[at as int] == w);
                assert(w.len() == n && w[0] == first && w[w.len() - 1] == last);
                assert forall|i: int| 0 <= i < at implies after[i] == before[i] by {}
                assert forall|k: u64| k < 64 && #[trigger] bit64(lengths, k) implies has_length(after, k as int) by {
                    if k == n as u64 {
                        assert(after[at as int].len() == k);
                    } else {
                        lemma_bit64_only(old_lengths, n as u64, k);
                        let i = choose|i: int| 0 <= i < before.len() && (#[trigger] before[i]).len() == k;
                        assert(after[i] == before[i]);
                    }
                }
                assert forall|c: u32| c < 26 && #[trigger] bit32(initials, c) implies has_initial(after, c + 0x61) by {
                    if c == (first - 0x61) as u32 {
                        assert(after[at as int][0] == c + 0x61);
                    } else {
                        lemma_bit32_only(old_initials, (first - 0x61) as u32, c);
                        let i = choose|i: int| 0 <= i < before.len() && (#[trigger] before[i])[0] == c + 0x61;
                        assert(after[i] == before[i]);
                    }
                }
                assert forall|c: u32| c < 26 && #[trigger] bit32(finals, c) implies has_final(after, c + 0x61) by {
                    if c == (last - 0x61) as u32 {
                        assert(after[at as int][after[at as int].len() - 1] == c + 0x61);
                    } else {
                        lemma_bit32_only(old_finals, (last - 0x61) as u32, c);
                        let i = choose|i: int| 0 <= i < before.len() && (#[trigger] before[i])[before[i].len() - 1] == c
                            + 0x61;
                        assert(after[i] == before[i]);
                    }
                }
                lemma_bit64_set(old_lengths, n as u64);
                lemma_bit32_set(old_initials, (first - 0x61) as u32);
                lemma_bit32_set(old_finals, (last - 0x61) as u32);
                assert forall|i: int| 0 <= i < at + 1 implies {
                    let w = #[trigger] words@[i].spec_bytes();
                    &&& bit64(lengths, w.len() as u64)
                    &&& bit32(initials, (w[0] - 0x61) as u32)
                    &&& bit32(finals, (w[w.len() - 1] - 0x61) as u32)
                } by {
                    let w = words@[i].spec_bytes();
                    if i < at {
                        lemma_bit64_keep(old_lengths, 1u64 << (n as u64), w.len() as u64);
                        lemma_bit32_keep(old_initials, 1u32 << ((first - 0x61) as u32), (w[0] - 0x61) as u32);
                        lemma_bit32_keep(
                            old_finals,
                            1u32 << ((last - 0x61) as u32),
                            (w[w.len() - 1] - 0x61) as u32,
                        );
                    }
                }
            }
            at = at + 1;
        }
        proof {
            assert(all.subrange(0, at as int) =~= all);
        }
        WordSet { words, lengths, initials, finals }
    }

    /// Whether the filter can rule `word` out without comparing it to anything.
    ///
    /// `true` for a word that might be on the list, and `false` only for one
    /// that certainly is not, which is the direction that has to be exact.
    #[verifier::rlimit(60)]
    pub fn might_hold(&self, word: &[u8]) -> (r: bool)
        ensures
            r == filter_admits(self.entries(), word@),
            self.holds(word@) ==> r,
    {
        proof {
            use_type_invariant(self);
            if self.holds(word@) {
                let i = choose|i: int| 0 <= i < self.entries().len() && eq_ignore_case(word@, #[trigger] self.entries()[i]);
                let w = self.entries()[i];
                assert(w == self.words@[i].spec_bytes());
                assert(ascii_lower(word@[0]) == ascii_lower(w[0]));
                assert(ascii_lower(word@[word@.len() - 1]) == ascii_lower(w[w.len() - 1]));
                assert(has_length(self.entries(), word@.len() as int));
                assert(has_initial(self.entries(), ascii_lower(word@[0]) as int));
                assert(has_final(self.entries(), ascii_lower(word@[word@.len() - 1]) as int));
            }
        }
        let n = word.len();
        if n == 0 || n >= 64 {
            return false;
        }
        if self.lengths & (1u64 << (n as u64)) == 0 {
            proof {
                if has_length(self.entries(), n as int) {
                    let i = choose|i: int| 0 <= i < self.entries().len() && (#[trigger] self.entries()[i]).len() == n;
                    assert(self.words@[i].spec_bytes() == self.entries()[i]);
                }
            }
            return false;
        }
        let first = word[0] | 0x20;
        let last = word[n - 1] | 0x20;
        if !(0x61 <= first && first <= 0x7a) || !(0x61 <= last && last <= 0x7a) {
            proof {
                if has_initial(self.entries(), ascii_lower(word@[0]) as int) {
                    let i = choose|i: int| 0 <= i < self.entries().len() && (#[trigger] self.entries()[i])[0] == ascii_lower(word@[0]);
                    let w = self.words@[i].spec_bytes();
                    assert(w == self.entries()[i]);
                    lemma_fold_letter(word@[0], w[0]);
                }
                if has_final(self.entries(), ascii_lower(word@[n - 1]) as int) {
                    let i = choose|i: int| 0 <= i < self.entries().len() && (#[trigger] self.entries()[i])[self.entries()[i].len() - 1] == ascii_lower(word@[n - 1]);
                    let w = self.words@[i].spec_bytes();
                    assert(w == self.entries()[i]);
                    lemma_fold_letter(word@[n - 1], w[w.len() - 1]);
                }
            }
            return false;
        }
        let r = self.initials & (1u32 << ((first - 0x61) as u32)) != 0 && self.finals & (1u32 << ((
        last - 0x61) as u32)) != 0;
        proof {
            lemma_fold_back(word@[0]);
            lemma_fold_back(word@[n - 1]);
            assert(bit64(self.lengths, n as u64));
            assert(has_length(self.entries(), n as int));
            if has_initial(self.entries(), ascii_lower(word@[0]) as int) {
                let i = choose|i: int| 0 <= i < self.entries().len() && (#[trigger] self.entries()[i])[0] == ascii_lower(word@[0]);
                let w = self.words@[i].spec_bytes();
                assert(w == self.entries()[i]);
                assert(bit32(self.initials, (first - 0x61) as u32));
            }
            if has_final(self.entries(), ascii_lower(word@[n - 1]) as int) {
                let i = choose|i: int| 0 <= i < self.entries().len() && (#[trigger] self.entries()[i])[self.entries()[i].len() - 1] == ascii_lower(word@[n - 1]);
                let w = self.words@[i].spec_bytes();
                assert(w == self.entries()[i]);
                assert(bit32(self.finals, (last - 0x61) as u32));
            }
            if bit32(self.initials, (first - 0x61) as u32) {
                assert(has_initial(self.entries(), ((first - 0x61) as u32) + 0x61));
            }
            if bit32(self.finals, (last - 0x61) as u32) {
                assert(has_final(self.entries(), ((last - 0x61) as u32) + 0x61));
            }
        }
        r
    }

    /// Whether `word` is on the list, by comparing it with every entry.
    pub fn scan(&self, word: &[u8]) -> (r: bool)
        ensures
            r == self.holds(word@),
    {
        let mut i: usize = 0;
        while i < self.words.len()
            invariant
                i <= self.words@.len(),
                self.entries() == entry_bytes(self.words@),
                forall|j: int| 0 <= j < i ==> !eq_ignore_case(word@, #[trigger] self.entries()[j]),
            decreases self.words.len() - i,
        {
            if bytes_eq_ignore_case(word, self.words[i].as_bytes()) {
                assert(eq_ignore_case(word@, self.entries()[i as int]));
                return true;
            }
            i = i + 1;
        }
        false
    }
}

/// ASCII case-insensitive membership: the filter first, then the scan.
pub fn matches_any(word: &[u8], set: &WordSet) -> (r: bool)
    ensures
        r == set.holds(word@),
{
    set.might_hold(word) && set.scan(word)
}

// ---------------------------------------------------------------------------
// The three lists
// ---------------------------------------------------------------------------

/// Statements that may be reads, by their first word. Anything else goes to
/// the primary, which is the correct answer for transaction control, `SET`,
/// `SHOW`, DDL and every construct this list has not learned yet.
pub open spec fn read_first_words() -> Seq<&'static str> {
    seq!["select", "with", "table", "values", "explain"]
}

/// Words that disqualify a statement from being a read, wherever they appear.
///
/// Only words reachable inside a statement that leads with an allowlisted
/// word: data-modifying CTEs and what `EXPLAIN` reaches (`insert`, `update`,
/// `delete`, `merge`, `truncate`, `create`, `refresh`, `execute`, `declare`),
/// the locking clauses (`share`; `FOR UPDATE` is caught by `update`),
/// `SELECT ... INTO` (`into`), and `EXPLAIN ANALYZE` in both spellings.
pub open spec fn write_words() -> Seq<&'static str> {
    seq![
        "insert",
        "update",
        "delete",
        "merge",
        "truncate",
        "create",
        "refresh",
        "execute",
        "declare",
        "share",
        "into",
        "analyze",
        "analyse",
    ]
}

/// Functions that write, and so cannot run on a replica: sequences, advisory
/// locks, transaction IDs, WAL messages, replication control and large
/// objects. Matched on the bare name, so a schema-qualified call is caught
/// too.
pub open spec fn writing_functions() -> Seq<&'static str> {
    seq![
        "nextval",
        "setval",
        "pg_advisory_lock",
        "pg_advisory_lock_shared",
        "pg_advisory_unlock",
        "pg_advisory_unlock_all",
        "pg_advisory_unlock_shared",
        "pg_advisory_xact_lock",
        "pg_advisory_xact_lock_shared",
        "pg_try_advisory_lock",
        "pg_try_advisory_lock_shared",
        "pg_try_advisory_xact_lock",
        "pg_try_advisory_xact_lock_shared",
        "txid_current",
        "pg_current_xact_id",
        "pg_logical_emit_message",
        "pg_create_restore_point",
        "pg_switch_wal",
        "pg_create_physical_replication_slot",
        "pg_create_logical_replication_slot",
        "pg_drop_replication_slot",
        "pg_replication_slot_advance",
        "lo_create",
        "lo_creat",
        "lo_import",
        "lo_unlink",
        "lo_from_bytea",
        "lo_put",
    ]
}

impl WordSet {
    /// The allowlist of first words.
    pub fn read_first() -> (r: WordSet)
        ensures
            r.entries() == entry_bytes(read_first_words()),
    {
        let v = vec!["select", "with", "table", "values", "explain"];
        proof {
            broadcast use vstd::string::group_string_axioms;

            reveal_strlit("select");
            reveal_strlit("with");
            reveal_strlit("table");
            reveal_strlit("values");
            reveal_strlit("explain");
            assert(vstd::string::is_ascii("select"));
            assert(vstd::string::is_ascii("with"));
            assert(vstd::string::is_ascii("table"));
            assert(vstd::string::is_ascii("values"));
            assert(vstd::string::is_ascii("explain"));
            assert(v@ =~= read_first_words());
        }
        WordSet::new(v)
    }

    /// The denylist.
    pub fn write() -> (r: WordSet)
        ensures
            r.entries() == entry_bytes(write_words()),
    {
        let v = vec![
            "insert",
            "update",
            "delete",
            "merge",
            "truncate",
            "create",
            "refresh",
            "execute",
            "declare",
            "share",
            "into",
            "analyze",
            "analyse",
        ];
        proof {
            broadcast use vstd::string::group_string_axioms;

            reveal_strlit("insert");
            reveal_strlit("update");
            reveal_strlit("delete");
            reveal_strlit("merge");
            reveal_strlit("truncate");
            reveal_strlit("create");
            reveal_strlit("refresh");
            reveal_strlit("execute");
            reveal_strlit("declare");
            reveal_strlit("share");
            reveal_strlit("into");
            reveal_strlit("analyze");
            reveal_strlit("analyse");
            assert(vstd::string::is_ascii("insert"));
            assert(vstd::string::is_ascii("update"));
            assert(vstd::string::is_ascii("delete"));
            assert(vstd::string::is_ascii("merge"));
            assert(vstd::string::is_ascii("truncate"));
            assert(vstd::string::is_ascii("create"));
            assert(vstd::string::is_ascii("refresh"));
            assert(vstd::string::is_ascii("execute"));
            assert(vstd::string::is_ascii("declare"));
            assert(vstd::string::is_ascii("share"));
            assert(vstd::string::is_ascii("into"));
            assert(vstd::string::is_ascii("analyze"));
            assert(vstd::string::is_ascii("analyse"));
            assert(v@ =~= write_words());
        }
        WordSet::new(v)
    }

    /// The functions that write.
    pub fn writing() -> (r: WordSet)
        ensures
            r.entries() == entry_bytes(writing_functions()),
    {
        let v = vec![
            "nextval",
            "setval",
            "pg_advisory_lock",
            "pg_advisory_lock_shared",
            "pg_advisory_unlock",
            "pg_advisory_unlock_all",
            "pg_advisory_unlock_shared",
            "pg_advisory_xact_lock",
            "pg_advisory_xact_lock_shared",
            "pg_try_advisory_lock",
            "pg_try_advisory_lock_shared",
            "pg_try_advisory_xact_lock",
            "pg_try_advisory_xact_lock_shared",
            "txid_current",
            "pg_current_xact_id",
            "pg_logical_emit_message",
            "pg_create_restore_point",
            "pg_switch_wal",
            "pg_create_physical_replication_slot",
            "pg_create_logical_replication_slot",
            "pg_drop_replication_slot",
            "pg_replication_slot_advance",
            "lo_create",
            "lo_creat",
            "lo_import",
            "lo_unlink",
            "lo_from_bytea",
            "lo_put",
        ];
        proof {
            broadcast use vstd::string::group_string_axioms;

            reveal_strlit("nextval");
            reveal_strlit("setval");
            reveal_strlit("pg_advisory_lock");
            reveal_strlit("pg_advisory_lock_shared");
            reveal_strlit("pg_advisory_unlock");
            reveal_strlit("pg_advisory_unlock_all");
            reveal_strlit("pg_advisory_unlock_shared");
            reveal_strlit("pg_advisory_xact_lock");
            reveal_strlit("pg_advisory_xact_lock_shared");
            reveal_strlit("pg_try_advisory_lock");
            reveal_strlit("pg_try_advisory_lock_shared");
            reveal_strlit("pg_try_advisory_xact_lock");
            reveal_strlit("pg_try_advisory_xact_lock_shared");
            reveal_strlit("txid_current");
            reveal_strlit("pg_current_xact_id");
            reveal_strlit("pg_logical_emit_message");
            reveal_strlit("pg_create_restore_point");
            reveal_strlit("pg_switch_wal");
            reveal_strlit("pg_create_physical_replication_slot");
            reveal_strlit("pg_create_logical_replication_slot");
            reveal_strlit("pg_drop_replication_slot");
            reveal_strlit("pg_replication_slot_advance");
            reveal_strlit("lo_create");
            reveal_strlit("lo_creat");
            reveal_strlit("lo_import");
            reveal_strlit("lo_unlink");
            reveal_strlit("lo_from_bytea");
            reveal_strlit("lo_put");
            assert(vstd::string::is_ascii("nextval"));
            assert(vstd::string::is_ascii("setval"));
            assert(vstd::string::is_ascii("pg_advisory_lock"));
            assert(vstd::string::is_ascii("pg_advisory_lock_shared"));
            assert(vstd::string::is_ascii("pg_advisory_unlock"));
            assert(vstd::string::is_ascii("pg_advisory_unlock_all"));
            assert(vstd::string::is_ascii("pg_advisory_unlock_shared"));
            assert(vstd::string::is_ascii("pg_advisory_xact_lock"));
            assert(vstd::string::is_ascii("pg_advisory_xact_lock_shared"));
            assert(vstd::string::is_ascii("pg_try_advisory_lock"));
            assert(vstd::string::is_ascii("pg_try_advisory_lock_shared"));
            assert(vstd::string::is_ascii("pg_try_advisory_xact_lock"));
            assert(vstd::string::is_ascii("pg_try_advisory_xact_lock_shared"));
            assert(vstd::string::is_ascii("txid_current"));
            assert(vstd::string::is_ascii("pg_current_xact_id"));
            assert(vstd::string::is_ascii("pg_logical_emit_message"));
            assert(vstd::string::is_ascii("pg_create_restore_point"));
            assert(vstd::string::is_ascii("pg_switch_wal"));
            assert(vstd::string::is_ascii("pg_create_physical_replication_slot"));
            assert(vstd::string::is_ascii("pg_create_logical_replication_slot"));
            assert(vstd::string::is_ascii("pg_drop_replication_slot"));
            assert(vstd::string::is_ascii("pg_replication_slot_advance"));
            assert(vstd::string::is_ascii("lo_create"));
            assert(vstd::string::is_ascii("lo_creat"));
            assert(vstd::string::is_ascii("lo_import"));
            assert(vstd::string::is_ascii("lo_unlink"));
            assert(vstd::string::is_ascii("lo_from_bytea"));
            assert(vstd::string::is_ascii("lo_put"));
            assert(v@ =~= writing_functions());
        }
        WordSet::new(v)
    }
}

// ---------------------------------------------------------------------------
// Classifying
// ---------------------------------------------------------------------------

/// The bytes of each allowlisted first word.
pub open spec fn read_first_entries() -> Seq<Seq<u8>> {
    entry_bytes(read_first_words())
}

/// The bytes of each denylisted word.
pub open spec fn write_entries() -> Seq<Seq<u8>> {
    entry_bytes(write_words())
}

/// The bytes of each writing function's name.
pub open spec fn writing_entries() -> Seq<Seq<u8>> {
    entry_bytes(writing_functions())
}

/// Whether a token of `s` is a word on the list `entries`.
pub open spec fn is_listed_word(s: Seq<u8>, t: Token, entries: Seq<Seq<u8>>) -> bool {
    match t {
        Token::Word(a, b) => held_by(entries, word_text(s, a, b)),
        _ => false,
    }
}

/// Whether a word on `entries` occurs among the tokens `lo..hi`.
pub open spec fn mentions(s: Seq<u8>, toks: Seq<Token>, lo: int, hi: int, entries: Seq<Seq<u8>>) -> bool {
    exists|k: int| lo <= k < hi && is_listed_word(s, #[trigger] toks[k], entries)
}

/// Whether a token starts a statement: a word or quoted text. Punctuation
/// does not: `(SELECT 1)` leads with a parenthesis.
pub open spec fn starts_statement(t: Token) -> bool {
    t is Word || t is Quoted
}

/// The index of the first token in `lo..hi` that starts a statement.
pub open spec fn first_start(toks: Seq<Token>, lo: int, hi: int) -> Option<int>
    decreases hi - lo,
{
    if lo >= hi {
        None
    } else if starts_statement(toks[lo]) {
        Some(lo)
    } else {
        first_start(toks, lo + 1, hi)
    }
}

/// The class of the one statement made of the tokens `lo..hi`, which contain
/// no separator; `terminated` if a separator follows them.
///
/// A statement with no word and no quoted text in it is empty: between two
/// separators it contributes nothing, and at the end of the text it is
/// unclassifiable rather than readable. Otherwise a denylisted word anywhere
/// makes it a write, and it is a read only if it leads with an allowlisted
/// word and names no function that writes.
pub open spec fn statement_class(s: Seq<u8>, toks: Seq<Token>, lo: int, hi: int, terminated: bool) -> StmtClass {
    match first_start(toks, lo, hi) {
        None => if terminated {
            StmtClass::ReadOnly
        } else {
            StmtClass::Unknown
        },
        Some(k) => if mentions(s, toks, lo, hi, write_entries()) {
            StmtClass::Write
        } else if is_listed_word(s, toks[k], read_first_entries()) && !mentions(
            s,
            toks,
            lo,
            hi,
            writing_entries(),
        ) {
            StmtClass::ReadOnly
        } else {
            StmtClass::Unknown
        },
    }
}

/// The more restrictive of two classes: a write if either is, a read only if
/// both are.
pub open spec fn spec_combine(a: StmtClass, b: StmtClass) -> StmtClass {
    if a == StmtClass::Write || b == StmtClass::Write {
        StmtClass::Write
    } else if a == StmtClass::ReadOnly && b == StmtClass::ReadOnly {
        StmtClass::ReadOnly
    } else {
        StmtClass::Unknown
    }
}

/// The index of the first separator at or after `i`, or the number of tokens.
pub open spec fn statement_end(toks: Seq<Token>, i: int) -> int
    decreases toks.len() - i,
{
    if i < 0 || i >= toks.len() {
        toks.len() as int
    } else if toks[i] is Semicolon {
        i
    } else {
        statement_end(toks, i + 1)
    }
}

pub proof fn lemma_statement_end(toks: Seq<Token>, i: int)
    requires
        0 <= i <= toks.len(),
    ensures
        i <= statement_end(toks, i) <= toks.len(),
        statement_end(toks, i) < toks.len() ==> toks[statement_end(toks, i)] is Semicolon,
        forall|k: int| i <= k < statement_end(toks, i) ==> !(#[trigger] toks[k] is Semicolon),
    decreases toks.len() - i,
{
    if i < toks.len() && !(toks[i] is Semicolon) {
        lemma_statement_end(toks, i + 1);
    }
}

/// The class of the statements from token `i` on, each running to the next
/// separator. A separator with nothing at all after it ends the text.
pub open spec fn classify_from(s: Seq<u8>, toks: Seq<Token>, i: int) -> StmtClass
    decreases toks.len() - i,
{
    if i < 0 || i > toks.len() {
        StmtClass::Unknown
    } else {
        let e = statement_end(toks, i);
        proof {
            lemma_statement_end(toks, i);
        }
        if e >= toks.len() {
            statement_class(s, toks, i, e, false)
        } else if e + 1 >= toks.len() {
            statement_class(s, toks, i, e, true)
        } else {
            spec_combine(statement_class(s, toks, i, e, true), classify_from(s, toks, e + 1))
        }
    }
}

/// What a whole text does: the most restrictive of its statements.
pub open spec fn spec_classify(s: Seq<u8>) -> StmtClass {
    classify_from(s, tokens(s), 0)
}

/// The more restrictive of two classes.
pub fn combine(a: StmtClass, b: StmtClass) -> (r: StmtClass)
    ensures
        r == spec_combine(a, b),
{
    match (a, b) {
        (StmtClass::Write, _) | (_, StmtClass::Write) => StmtClass::Write,
        (StmtClass::ReadOnly, StmtClass::ReadOnly) => StmtClass::ReadOnly,
        _ => StmtClass::Unknown,
    }
}

/// The three lists, built once per call.
struct Lists {
    read_first: WordSet,
    write: WordSet,
    writing: WordSet,
}

impl Lists {
    spec fn ok(&self) -> bool {
        &&& self.read_first.entries() == read_first_entries()
        &&& self.write.entries() == write_entries()
        &&& self.writing.entries() == writing_entries()
    }
}

fn word_bytes<'a>(s: &'a [u8], t: Token) -> (r: Option<&'a [u8]>)
    requires
        t matches Token::Word(a, b) ==> a <= b <= s@.len(),
    ensures
        match t {
            Token::Word(a, b) => r matches Some(w) && w@ == word_text(s@, a, b),
            _ => r is None,
        },
{
    match t {
        Token::Word(a, b) => Some(vstd::slice::slice_subrange(s, a, b)),
        _ => None,
    }
}

/// Classifies the statement that starts at token `lo`, returning its class
/// and where it ends.
fn classify_one(s: &[u8], toks: &Vec<Token>, lo: usize, lists: &Lists) -> (r: (StmtClass, usize))
    requires
        lo <= toks@.len(),
        lists.ok(),
        forall|n: int|
            0 <= n < toks@.len() ==> (#[trigger] toks@[n] matches Token::Word(a, b) ==> a < b
                <= s@.len()),
    ensures
        r.1 == statement_end(toks@, lo as int),
        r.0 == statement_class(s@, toks@, lo as int, r.1 as int, (r.1 as int) < toks@.len()),
{
    proof {
        lemma_statement_end(toks@, lo as int);
    }
    let mut j = lo;
    let mut first: Option<usize> = None;
    let mut writes = false;
    let mut calls_writer = false;
    while j < toks.len() && !matches!(toks[j], Token::Semicolon)
        invariant
            lo <= j <= toks@.len(),
            lists.ok(),
            forall|n: int|
                0 <= n < toks@.len() ==> (#[trigger] toks@[n] matches Token::Word(a, b) ==> a < b
                    <= s@.len()),
            statement_end(toks@, lo as int) == statement_end(toks@, j as int),
            first == match first_start(toks@, lo as int, j as int) {
                Some(k) => Some(k as usize),
                None => None::<usize>,
            },
            first matches Some(k) ==> first_start(toks@, lo as int, j as int) == Some(k as int),
            first is None ==> first_start(toks@, lo as int, j as int) is None,
            writes == mentions(s@, toks@, lo as int, j as int, write_entries()),
            calls_writer == mentions(s@, toks@, lo as int, j as int, writing_entries()),
        decreases toks.len() - j,
    {
        let t = toks[j];
        proof {
            lemma_first_start_extend(toks@, lo as int, j as int);
        }
        if first.is_none() && matches!(t, Token::Word(_, _) | Token::Quoted) {
            first = Some(j);
        }
        match word_bytes(s, t) {
            Some(w) => {
                if !writes && matches_any(w, &lists.write) {
                    writes = true;
                }
                if !calls_writer && matches_any(w, &lists.writing) {
                    calls_writer = true;
                }
            },
            None => {},
        }
        proof {
            lemma_mentions_extend(s@, toks@, lo as int, j as int, write_entries());
            lemma_mentions_extend(s@, toks@, lo as int, j as int, writing_entries());
        }
        j = j + 1;
    }
    proof {
        lemma_first_start_bounds(toks@, lo as int, j as int);
    }
    let class = match first {
        None => if j < toks.len() {
            StmtClass::ReadOnly
        } else {
            StmtClass::Unknown
        },
        Some(k) => if writes {
            StmtClass::Write
        } else {
            let leads_with_read = match word_bytes(s, toks[k]) {
                Some(w) => matches_any(w, &lists.read_first),
                None => false,
            };
            if leads_with_read && !calls_writer {
                StmtClass::ReadOnly
            } else {
                StmtClass::Unknown
            }
        },
    };
    (class, j)
}

proof fn lemma_first_start_extend(toks: Seq<Token>, lo: int, j: int)
    requires
        lo <= j < toks.len(),
    ensures
        first_start(toks, lo, j + 1) == match first_start(toks, lo, j) {
            Some(k) => Some(k),
            None => if starts_statement(toks[j]) {
                Some(j)
            } else {
                None
            },
        },
    decreases j - lo,
{
    if lo == j {
        assert(first_start(toks, j + 1, j + 1) is None);
    } else if !starts_statement(toks[lo]) {
        lemma_first_start_extend(toks, lo + 1, j);
    }
}

proof fn lemma_first_start_bounds(toks: Seq<Token>, lo: int, hi: int)
    ensures
        first_start(toks, lo, hi) matches Some(k) ==> lo <= k < hi && starts_statement(toks[k]),
    decreases hi - lo,
{
    if lo < hi && !starts_statement(toks[lo]) {
        lemma_first_start_bounds(toks, lo + 1, hi);
    }
}

proof fn lemma_mentions_extend(s: Seq<u8>, toks: Seq<Token>, lo: int, j: int, entries: Seq<Seq<u8>>)
    requires
        lo <= j < toks.len(),
    ensures
        mentions(s, toks, lo, j + 1, entries) == (mentions(s, toks, lo, j, entries)
            || is_listed_word(s, toks[j], entries)),
{
    if is_listed_word(s, toks[j], entries) {
        assert(lo <= j < j + 1 && is_listed_word(s, toks[j], entries));
    }
    if mentions(s, toks, lo, j + 1, entries) && !is_listed_word(s, toks[j], entries) {
        let k = choose|k: int| lo <= k < j + 1 && is_listed_word(s, #[trigger] toks[k], entries);
        assert(k < j);
    }
}

/// Classifies a statement, or several separated by `;`.
///
/// The simple query protocol permits several statements in one message, and
/// the result is the most restrictive of them, so `SELECT 1; DELETE FROM t`
/// is a write rather than a read.
pub fn classify(sql: &str) -> (r: StmtClass)
    ensures
        r == spec_classify(sql.spec_bytes()),
{
    let s = sql.as_bytes();
    let n = s.len();
    let toks = tokenize(s);
    proof {
        lemma_tokens_from_words(s@, 0);
    }
    let lists = Lists { read_first: WordSet::read_first(), write: WordSet::write(), writing: WordSet::writing() };
    let mut i: usize = 0;
    let mut worst: Option<StmtClass> = None;
    loop
        invariant
            i <= toks@.len(),
            toks@ == tokens(s@),
            s@ == sql.spec_bytes(),
            lists.ok(),
            forall|n: int|
                0 <= n < toks@.len() ==> (#[trigger] toks@[n] matches Token::Word(a, b) ==> a < b
                    <= s@.len()),
            worst is None ==> i == 0,
            spec_classify(s@) == match worst {
                None => classify_from(s@, toks@, i as int),
                Some(w) => spec_combine(w, classify_from(s@, toks@, i as int)),
            },
        decreases toks@.len() - i,
    {
        let (class, e) = classify_one(s, &toks, i, &lists);
        proof {
            lemma_statement_end(toks@, i as int);
        }
        let so_far = match worst {
            None => class,
            Some(w) => combine(w, class),
        };
        if e >= toks.len() || e + 1 >= toks.len() {
            return so_far;
        }
        worst = Some(so_far);
        i = e + 1;
    }
}


// ---------------------------------------------------------------------------
// What the classification promises
// ---------------------------------------------------------------------------

proof fn lemma_first_start_found(toks: Seq<Token>, lo: int, hi: int, k: int)
    requires
        lo <= k < hi,
        starts_statement(toks[k]),
    ensures
        first_start(toks, lo, hi) is Some,
    decreases hi - lo,
{
    if lo < k && !starts_statement(toks[lo]) {
        lemma_first_start_found(toks, lo + 1, hi, k);
    }
}

proof fn lemma_mentions_split(s: Seq<u8>, toks: Seq<Token>, lo: int, mid: int, hi: int, entries: Seq<Seq<u8>>)
    requires
        lo <= mid < hi,
        toks[mid] is Semicolon,
    ensures
        mentions(s, toks, lo, hi, entries) == (mentions(s, toks, lo, mid, entries) || mentions(
            s,
            toks,
            mid + 1,
            hi,
            entries,
        )),
{
    if mentions(s, toks, lo, hi, entries) {
        let k = choose|k: int| lo <= k < hi && is_listed_word(s, #[trigger] toks[k], entries);
        if k < mid {
            assert(lo <= k < mid && is_listed_word(s, toks[k], entries));
        } else {
            assert(mid + 1 <= k < hi && is_listed_word(s, toks[k], entries));
        }
    }
    if mentions(s, toks, lo, mid, entries) {
        let k = choose|k: int| lo <= k < mid && is_listed_word(s, #[trigger] toks[k], entries);
        assert(lo <= k < hi && is_listed_word(s, toks[k], entries));
    }
    if mentions(s, toks, mid + 1, hi, entries) {
        let k = choose|k: int| mid + 1 <= k < hi && is_listed_word(s, #[trigger] toks[k], entries);
        assert(lo <= k < hi && is_listed_word(s, toks[k], entries));
    }
}

proof fn lemma_statement_class_facts(s: Seq<u8>, toks: Seq<Token>, lo: int, hi: int, terminated: bool)
    requires
        0 <= lo <= hi <= toks.len(),
    ensures
        (statement_class(s, toks, lo, hi, terminated) == StmtClass::Write) == mentions(
            s,
            toks,
            lo,
            hi,
            write_entries(),
        ),
        statement_class(s, toks, lo, hi, terminated) == StmtClass::ReadOnly ==> !mentions(
            s,
            toks,
            lo,
            hi,
            writing_entries(),
        ),
{
    if mentions(s, toks, lo, hi, write_entries()) {
        let k = choose|k: int| lo <= k < hi && is_listed_word(s, #[trigger] toks[k], write_entries());
        lemma_first_start_found(toks, lo, hi, k);
    }
    if mentions(s, toks, lo, hi, writing_entries()) {
        let k = choose|k: int| lo <= k < hi && is_listed_word(s, #[trigger] toks[k], writing_entries());
        lemma_first_start_found(toks, lo, hi, k);
    }
}

proof fn lemma_classify_from_facts(s: Seq<u8>, toks: Seq<Token>, i: int)
    requires
        0 <= i <= toks.len(),
    ensures
        (classify_from(s, toks, i) == StmtClass::Write) == mentions(
            s,
            toks,
            i,
            toks.len() as int,
            write_entries(),
        ),
        classify_from(s, toks, i) == StmtClass::ReadOnly ==> !mentions(
            s,
            toks,
            i,
            toks.len() as int,
            write_entries(),
        ) && !mentions(s, toks, i, toks.len() as int, writing_entries()),
    decreases toks.len() - i,
{
    lemma_statement_end(toks, i);
    let e = statement_end(toks, i);
    let n = toks.len() as int;
    if e >= n {
        lemma_statement_class_facts(s, toks, i, e, false);
    } else {
        lemma_statement_class_facts(s, toks, i, e, true);
        lemma_mentions_split(s, toks, i, e, n, write_entries());
        lemma_mentions_split(s, toks, i, e, n, writing_entries());
        if e + 1 < n {
            lemma_classify_from_facts(s, toks, e + 1);
        } else {
            assert(!mentions(s, toks, e + 1, n, write_entries()));
            assert(!mentions(s, toks, e + 1, n, writing_entries()));
        }
    }
}

/// A text is a write exactly when a denylisted word occurs in it as SQL,
/// in any of its statements. The contents of strings, quoted identifiers and
/// comments never count, and nothing else makes a write.
pub proof fn law_a_write_is_a_denylisted_word(s: Seq<u8>)
    ensures
        (spec_classify(s) == StmtClass::Write) == (exists|k: int|
            0 <= k < tokens(s).len() && is_listed_word(s, #[trigger] tokens(s)[k], write_entries())),
{
    lemma_classify_from_facts(s, tokens(s), 0);
}

/// A text classified as a read holds no denylisted word and calls no
/// function that writes, in any of its statements.
pub proof fn law_a_read_mentions_nothing_that_writes(s: Seq<u8>, k: int)
    requires
        spec_classify(s) == StmtClass::ReadOnly,
        0 <= k < tokens(s).len(),
    ensures
        !is_listed_word(s, tokens(s)[k], write_entries()),
        !is_listed_word(s, tokens(s)[k], writing_entries()),
{
    lemma_classify_from_facts(s, tokens(s), 0);
}


// ---------------------------------------------------------------------------
// Read-only transactions
// ---------------------------------------------------------------------------

pub open spec fn kw_set() -> Seq<u8> {
    seq![0x73u8, 0x65, 0x74]
}

pub open spec fn kw_begin() -> Seq<u8> {
    seq![0x62u8, 0x65, 0x67, 0x69, 0x6e]
}

pub open spec fn kw_start() -> Seq<u8> {
    seq![0x73u8, 0x74, 0x61, 0x72, 0x74]
}

pub open spec fn kw_transaction() -> Seq<u8> {
    seq![0x74u8, 0x72, 0x61, 0x6e, 0x73, 0x61, 0x63, 0x74, 0x69, 0x6f, 0x6e]
}

pub open spec fn kw_read() -> Seq<u8> {
    seq![0x72u8, 0x65, 0x61, 0x64]
}

pub open spec fn kw_only() -> Seq<u8> {
    seq![0x6fu8, 0x6e, 0x6c, 0x79]
}

/// Whether token `t` of `s` is the word `kw`, ignoring ASCII case.
pub open spec fn is_word(s: Seq<u8>, t: Token, kw: Seq<u8>) -> bool {
    t matches Token::Word(a, b) && eq_ignore_case(word_text(s, a, b), kw)
}

/// The index of the first token at or after `lo` that is not punctuation.
pub open spec fn first_non_punct(toks: Seq<Token>, lo: int) -> Option<int>
    decreases toks.len() - lo,
{
    if lo < 0 || lo >= toks.len() {
        None
    } else if toks[lo] is Punct {
        first_non_punct(toks, lo + 1)
    } else {
        Some(lo)
    }
}

/// The index of the last word among the tokens `lo..hi`.
pub open spec fn last_word(toks: Seq<Token>, lo: int, hi: int) -> Option<int>
    decreases hi - lo,
{
    if hi <= lo {
        None
    } else if toks[hi - 1] is Word {
        Some(hi - 1)
    } else {
        last_word(toks, lo, hi - 1)
    }
}

/// The index of the first word among the tokens `lo..hi`.
pub open spec fn first_word(toks: Seq<Token>, lo: int, hi: int) -> Option<int>
    decreases hi - lo,
{
    if hi <= lo {
        None
    } else if toks[lo] is Word {
        Some(lo)
    } else {
        first_word(toks, lo + 1, hi)
    }
}

/// Whether `READ ONLY` occurs as adjacent words among the tokens `lo..hi`,
/// punctuation between them aside.
pub open spec fn says_read_only(s: Seq<u8>, toks: Seq<Token>, lo: int, hi: int) -> bool {
    exists|j: int|
        lo <= j < hi && is_word(s, #[trigger] toks[j], kw_only()) && (last_word(toks, lo, j) matches Some(
            p,
        ) && is_word(s, toks[p], kw_read()))
}

/// Whether the first statement of `s` opens a transaction the server will
/// refuse writes in: `BEGIN`, `START` or `SET TRANSACTION`, with `READ ONLY`
/// among its words and no quoted text anywhere in it.
pub open spec fn spec_begins_read_only(s: Seq<u8>) -> bool {
    let toks = tokens(s);
    match first_non_punct(toks, 0) {
        Some(k) => {
            let opener = toks[k];
            let sets = is_word(s, opener, kw_set());
            let e = statement_end(toks, k + 1);
            &&& (sets || is_word(s, opener, kw_begin()) || is_word(s, opener, kw_start()))
            &&& forall|j: int| k < j < e ==> !(#[trigger] toks[j] is Quoted)
            &&& (sets ==> (first_word(toks, k + 1, e) matches Some(f) ==> is_word(
                s,
                toks[f],
                kw_transaction(),
            )))
            &&& says_read_only(s, toks, k + 1, e)
        },
        None => false,
    }
}

proof fn lemma_first_non_punct(toks: Seq<Token>, lo: int)
    requires
        0 <= lo <= toks.len(),
    ensures
        first_non_punct(toks, lo) matches Some(k) ==> lo <= k < toks.len() && !(toks[k] is Punct)
            && forall|j: int| lo <= j < k ==> #[trigger] toks[j] is Punct,
        first_non_punct(toks, lo) is None ==> forall|j: int| lo <= j < toks.len() ==> #[trigger] toks[j] is Punct,
    decreases toks.len() - lo,
{
    if lo < toks.len() && toks[lo] is Punct {
        lemma_first_non_punct(toks, lo + 1);
    }
}

proof fn lemma_last_word_bounds(toks: Seq<Token>, lo: int, hi: int)
    ensures
        last_word(toks, lo, hi) matches Some(p) ==> lo <= p < hi && toks[p] is Word,
        (last_word(toks, lo, hi) is None) == (first_word(toks, lo, hi) is None),
    decreases hi - lo,
{
    if hi > lo {
        lemma_first_word_extend(toks, lo, hi - 1);
        if !(toks[hi - 1] is Word) {
            lemma_last_word_bounds(toks, lo, hi - 1);
        }
    }
}

proof fn lemma_first_word_extend(toks: Seq<Token>, lo: int, j: int)
    requires
        lo <= j,
    ensures
        first_word(toks, lo, j + 1) == match first_word(toks, lo, j) {
            Some(f) => Some(f),
            None => if toks[j] is Word {
                Some(j)
            } else {
                None
            },
        },
    decreases j - lo,
{
    if lo == j {
        assert(first_word(toks, j + 1, j + 1) is None);
    } else if !(toks[lo] is Word) {
        lemma_first_word_extend(toks, lo + 1, j);
    }
}

proof fn lemma_says_read_only_extend(s: Seq<u8>, toks: Seq<Token>, lo: int, j: int)
    requires
        lo <= j,
    ensures
        says_read_only(s, toks, lo, j + 1) == (says_read_only(s, toks, lo, j) || (is_word(
            s,
            toks[j],
            kw_only(),
        ) && (last_word(toks, lo, j) matches Some(p) && is_word(s, toks[p], kw_read())))),
{
    if says_read_only(s, toks, lo, j + 1) {
        let i = choose|i: int|
            lo <= i < j + 1 && is_word(s, #[trigger] toks[i], kw_only()) && (last_word(
                toks,
                lo,
                i,
            ) matches Some(p) && is_word(s, toks[p], kw_read()));
        if i < j {
            assert(lo <= i < j && is_word(s, toks[i], kw_only()));
        }
    }
    if says_read_only(s, toks, lo, j) {
        let i = choose|i: int|
            lo <= i < j && is_word(s, #[trigger] toks[i], kw_only()) && (last_word(toks, lo, i) matches Some(
                p,
            ) && is_word(s, toks[p], kw_read()));
        assert(lo <= i < j + 1 && is_word(s, toks[i], kw_only()));
    }
    if is_word(s, toks[j], kw_only()) && (last_word(toks, lo, j) matches Some(p) && is_word(
        s,
        toks[p],
        kw_read(),
    )) {
        assert(lo <= j < j + 1 && is_word(s, toks[j], kw_only()));
    }
}

/// The bytes of a keyword literal, which is ASCII.
fn keyword_bytes(kw: &'static str) -> (r: &'static [u8])
    ensures
        r@ == kw.spec_bytes(),
{
    kw.as_bytes()
}

/// Whether token `t` of `s` is the word whose bytes are `kw`.
fn token_is(s: &[u8], t: Token, kw: &[u8]) -> (r: bool)
    requires
        t matches Token::Word(a, b) ==> a <= b <= s@.len(),
    ensures
        r == is_word(s@, t, kw@),
{
    match word_bytes(s, t) {
        Some(w) => bytes_eq_ignore_case(w, kw),
        None => false,
    }
}

/// Whether a statement opens a transaction the server will refuse writes in.
///
/// `BEGIN READ ONLY`, `START TRANSACTION READ ONLY`, and the `SET TRANSACTION`
/// form. A session that has said this has told the server to reject writes for
/// the whole transaction, which is a stronger promise than the classifier can
/// make about any single statement. `READ WRITE`, and a bare `BEGIN`, are not:
/// the default is read write.
pub fn begins_read_only_transaction(sql: &str) -> (r: bool)
    ensures
        r == spec_begins_read_only(sql.spec_bytes()),
{
    let s = sql.as_bytes();
    let n = s.len();
    let toks = tokenize(s);
    proof {
        lemma_tokens_from_words(s@, 0);
        lemma_first_non_punct(toks@, 0);
    }
    let kw_set_bytes = keyword_bytes("set");
    let kw_begin_bytes = keyword_bytes("begin");
    let kw_start_bytes = keyword_bytes("start");
    let kw_transaction_bytes = keyword_bytes("transaction");
    let kw_read_bytes = keyword_bytes("read");
    let kw_only_bytes = keyword_bytes("only");
    proof {
        broadcast use vstd::string::group_string_axioms;

        reveal_strlit("set");
        reveal_strlit("begin");
        reveal_strlit("start");
        reveal_strlit("transaction");
        reveal_strlit("read");
        reveal_strlit("only");
        assert(vstd::string::is_ascii("set"));
        assert(vstd::string::is_ascii("begin"));
        assert(vstd::string::is_ascii("start"));
        assert(vstd::string::is_ascii("transaction"));
        assert(vstd::string::is_ascii("read"));
        assert(vstd::string::is_ascii("only"));
        assert(kw_set_bytes@ =~= kw_set());
        assert(kw_begin_bytes@ =~= kw_begin());
        assert(kw_start_bytes@ =~= kw_start());
        assert(kw_transaction_bytes@ =~= kw_transaction());
        assert(kw_read_bytes@ =~= kw_read());
        assert(kw_only_bytes@ =~= kw_only());
    }

    let mut k: usize = 0;
    while k < toks.len() && matches!(toks[k], Token::Punct(_))
        invariant
            k <= toks@.len(),
            first_non_punct(toks@, 0) == first_non_punct(toks@, k as int),
        decreases toks.len() - k,
    {
        k = k + 1;
    }
    if k >= toks.len() {
        return false;
    }
    let opener = toks[k];
    if !matches!(opener, Token::Word(_, _)) {
        return false;
    }
    let sets = token_is(s, opener, kw_set_bytes);
    if !sets && !token_is(s, opener, kw_begin_bytes) && !token_is(s, opener, kw_start_bytes) {
        return false;
    }
    proof {
        lemma_statement_end(toks@, k + 1);
    }
    let r = rest_says_read_only(s, &toks, k + 1, sets, kw_transaction_bytes, kw_read_bytes, kw_only_bytes);
    r
}

/// What the words after the opener say: whether the statement that runs from
/// token `lo` to the next separator has no quoted text, names a transaction
/// where `sets` asks for one, and says `READ ONLY`.
#[verifier::rlimit(60)]
fn rest_says_read_only(
    s: &[u8],
    toks: &Vec<Token>,
    lo: usize,
    sets: bool,
    kw_transaction_bytes: &[u8],
    kw_read_bytes: &[u8],
    kw_only_bytes: &[u8],
) -> (r: bool)
    requires
        lo <= toks@.len(),
        kw_transaction_bytes@ == kw_transaction(),
        kw_read_bytes@ == kw_read(),
        kw_only_bytes@ == kw_only(),
        forall|n: int|
            0 <= n < toks@.len() ==> (#[trigger] toks@[n] matches Token::Word(a, b) ==> a < b
                <= s@.len()),
    ensures
        r == ({
            let e = statement_end(toks@, lo as int);
            &&& forall|j: int| lo <= j < e ==> !(#[trigger] toks@[j] is Quoted)
            &&& (sets ==> (first_word(toks@, lo as int, e) matches Some(f) ==> is_word(
                s@,
                toks@[f],
                kw_transaction(),
            )))
            &&& says_read_only(s@, toks@, lo as int, e)
        }),
{
    proof {
        lemma_statement_end(toks@, lo as int);
    }
    let ghost e = statement_end(toks@, lo as int);
    let mut previous: Option<usize> = None;
    let mut read_only = false;
    let mut j = lo;
    while j < toks.len() && !matches!(toks[j], Token::Semicolon)
        invariant
            lo <= j <= e,
            e == statement_end(toks@, lo as int),
            e <= toks@.len(),
            e < toks@.len() ==> toks@[e] is Semicolon,
            forall|n: int| lo <= n < e ==> !(#[trigger] toks@[n] is Semicolon),
            kw_transaction_bytes@ == kw_transaction(),
            kw_read_bytes@ == kw_read(),
            kw_only_bytes@ == kw_only(),
            forall|n: int|
                0 <= n < toks@.len() ==> (#[trigger] toks@[n] matches Token::Word(a, b) ==> a < b
                    <= s@.len()),
            previous matches Some(p) ==> last_word(toks@, lo as int, j as int) == Some(p as int),
            previous is None ==> last_word(toks@, lo as int, j as int) is None,
            forall|n: int| lo <= n < j ==> !(#[trigger] toks@[n] is Quoted),
            sets ==> (first_word(toks@, lo as int, j as int) matches Some(f) ==> is_word(
                s@,
                toks@[f],
                kw_transaction(),
            )),
            read_only == says_read_only(s@, toks@, lo as int, j as int),
        decreases toks.len() - j,
    {
        let t = toks[j];
        proof {
            lemma_last_word_bounds(toks@, lo as int, j as int);
            lemma_first_word_extend(toks@, lo as int, j as int);
            lemma_says_read_only_extend(s@, toks@, lo as int, j as int);
        }
        match t {
            Token::Quoted => {
                assert(lo <= j < e && toks@[j as int] is Quoted);
                return false;
            },
            Token::Word(_, _) => {
                if previous.is_none() && sets && !token_is(s, t, kw_transaction_bytes) {
                    proof {
                        assert(first_word(toks@, lo as int, j as int + 1) == Some(j as int));
                        lemma_first_word_prefix(toks@, lo as int, j as int + 1, e);
                    }
                    return false;
                }
                let after_read = match previous {
                    Some(p) => token_is(s, toks[p], kw_read_bytes),
                    None => false,
                };
                if after_read && token_is(s, t, kw_only_bytes) {
                    read_only = true;
                }
                previous = Some(j);
            },
            _ => {},
        }
        j = j + 1;
    }
    read_only
}

proof fn lemma_first_word_prefix(toks: Seq<Token>, lo: int, mid: int, hi: int)
    requires
        lo <= mid <= hi,
        first_word(toks, lo, mid) is Some,
    ensures
        first_word(toks, lo, hi) == first_word(toks, lo, mid),
    decreases hi - mid,
{
    if mid < hi {
        lemma_first_word_extend(toks, lo, mid);
        lemma_first_word_prefix(toks, lo, mid + 1, hi);
    }
}

} // verus!
