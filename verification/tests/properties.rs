//! Properties checked against a deliberately independent and much dumber
//! scan, over many generated statements.

use pgprox::classify::{begins_read_only_transaction, classify};
use pgprox::hints::statement_hint;
use pgprox::route::StmtClass;

/// The keywords whose presence means a statement is not a plain read.
const DML: &[&str] = &["insert", "update", "delete", "merge", "truncate"];

/// Whether `sql` contains a DML keyword outside a region where text is not SQL.
///
/// The oracle. It knows which regions are data or commentary, and which words
/// modify data, and nothing about allowlists, denylists, statement splitting,
/// writing functions or read-only transactions, which is what makes
/// disagreement with `classify` informative rather than tautological.
fn mentions_dml(sql: &str) -> bool {
    let lower = sql.to_ascii_lowercase();
    let bytes = lower.as_bytes();

    let mut word_start: Option<usize> = None;
    let mut i = 0;

    // Ends the word in progress, reporting whether it was DML.
    let flush = |word_start: &mut Option<usize>, end: usize| -> bool {
        word_start
            .take()
            .is_some_and(|start| DML.contains(&&lower[start..end]))
    };

    while i < bytes.len() {
        // A region boundary always ends the word before it.
        let region = if bytes[i..].starts_with(b"--") {
            Some(
                lower[i..]
                    .find('\n')
                    .map_or(bytes.len(), |offset| i + offset + 1),
            )
        } else if bytes[i..].starts_with(b"/*") {
            // Nested, as Postgres nests them.
            let mut depth = 0_u32;
            let mut j = i;
            let mut end = bytes.len();
            while j < bytes.len() {
                if bytes[j..].starts_with(b"/*") {
                    depth += 1;
                    j += 2;
                } else if bytes[j..].starts_with(b"*/") {
                    depth -= 1;
                    j += 2;
                    if depth == 0 {
                        end = j;
                        break;
                    }
                } else {
                    j += 1;
                }
            }
            Some(end)
        } else if bytes[i] == b'\'' || bytes[i] == b'"' {
            let quote = bytes[i];
            let mut j = i + 1;
            let mut end = bytes.len();
            while j < bytes.len() {
                if bytes[j] == quote {
                    // A doubled quote is an escaped one and the string goes on.
                    if bytes.get(j + 1) == Some(&quote) {
                        j += 2;
                        continue;
                    }
                    end = j + 1;
                    break;
                }
                j += 1;
            }
            Some(end)
        } else if bytes[i] == b'$' {
            // `$tag$ ... $tag$`, where the tag may be empty but not numeric.
            lower[i + 1..].find('$').and_then(|offset| {
                let tag = &lower[i..=i + 1 + offset];
                let inner = &tag[1..tag.len() - 1];
                if inner.chars().next().is_some_and(|c| c.is_ascii_digit()) {
                    // `$1` is a placeholder.
                    return None;
                }
                let body_at = i + tag.len();
                Some(
                    lower[body_at..]
                        .find(tag)
                        .map_or(bytes.len(), |offset| body_at + offset + tag.len()),
                )
            })
        } else {
            None
        };

        if let Some(end) = region {
            if flush(&mut word_start, i) {
                return true;
            }
            i = end.max(i + 1);
            continue;
        }

        let is_word = bytes[i].is_ascii_alphanumeric() || bytes[i] == b'_';
        if is_word {
            if word_start.is_none() {
                word_start = Some(i);
            }
        } else if flush(&mut word_start, i) {
            return true;
        }
        i += 1;
    }

    flush(&mut word_start, bytes.len())
}

/// The pieces SQL-shaped text is made of, so generation spends its time near
/// the interesting inputs rather than in arbitrary text.
const FRAGMENTS: &[&str] = &[
    "SELECT", "WITH", "EXPLAIN", "INSERT", "UPDATE", "DELETE", "MERGE", "TRUNCATE", "FROM",
    "INTO", "FOR", "SHARE", "AS", "*", "(", ")", ";", "'", "''", "\"", "$$", "$tag$", "$1", "--",
    "/*", "*/", "\n", "/* pgprox:replica */", "t", "x",
];

/// A small deterministic generator, so a failure names a reproducible case.
struct Lcg(u64);

impl Lcg {
    fn next(&mut self) -> u64 {
        self.0 = self
            .0
            .wrapping_mul(6_364_136_223_846_793_005)
            .wrapping_add(1_442_695_040_888_963_407);
        self.0 >> 33
    }

    fn sql_like(&mut self) -> String {
        let parts = (self.next() % 24) as usize;
        let mut out = Vec::new();
        for _ in 0..parts {
            out.push(FRAGMENTS[(self.next() as usize) % FRAGMENTS.len()]);
        }
        out.join(" ")
    }

    fn arbitrary(&mut self) -> String {
        let len = (self.next() % 120) as usize;
        (0..len)
            .map(|_| {
                let pick = self.next();
                match pick % 8 {
                    0 => char::from_u32(0x80 + (pick as u32 >> 3) % 0x2000).unwrap_or('é'),
                    1 => ['\'', '"', '$', ';', '-', '/', '*', '\n'][(pick as usize >> 3) % 8],
                    _ => char::from(b' ' + ((pick >> 3) % 95) as u8),
                }
            })
            .collect()
    }
}

#[test]
fn the_oracle_knows_its_regions() {
    assert!(mentions_dml("DELETE FROM t"));
    assert!(!mentions_dml("SELECT 'delete'"));
    assert!(!mentions_dml("SELECT -- insert\n1"));
    assert!(!mentions_dml("SELECT /* a /* update */ b */ 1"));
    assert!(!mentions_dml("SELECT $x$ merge $x$"));
    assert!(mentions_dml("SELECT $1 INSERT $$"));
    assert!(!mentions_dml("SELECT insert_count FROM t"));
}

#[test]
fn a_read_only_verdict_never_covers_a_dml_keyword() {
    let mut gen = Lcg(17);
    for _ in 0..4_000 {
        let sql = gen.sql_like();
        if classify(&sql) == StmtClass::ReadOnly {
            assert!(!mentions_dml(&sql), "classified read-only despite a DML keyword: {sql:?}");
        }
    }
}

#[test]
fn the_invariant_holds_over_arbitrary_text() {
    let mut gen = Lcg(29);
    for _ in 0..4_000 {
        let sql = gen.arbitrary();
        if classify(&sql) == StmtClass::ReadOnly {
            assert!(!mentions_dml(&sql), "classified read-only despite a DML keyword: {sql:?}");
        }
    }
}

#[test]
fn no_parser_panics_on_arbitrary_input() {
    let mut gen = Lcg(43);
    for _ in 0..4_000 {
        let sql = gen.arbitrary();
        let _ = classify(&sql);
        let _ = statement_hint(&sql);
        let _ = begins_read_only_transaction(&sql);
    }
}

#[test]
fn truncating_a_write_never_makes_it_read_only() {
    let mut gen = Lcg(61);
    for _ in 0..4_000 {
        let sql = gen.sql_like();
        let cut = (gen.next() % 300) as usize;
        let truncated: String = sql.chars().take(cut).collect();
        if classify(&truncated) == StmtClass::ReadOnly {
            assert!(
                !mentions_dml(&truncated),
                "a truncated statement became a replica-eligible read: {truncated:?}"
            );
        }
    }
}
