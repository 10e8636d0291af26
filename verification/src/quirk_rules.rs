//! The schema of the reader quirk table: every `[[reader]]` entry sorted, unique, fully
//! attributed, and spoken in a closed flag vocabulary.

use vstd::prelude::*;

use crate::manifest::{
    array_header_of, array_header_text, clean, clean_line, first_quoted, first_quoted_in,
    header_of, quoted_in, quoted_values_text, table_header_text, vec_views,
};
use crate::text::{
    chars_are, chars_of, copy_chars, decimal, lines_of, lower_hex, parse_bounded,
    parse_bounded_chars, push_chars, push_decimal, push_lower_hex, push_text, split_once,
    split_once_chars, starts_with, string_from_chars, text_lines, trim, trim_chars,
};
use vstd::seq_lib::lemma_concat_associative;
use vstd::utf8::encode_utf8;

verus! {

/// The table, relative to the repository root.
pub const QUIRK_TABLE: &'static str = "quirks/readers.toml";

/// The flag vocabulary an entry may use.
pub open spec fn known_flags() -> Seq<Seq<char>> {
    seq![
        "bogus-descriptor"@,
        "no-extended-apdu"@,
        "needs-zlp"@,
        "slow-power-on"@,
        "pinpad-broken"@,
    ]
}

/// Where a reproduction may come from.
pub open spec fn known_sources() -> Seq<Seq<char>> {
    seq!["cassette"@, "issue"@, "capture"@]
}

/// The flag vocabulary an entry may use.
pub fn flags() -> (names: Vec<&'static str>)
    ensures
        names@.map_values(|s: &str| s@) == known_flags(),
{
    let names = vec!["bogus-descriptor", "no-extended-apdu", "needs-zlp", "slow-power-on", "pinpad-broken"];
    assert(names@.map_values(|s: &str| s@) =~= known_flags());
    names
}

/// Where a reproduction may come from.
pub fn sources() -> (names: Vec<&'static str>)
    ensures
        names@.map_values(|s: &str| s@) == known_sources(),
{
    let names = vec!["cassette", "issue", "capture"];
    assert(names@.map_values(|s: &str| s@) =~= known_sources());
    names
}

// ---------------------------------------------------------------------------------------
// Findings
// ---------------------------------------------------------------------------------------

/// A finding about line `at` of the table.
pub open spec fn finding(at: nat, detail: Seq<char>) -> Seq<char> {
    "quirks/readers.toml:"@ + decimal(at) + ": "@ + detail
}

fn push_finding_start(out: &mut Vec<char>, at: usize)
    ensures
        final(out)@ == old(out)@ + "quirks/readers.toml:"@ + decimal(at as nat) + ": "@,
{
    push_text(out, "quirks/readers.toml:");
    push_decimal(out, at as u64);
    push_text(out, ": ");
}

fn finding_with(at: usize, before: &str, item: &[char], after: &str) -> (message: String)
    ensures
        message@ == finding(at as nat, before@ + item@ + after@),
{
    let mut out: Vec<char> = Vec::new();
    push_finding_start(&mut out, at);
    push_text(&mut out, before);
    push_chars(&mut out, item);
    push_text(&mut out, after);
    assert(out@ =~= finding(at as nat, before@ + item@ + after@));
    string_from_chars(out.as_slice())
}

fn plain_finding(at: usize, detail: &str) -> (message: String)
    ensures
        message@ == finding(at as nat, detail@),
{
    let mut out: Vec<char> = Vec::new();
    push_finding_start(&mut out, at);
    push_text(&mut out, detail);
    assert(out@ =~= finding(at as nat, detail@));
    string_from_chars(out.as_slice())
}

// ---------------------------------------------------------------------------------------
// Identifiers
// ---------------------------------------------------------------------------------------

/// An identifier as written, read as a 32-bit number: `0x` and hexadecimal digits, or
/// decimal digits.
pub open spec fn id_number(value: Seq<char>) -> Option<nat> {
    if starts_with(value, "0x"@) {
        parse_bounded(value.subrange(2, value.len() as int), 16, 0xFFFF_FFFF)
    } else {
        parse_bounded(value, 10, 0xFFFF_FFFF)
    }
}

/// A `vid` or `pid` value: the identifier when it fits sixteen bits, else the finding.
pub open spec fn id_reading(value: Seq<char>, at: nat, key: Seq<char>) -> (Option<u32>, Seq<Seq<char>>) {
    match id_number(value) {
        Some(id) => if id <= 0xFFFF {
            (Some(id as u32), Seq::empty())
        } else {
            (None, seq![finding(at, "`"@ + key + "` does not fit in sixteen bits"@)])
        },
        None => (
            None,
            seq![finding(at, "`"@ + key + "` is not a `0x`-hex or decimal integer"@)],
        ),
    }
}

/// Parse a `vid` or `pid` value: hex with `0x`, or decimal, at most `0xFFFF`; a value that
/// is neither, or wider, is reported.
pub fn read_id(value: &[char], at: usize, key: &str, violations: &mut Vec<String>) -> (id: Option<u32>)
    ensures
        id == id_reading(value@, at as nat, key@).0,
        final(violations)@.map_values(|s: String| s@) == old(violations)@.map_values(
            |s: String| s@,
        ) + id_reading(value@, at as nat, key@).1,
{
    let hex = value.len() >= 2 && value[0] == '0' && value[1] == 'x';
    proof {
        reveal_strlit("0x");
        if value@.len() >= 2 {
            if hex {
                assert(value@.subrange(0, 2) =~= "0x"@);
            } else if value@.subrange(0, 2) == "0x"@ {
                assert(value@.subrange(0, 2)[0] == value@[0]);
                assert(value@.subrange(0, 2)[1] == value@[1]);
            }
        }
    }
    let parsed = if hex {
        let digits = copy_chars(value, 2, value.len());
        parse_bounded_chars(digits.as_slice(), 16, 0xFFFF_FFFF)
    } else {
        parse_bounded_chars(value, 10, 0xFFFF_FFFF)
    };
    let ghost before = violations@;
    let key_chars = chars_of(key);
    match parsed {
        Some(id) => {
            if id <= 0xFFFF {
                assert(violations@.map_values(|s: String| s@) =~= before.map_values(|s: String| s@)
                    + Seq::<Seq<char>>::empty());
                Some(id)
            } else {
                let message = finding_with(at, "`", key_chars.as_slice(), "` does not fit in sixteen bits");
                violations.push(message);
                proof {
                    assert(violations@.map_values(|s: String| s@) =~= before.map_values(
                        |s: String| s@,
                    ) + id_reading(value@, at as nat, key@).1);
                }
                None
            }
        },
        None => {
            let message = finding_with(
                at,
                "`",
                key_chars.as_slice(),
                "` is not a `0x`-hex or decimal integer",
            );
            violations.push(message);
            proof {
                assert(violations@.map_values(|s: String| s@) =~= before.map_values(
                    |s: String| s@,
                ) + id_reading(value@, at as nat, key@).1);
            }
            None
        },
    }
}

// ---------------------------------------------------------------------------------------
// Dates
// ---------------------------------------------------------------------------------------

/// Whether bytes are shaped `YYYY-MM-DD`: ten bytes, `-` at the fifth and eighth, ASCII
/// digits elsewhere. A shape check, not a calendar.
pub open spec fn date_shape(b: Seq<u8>) -> bool {
    b.len() == 10 && forall|i: int| 0 <= i < 10 ==> #[trigger] date_byte_ok(i, b[i])
}

/// Whether byte `i` of a date has its shape: `-` at positions four and seven, a digit
/// elsewhere.
pub open spec fn date_byte_ok(i: int, b: u8) -> bool {
    if i == 4 || i == 7 {
        b == 0x2D
    } else {
        0x30 <= b <= 0x39
    }
}

/// Whether `date` is shaped `YYYY-MM-DD`.
pub fn date_shaped(date: &str) -> (shaped: bool)
    ensures
        shaped == date_shape(encode_utf8(date@)),
{
    let bytes = date.as_bytes();
    assert(bytes@ == encode_utf8(date@));
    if bytes.len() != 10 {
        return false;
    }
    let mut index: usize = 0;
    while index < 10
        invariant
            bytes@.len() == 10,
            bytes@ == encode_utf8(date@),
            index <= 10,
            forall|i: int| 0 <= i < index ==> #[trigger] date_byte_ok(i, bytes@[i]),
        decreases 10 - index,
    {
        let b = bytes[index];
        let ok = if index == 4 || index == 7 {
            b == 0x2D
        } else {
            0x30 <= b && b <= 0x39
        };
        if !ok {
            assert(!date_byte_ok(index as int, bytes@[index as int]));
            return false;
        }
        index = index + 1;
    }
    true
}

// ---------------------------------------------------------------------------------------
// Reading the table
// ---------------------------------------------------------------------------------------

/// Which part of an entry the cursor is inside.
#[derive(Clone, Copy, Debug, PartialEq, Eq, Structural)]
pub enum Section {
    /// Before the first entry, where only comments belong.
    Preamble,
    /// Inside a `[[reader]]` entry's own keys.
    Reader,
    /// Inside a `[reader.provenance]` sub-table.
    Provenance,
}

/// One entry as the file spells it, fields optional until validated.
pub struct EntryRecord {
    pub line: nat,
    pub vid: Option<u32>,
    pub pid: Option<u32>,
    pub name: Option<Seq<char>>,
    pub flags: Option<Seq<Seq<char>>>,
    pub source: Option<Seq<char>>,
    pub evidence: Option<Seq<char>>,
    pub date: Option<Seq<char>>,
}

/// A freshly opened entry.
pub open spec fn new_record(line: nat) -> EntryRecord {
    EntryRecord {
        line,
        vid: None,
        pid: None,
        name: None,
        flags: None,
        source: None,
        evidence: None,
        date: None,
    }
}

/// What the reader keeps between lines.
pub struct QuirkScan {
    pub violations: Seq<Seq<char>>,
    pub entries: Seq<EntryRecord>,
    pub section: Section,
}

/// A scan with one more finding.
pub open spec fn with_finding(state: QuirkScan, message: Seq<char>) -> QuirkScan {
    QuirkScan { violations: state.violations.push(message), ..state }
}

/// A scan whose last entry was changed.
pub open spec fn with_last(state: QuirkScan, entry: EntryRecord) -> QuirkScan {
    QuirkScan { entries: state.entries.update(state.entries.len() - 1, entry), ..state }
}

/// Read the `key = value` line numbered `at` into the last entry.
pub open spec fn keyed_step(state: QuirkScan, at: nat, key: Seq<char>, value: Seq<char>) -> QuirkScan {
    let e = state.entries.last();
    if state.section == Section::Reader && key == "vid"@ {
        let r = id_reading(value, at, "vid"@);
        QuirkScan {
            violations: state.violations + r.1,
            ..with_last(state, EntryRecord { vid: r.0, ..e })
        }
    } else if state.section == Section::Reader && key == "pid"@ {
        let r = id_reading(value, at, "pid"@);
        QuirkScan {
            violations: state.violations + r.1,
            ..with_last(state, EntryRecord { pid: r.0, ..e })
        }
    } else if state.section == Section::Reader && key == "name"@ {
        with_last(state, EntryRecord { name: first_quoted(value), ..e })
    } else if state.section == Section::Reader && key == "flags"@ {
        with_last(state, EntryRecord { flags: Some(quoted_values_text(value)), ..e })
    } else if state.section == Section::Provenance && key == "source"@ {
        with_last(state, EntryRecord { source: first_quoted(value), ..e })
    } else if state.section == Section::Provenance && key == "evidence"@ {
        with_last(state, EntryRecord { evidence: first_quoted(value), ..e })
    } else if state.section == Section::Provenance && key == "date"@ {
        with_last(state, EntryRecord { date: first_quoted(value), ..e })
    } else {
        with_finding(
            state,
            finding(
                at,
                "unknown key `"@ + key
                    + "` for this section; the schema is in the file's header comment"@,
            ),
        )
    }
}

/// Read line `at` of the table, its comment removed and trimmed, and not empty.
pub open spec fn line_step(state: QuirkScan, line: Seq<char>, at: nat) -> QuirkScan {
    match array_header_text(line) {
        Some(header) => if header == "reader"@ {
            QuirkScan {
                entries: state.entries.push(new_record(at)),
                section: Section::Reader,
                ..state
            }
        } else {
            with_finding(
                state,
                finding(
                    at,
                    "unknown array `[["@ + header + "]]`; the table holds only `[[reader]]` entries"@,
                ),
            )
        },
        None => match table_header_text(line) {
            Some(header) => if header == "reader.provenance"@ && state.section
                != Section::Preamble {
                QuirkScan { section: Section::Provenance, ..state }
            } else {
                with_finding(
                    state,
                    finding(
                        at,
                        "unknown table `["@ + header + "]`; an entry holds only `[reader.provenance]`"@,
                    ),
                )
            },
            None => match split_once(line, '=') {
                None => with_finding(state, finding(at, "not a `key = value` line"@)),
                Some((k, v)) => {
                    let key = trim(k);
                    let value = trim(v);
                    if state.entries.len() == 0 {
                        with_finding(
                            state,
                            finding(at, "`"@ + key + "` outside any `[[reader]]` entry"@),
                        )
                    } else {
                        keyed_step(state, at, key, value)
                    }
                },
            },
        },
    }
}

/// Read line `at` of the table.
pub open spec fn quirk_step(state: QuirkScan, raw: Seq<char>, at: nat) -> QuirkScan {
    let line = clean_line(raw);
    if line.len() == 0 {
        state
    } else {
        line_step(state, line, at)
    }
}

/// Read lines in order, numbering them from one.
pub open spec fn quirk_steps(lines: Seq<Seq<char>>) -> QuirkScan
    decreases lines.len(),
{
    if lines.len() == 0 {
        QuirkScan { violations: Seq::empty(), entries: Seq::empty(), section: Section::Preamble }
    } else {
        quirk_step(quirk_steps(lines.drop_last()), lines.last(), lines.len())
    }
}

// ---------------------------------------------------------------------------------------
// Cross-entry rules
// ---------------------------------------------------------------------------------------

/// The finding for a missing field, if it is missing.
pub open spec fn missing(line: nat, field: Seq<char>, present: bool) -> Seq<Seq<char>> {
    if present {
        Seq::empty()
    } else {
        seq![
            finding(
                line,
                "entry is missing `"@ + field
                    + "`; every quirk carries its identity and its receipt (docs/adr/0009)"@,
            ),
        ]
    }
}

/// The missing-field findings of one entry, in field order.
pub open spec fn missing_fields(e: EntryRecord) -> Seq<Seq<char>> {
    missing(e.line, "vid"@, e.vid is Some) + missing(e.line, "pid"@, e.pid is Some) + missing(
        e.line,
        "name"@,
        e.name is Some,
    ) + missing(e.line, "flags"@, e.flags is Some) + missing(
        e.line,
        "provenance.source"@,
        e.source is Some,
    ) + missing(e.line, "provenance.evidence"@, e.evidence is Some) + missing(
        e.line,
        "provenance.date"@,
        e.date is Some,
    )
}

/// The findings for flags outside the vocabulary, in order.
pub open spec fn flag_findings(line: nat, flags: Seq<Seq<char>>) -> Seq<Seq<char>>
    decreases flags.len(),
{
    if flags.len() == 0 {
        Seq::empty()
    } else {
        flag_findings(line, flags.drop_last()) + if known_flags().contains(flags.last()) {
            Seq::<Seq<char>>::empty()
        } else {
            seq![
                finding(
                    line,
                    "flag `"@ + flags.last()
                        + "` is not in the vocabulary in xtask/src/quirkdb.rs"@,
                ),
            ]
        }
    }
}

/// The per-entry findings: missing fields, unknown flags, an unknown source, a misshapen
/// date.
pub open spec fn entry_findings(e: EntryRecord) -> Seq<Seq<char>> {
    missing_fields(e) + match e.flags {
        Some(flags) => flag_findings(e.line, flags),
        None => Seq::empty(),
    } + source_findings(e.line, e.source) + date_findings(e.line, e.date)
}

/// Lexicographic order of identifier pairs.
pub open spec fn pair_greater(a: (u32, u32), b: (u32, u32)) -> bool {
    a.0 > b.0 || (a.0 == b.0 && a.1 > b.1)
}

/// The order finding for an entry after the previous complete one.
pub open spec fn order_findings(previous: Option<(u32, u32)>, e: EntryRecord) -> Seq<Seq<char>> {
    match (e.vid, e.pid) {
        (Some(vid), Some(pid)) => match previous {
            Some(before) => if before == (vid, pid) {
                seq![
                    finding(
                        e.line,
                        "duplicate entry for "@ + lower_hex(vid as nat, 4) + ":"@ + lower_hex(
                            pid as nat,
                            4,
                        ),
                    ),
                ]
            } else if pair_greater(before, (vid, pid)) {
                seq![finding(e.line, "entries are not sorted ascending by (vid, pid)"@)]
            } else {
                Seq::empty()
            },
            None => Seq::empty(),
        },
        _ => Seq::empty(),
    }
}

/// The identifiers of the last complete entry among `entries`.
pub open spec fn last_complete(entries: Seq<EntryRecord>) -> Option<(u32, u32)>
    decreases entries.len(),
{
    if entries.len() == 0 {
        None
    } else {
        match (entries.last().vid, entries.last().pid) {
            (Some(vid), Some(pid)) => Some((vid, pid)),
            _ => last_complete(entries.drop_last()),
        }
    }
}

/// The cross-entry findings, entry by entry.
pub open spec fn validation(entries: Seq<EntryRecord>) -> Seq<Seq<char>>
    decreases entries.len(),
{
    if entries.len() == 0 {
        Seq::empty()
    } else {
        validation(entries.drop_last()) + entry_findings(entries.last()) + order_findings(
            last_complete(entries.drop_last()),
            entries.last(),
        )
    }
}

/// Every finding for a table: those of its lines in order, then the cross-entry ones.
pub open spec fn table_violations(text: Seq<char>) -> Seq<Seq<char>> {
    let scan = quirk_steps(text_lines(text));
    scan.violations + validation(scan.entries)
}

// ---------------------------------------------------------------------------------------
// The check
// ---------------------------------------------------------------------------------------

/// The views of optional text.
pub open spec fn opt_text(o: Option<Vec<char>>) -> Option<Seq<char>> {
    match o {
        Some(v) => Some(v@),
        None => None,
    }
}

/// The views of an optional list of texts.
pub open spec fn opt_list(o: Option<Vec<Vec<char>>>) -> Option<Seq<Seq<char>>> {
    match o {
        Some(v) => Some(vec_views(v@)),
        None => None,
    }
}

struct Record {
    line: usize,
    vid: Option<u32>,
    pid: Option<u32>,
    name: Option<Vec<char>>,
    flags: Option<Vec<Vec<char>>>,
    source: Option<Vec<char>>,
    evidence: Option<Vec<char>>,
    date: Option<Vec<char>>,
}

impl View for Record {
    type V = EntryRecord;

    closed spec fn view(&self) -> EntryRecord {
        EntryRecord {
            line: self.line as nat,
            vid: self.vid,
            pid: self.pid,
            name: opt_text(self.name),
            flags: opt_list(self.flags),
            source: opt_text(self.source),
            evidence: opt_text(self.evidence),
            date: opt_text(self.date),
        }
    }
}

spec fn record_views(records: Seq<Record>) -> Seq<EntryRecord> {
    records.map_values(|r: Record| r@)
}

/// The views of strings.
pub open spec fn message_views(messages: Seq<String>) -> Seq<Seq<char>> {
    messages.map_values(|m: String| m@)
}

fn push_message(violations: &mut Vec<String>, message: String)
    ensures
        message_views(final(violations)@) == message_views(old(violations)@).push(message@),
{
    let ghost before = violations@;
    violations.push(message);
    assert(message_views(violations@) =~= message_views(before).push(message@));
}

fn take_last(records: &mut Vec<Record>) -> (last: Record)
    requires
        old(records)@.len() > 0,
    ensures
        last@ == record_views(old(records)@).last(),
        record_views(final(records)@) == record_views(old(records)@).drop_last(),
{
    let ghost before = records@;
    let last = records.pop().unwrap();
    assert(record_views(records@) =~= record_views(before).drop_last());
    last
}

fn put_last(records: &mut Vec<Record>, record: Record)
    ensures
        record_views(final(records)@) == record_views(old(records)@).push(record@),
{
    let ghost before = records@;
    records.push(record);
    assert(record_views(records@) =~= record_views(before).push(record@));
}

/// Every violation in the table's text: line findings in order, then cross-entry ones.
pub fn violations_in(text: &str) -> (violations: Vec<String>)
    ensures
        message_views(violations@) == table_violations(text@),
{
    let chars = chars_of(text);
    let lines = lines_of(chars.as_slice());
    let ghost spec_lines = text_lines(text@);
    let mut violations: Vec<String> = Vec::new();
    let mut records: Vec<Record> = Vec::new();
    let mut section = Section::Preamble;
    let mut index: usize = 0;
    assert(spec_lines.subrange(0, 0) =~= Seq::<Seq<char>>::empty());
    assert(message_views(violations@) =~= Seq::<Seq<char>>::empty());
    assert(record_views(records@) =~= Seq::<EntryRecord>::empty());
    while index < lines.len()
        invariant
            lines@.len() == spec_lines.len(),
            forall|i: int| 0 <= i < lines@.len() ==> #[trigger] lines@[i]@ == spec_lines[i],
            index <= lines@.len(),
            quirk_steps(spec_lines.subrange(0, index as int)) == (QuirkScan {
                violations: message_views(violations@),
                entries: record_views(records@),
                section,
            }),
        decreases lines@.len() - index,
    {
        assert(spec_lines.subrange(0, index as int + 1).drop_last() =~= spec_lines.subrange(
            0,
            index as int,
        ));
        let at = index + 1;
        let line = clean(lines[index].as_slice());
        if line.len() > 0 {
            scan_line(&mut violations, &mut records, &mut section, line.as_slice(), at);
        }
        index = index + 1;
    }
    assert(spec_lines.subrange(0, spec_lines.len() as int) =~= spec_lines);
    validate(records.as_slice(), &mut violations);
    violations
}

fn scan_line(
    violations: &mut Vec<String>,
    records: &mut Vec<Record>,
    section: &mut Section,
    line: &[char],
    at: usize,
)
    ensures
        line_step(
            QuirkScan {
                violations: message_views(old(violations)@),
                entries: record_views(old(records)@),
                section: *old(section),
            },
            line@,
            at as nat,
        ) == (QuirkScan {
            violations: message_views(final(violations)@),
            entries: record_views(final(records)@),
            section: *final(section),
        }),
{
    match array_header_of(line) {
        Some(header) => {
            if chars_are(header.as_slice(), "reader") {
                let record = Record {
                    line: at,
                    vid: None,
                    pid: None,
                    name: None,
                    flags: None,
                    source: None,
                    evidence: None,
                    date: None,
                };
                assert(record@ == new_record(at as nat));
                put_last(records, record);
                *section = Section::Reader;
            } else {
                let message = finding_with(
                    at,
                    "unknown array `[[",
                    header.as_slice(),
                    "]]`; the table holds only `[[reader]]` entries",
                );
                push_message(violations, message);
            }
            return ;
        },
        None => {},
    }
    match header_of(line) {
        Some(header) => {
            if chars_are(header.as_slice(), "reader.provenance") && *section != Section::Preamble {
                *section = Section::Provenance;
            } else {
                let message = finding_with(
                    at,
                    "unknown table `[",
                    header.as_slice(),
                    "]`; an entry holds only `[reader.provenance]`",
                );
                push_message(violations, message);
            }
            return ;
        },
        None => {},
    }
    match split_once_chars(line, '=') {
        None => {
            push_message(violations, plain_finding(at, "not a `key = value` line"));
        },
        Some((k, v)) => {
            let key = trim_chars(k.as_slice());
            let value = trim_chars(v.as_slice());
            if records.len() == 0 {
                let message = finding_with(at, "`", key.as_slice(), "` outside any `[[reader]]` entry");
                push_message(violations, message);
            } else {
                keyed_line(violations, records, *section, key.as_slice(), value.as_slice(), at);
            }
        },
    }
}

fn keyed_line(
    violations: &mut Vec<String>,
    records: &mut Vec<Record>,
    section: Section,
    key: &[char],
    value: &[char],
    at: usize,
)
    requires
        old(records)@.len() > 0,
    ensures
        keyed_step(
            QuirkScan {
                violations: message_views(old(violations)@),
                entries: record_views(old(records)@),
                section,
            },
            at as nat,
            key@,
            value@,
        ) == (QuirkScan {
            violations: message_views(final(violations)@),
            entries: record_views(final(records)@),
            section,
        }),
{
    let ghost before = record_views(records@);
    let ghost v0 = message_views(violations@);
    let reader = section == Section::Reader;
    let provenance = section == Section::Provenance;
    if reader && chars_are(key, "vid") {
        let mut e = take_last(records);
        e.vid = read_id(value, at, "vid", violations);
        put_last(records, e);
        assert(record_views(records@) =~= before.update(before.len() - 1, e@));
        return ;
    }
    if reader && chars_are(key, "pid") {
        let mut e = take_last(records);
        e.pid = read_id(value, at, "pid", violations);
        put_last(records, e);
        assert(record_views(records@) =~= before.update(before.len() - 1, e@));
        return ;
    }
    if reader && chars_are(key, "name") {
        let mut e = take_last(records);
        e.name = first_quoted_in(value);
        put_last(records, e);
        assert(record_views(records@) =~= before.update(before.len() - 1, e@));
        return ;
    }
    if reader && chars_are(key, "flags") {
        let mut e = take_last(records);
        e.flags = Some(quoted_in(value));
        put_last(records, e);
        assert(record_views(records@) =~= before.update(before.len() - 1, e@));
        return ;
    }
    if provenance && chars_are(key, "source") {
        let mut e = take_last(records);
        e.source = first_quoted_in(value);
        put_last(records, e);
        assert(record_views(records@) =~= before.update(before.len() - 1, e@));
        return ;
    }
    if provenance && chars_are(key, "evidence") {
        let mut e = take_last(records);
        e.evidence = first_quoted_in(value);
        put_last(records, e);
        assert(record_views(records@) =~= before.update(before.len() - 1, e@));
        return ;
    }
    if provenance && chars_are(key, "date") {
        let mut e = take_last(records);
        e.date = first_quoted_in(value);
        put_last(records, e);
        assert(record_views(records@) =~= before.update(before.len() - 1, e@));
        return ;
    }
    let message = finding_with(
        at,
        "unknown key `",
        key,
        "` for this section; the schema is in the file's header comment",
    );
    push_message(violations, message);
}

fn push_missing(violations: &mut Vec<String>, line: usize, field: &str, present: bool)
    ensures
        message_views(final(violations)@) == message_views(old(violations)@) + missing(
            line as nat,
            field@,
            present,
        ),
{
    let ghost before = message_views(violations@);
    if !present {
        let field_chars = chars_of(field);
        let message = finding_with(
            line,
            "entry is missing `",
            field_chars.as_slice(),
            "`; every quirk carries its identity and its receipt (docs/adr/0009)",
        );
        push_message(violations, message);
    }
    assert(message_views(violations@) =~= before + missing(line as nat, field@, present));
}

fn is_known_flag(flag: &[char]) -> (known: bool)
    ensures
        known == known_flags().contains(flag@),
{
    let names = flags();
    let mut index: usize = 0;
    while index < names.len()
        invariant
            names@.map_values(|s: &str| s@) == known_flags(),
            index <= names@.len(),
            forall|k: int| 0 <= k < index ==> known_flags()[k] != flag@,
        decreases names@.len() - index,
    {
        assert(known_flags()[index as int] == names@[index as int]@);
        if chars_are(flag, names[index]) {
            assert(known_flags()[index as int] == flag@);
            return true;
        }
        index = index + 1;
    }
    false
}

fn is_known_source(source: &[char]) -> (known: bool)
    ensures
        known == known_sources().contains(source@),
{
    let names = sources();
    let mut index: usize = 0;
    while index < names.len()
        invariant
            names@.map_values(|s: &str| s@) == known_sources(),
            index <= names@.len(),
            forall|k: int| 0 <= k < index ==> known_sources()[k] != source@,
        decreases names@.len() - index,
    {
        assert(known_sources()[index as int] == names@[index as int]@);
        if chars_are(source, names[index]) {
            assert(known_sources()[index as int] == source@);
            return true;
        }
        index = index + 1;
    }
    false
}

fn flag_checks(line: usize, flags: &Option<Vec<Vec<char>>>, violations: &mut Vec<String>)
    ensures
        message_views(final(violations)@) == message_views(old(violations)@) + match opt_list(
            *flags,
        ) {
            Some(list) => flag_findings(line as nat, list),
            None => Seq::<Seq<char>>::empty(),
        },
{
    let ghost start = message_views(violations@);
    match flags {
        Some(flags) => {
            let ghost views = vec_views(flags@);
            let mut index: usize = 0;
            assert(views.subrange(0, 0) =~= Seq::<Seq<char>>::empty());
            assert(message_views(violations@) =~= start + flag_findings(
                line as nat,
                views.subrange(0, 0),
            ));
            while index < flags.len()
                invariant
                    views == vec_views(flags@),
                    index <= flags@.len(),
                    message_views(violations@) == start + flag_findings(
                        line as nat,
                        views.subrange(0, index as int),
                    ),
                decreases flags@.len() - index,
            {
                let ghost prefix = views.subrange(0, index as int + 1);
                assert(prefix.drop_last() =~= views.subrange(0, index as int));
                assert(prefix.last() == flags@[index as int]@);
                if !is_known_flag(flags[index].as_slice()) {
                    let message = finding_with(
                        line,
                        "flag `",
                        flags[index].as_slice(),
                        "` is not in the vocabulary in xtask/src/quirkdb.rs",
                    );
                    push_message(violations, message);
                }
                assert(message_views(violations@) =~= start + flag_findings(line as nat, prefix));
                index = index + 1;
            }
            assert(views.subrange(0, views.len() as int) =~= views);
        },
        None => {
            assert(message_views(violations@) =~= start + Seq::<Seq<char>>::empty());
        },
    }
}

/// The finding for a source outside the list, if there is one.
pub open spec fn source_findings(line: nat, source: Option<Seq<char>>) -> Seq<Seq<char>> {
    match source {
        Some(source) => if known_sources().contains(source) {
            Seq::empty()
        } else {
            seq![
                finding(
                    line,
                    "provenance source `"@ + source
                        + "` is not one of [\"cassette\", \"issue\", \"capture\"]"@,
                ),
            ]
        },
        None => Seq::empty(),
    }
}

/// The finding for a misshapen date, if there is one.
pub open spec fn date_findings(line: nat, date: Option<Seq<char>>) -> Seq<Seq<char>> {
    match date {
        Some(date) => if date_shape(encode_utf8(date)) {
            Seq::empty()
        } else {
            seq![finding(line, "provenance date `"@ + date + "` is not `YYYY-MM-DD`"@)]
        },
        None => Seq::empty(),
    }
}

fn source_check(line: usize, source: &Option<Vec<char>>, violations: &mut Vec<String>)
    ensures
        message_views(final(violations)@) == message_views(old(violations)@) + source_findings(
            line as nat,
            opt_text(*source),
        ),
{
    let ghost start = message_views(violations@);
    match source {
        Some(source) => {
            if !is_known_source(source.as_slice()) {
                let message = finding_with(
                    line,
                    "provenance source `",
                    source.as_slice(),
                    "` is not one of [\"cassette\", \"issue\", \"capture\"]",
                );
                push_message(violations, message);
                return ;
            }
        },
        None => {},
    }
    assert(message_views(violations@) =~= start + Seq::<Seq<char>>::empty());
}

fn date_check(line: usize, date: &Option<Vec<char>>, violations: &mut Vec<String>)
    ensures
        message_views(final(violations)@) == message_views(old(violations)@) + date_findings(
            line as nat,
            opt_text(*date),
        ),
{
    let ghost start = message_views(violations@);
    match date {
        Some(date) => {
            let text = string_from_chars(date.as_slice());
            if !date_shaped(text.as_str()) {
                let message = finding_with(
                    line,
                    "provenance date `",
                    date.as_slice(),
                    "` is not `YYYY-MM-DD`",
                );
                push_message(violations, message);
                return ;
            }
        },
        None => {},
    }
    assert(message_views(violations@) =~= start + Seq::<Seq<char>>::empty());
}

fn missing_checks(record: &Record, violations: &mut Vec<String>)
    ensures
        message_views(final(violations)@) == message_views(old(violations)@) + missing_fields(
            record@,
        ),
{
    let ghost start = message_views(violations@);
    let ghost e = record@;
    let line = record.line;
    let ghost l = line as nat;
    push_missing(violations, line, "vid", record.vid.is_some());
    let ghost acc = missing(l, "vid"@, e.vid is Some);
    assert(message_views(violations@) == start + acc);
    push_missing(violations, line, "pid", record.pid.is_some());
    proof {
        lemma_concat_associative(start, acc, missing(l, "pid"@, e.pid is Some));
        acc = acc + missing(l, "pid"@, e.pid is Some);
    }
    push_missing(violations, line, "name", record.name.is_some());
    proof {
        lemma_concat_associative(start, acc, missing(l, "name"@, e.name is Some));
        acc = acc + missing(l, "name"@, e.name is Some);
    }
    push_missing(violations, line, "flags", record.flags.is_some());
    proof {
        lemma_concat_associative(start, acc, missing(l, "flags"@, e.flags is Some));
        acc = acc + missing(l, "flags"@, e.flags is Some);
    }
    push_missing(violations, line, "provenance.source", record.source.is_some());
    proof {
        lemma_concat_associative(start, acc, missing(l, "provenance.source"@, e.source is Some));
        acc = acc + missing(l, "provenance.source"@, e.source is Some);
    }
    push_missing(violations, line, "provenance.evidence", record.evidence.is_some());
    proof {
        lemma_concat_associative(
            start,
            acc,
            missing(l, "provenance.evidence"@, e.evidence is Some),
        );
        acc = acc + missing(l, "provenance.evidence"@, e.evidence is Some);
    }
    push_missing(violations, line, "provenance.date", record.date.is_some());
    proof {
        lemma_concat_associative(start, acc, missing(l, "provenance.date"@, e.date is Some));
        acc = acc + missing(l, "provenance.date"@, e.date is Some);
    }
    assert(acc == missing_fields(e));
}

#[verifier::rlimit(30)]
fn entry_checks(record: &Record, violations: &mut Vec<String>)
    ensures
        message_views(final(violations)@) == message_views(old(violations)@) + entry_findings(
            record@,
        ),
{
    let ghost start = message_views(violations@);
    let ghost e = record@;
    let line = record.line;
    missing_checks(record, violations);
    let ghost a1 = message_views(violations@);
    flag_checks(line, &record.flags, violations);
    let ghost a2 = message_views(violations@);
    source_check(line, &record.source, violations);
    let ghost a3 = message_views(violations@);
    date_check(line, &record.date, violations);
    let ghost a4 = message_views(violations@);
    proof {
        let f = match e.flags {
            Some(flags) => flag_findings(e.line, flags),
            None => Seq::<Seq<char>>::empty(),
        };
        let sf = source_findings(e.line, e.source);
        let df = date_findings(e.line, e.date);
        assert(a2 == a1 + f);
        assert(a3 == a2 + sf);
        assert(a4 == a3 + df);
        assert(entry_findings(e) == missing_fields(e) + f + sf + df);
        assert(a4 =~= start + entry_findings(e));
    }
}

fn order_check(previous: Option<(u32, u32)>, record: &Record, violations: &mut Vec<String>)
    ensures
        message_views(final(violations)@) == message_views(old(violations)@) + order_findings(
            previous,
            record@,
        ),
{
    let ghost start = message_views(violations@);
    match (record.vid, record.pid) {
        (Some(vid), Some(pid)) => match previous {
            Some((before_vid, before_pid)) => {
                if before_vid == vid && before_pid == pid {
                    let mut out: Vec<char> = Vec::new();
                    push_finding_start(&mut out, record.line);
                    push_text(&mut out, "duplicate entry for ");
                    push_lower_hex(&mut out, vid as u64, 4);
                    push_text(&mut out, ":");
                    push_lower_hex(&mut out, pid as u64, 4);
                    assert(out@ =~= finding(
                        record.line as nat,
                        "duplicate entry for "@ + lower_hex(vid as nat, 4) + ":"@ + lower_hex(
                            pid as nat,
                            4,
                        ),
                    ));
                    push_message(violations, string_from_chars(out.as_slice()));
                } else if before_vid > vid || (before_vid == vid && before_pid > pid) {
                    push_message(
                        violations,
                        plain_finding(record.line, "entries are not sorted ascending by (vid, pid)"),
                    );
                } else {
                    assert(message_views(violations@) =~= start + Seq::<Seq<char>>::empty());
                }
            },
            None => {
                assert(message_views(violations@) =~= start + Seq::<Seq<char>>::empty());
            },
        },
        _ => {
            assert(message_views(violations@) =~= start + Seq::<Seq<char>>::empty());
        },
    }
    assert(message_views(violations@) =~= start + order_findings(previous, record@));
}

#[verifier::rlimit(40)]
fn validate(records: &[Record], violations: &mut Vec<String>)
    ensures
        message_views(final(violations)@) == message_views(old(violations)@) + validation(
            record_views(records@),
        ),
{
    let ghost all = record_views(records@);
    let ghost start = message_views(violations@);
    let mut previous: Option<(u32, u32)> = None;
    let mut index: usize = 0;
    assert(all.subrange(0, 0) =~= Seq::<EntryRecord>::empty());
    assert(start + Seq::<Seq<char>>::empty() =~= start);
    while index < records.len()
        invariant
            all == record_views(records@),
            index <= records@.len(),
            message_views(violations@) == start + validation(all.subrange(0, index as int)),
            previous == last_complete(all.subrange(0, index as int)),
        decreases records@.len() - index,
    {
        let ghost prefix = all.subrange(0, index as int + 1);
        assert(prefix.drop_last() =~= all.subrange(0, index as int));
        assert(prefix.last() == records@[index as int]@);
        let record = &records[index];
        let ghost v0 = message_views(violations@);
        entry_checks(record, violations);
        let ghost v1 = message_views(violations@);
        order_check(previous, record, violations);
        proof {
            lemma_concat_associative(start, validation(prefix.drop_last()), entry_findings(prefix.last()));
            lemma_concat_associative(
                start,
                validation(prefix.drop_last()) + entry_findings(prefix.last()),
                order_findings(previous, prefix.last()),
            );
        }
        match (record.vid, record.pid) {
            (Some(vid), Some(pid)) => {
                previous = Some((vid, pid));
            },
            _ => {},
        }
        index = index + 1;
        assert(message_views(violations@) =~= start + validation(all.subrange(0, index as int)));
    }
    assert(all.subrange(0, all.len() as int) =~= all);
}

} // verus!
