//! The packaged native-reader quirk table: reading its entries, rendering the lookup they
//! define, and answering that lookup.

use vstd::prelude::*;

use crate::text::{
    before_char, chars_are, chars_before, chars_of, hex4, lines_of, parse_bounded,
    parse_bounded_chars, push_chars, push_text, split_all, split_all_chars, split_once,
    split_once_chars, starts_with, string_from_chars, text_lines, trim, trim_chars,
};
use crate::usb::Quirks;

verus! {

/// One `[[reader]]` entry as far as it was read.
pub struct QuirkEntry {
    pub vid: Option<u16>,
    pub pid: Option<u16>,
    pub flags: Vec<Vec<char>>,
}

/// The content of an entry.
pub struct QuirkEntryView {
    pub vid: Option<u16>,
    pub pid: Option<u16>,
    pub flags: Seq<Seq<char>>,
}

/// The views of a sequence of character vectors.
pub open spec fn char_vecs(v: Seq<Vec<char>>) -> Seq<Seq<char>> {
    v.map_values(|c: Vec<char>| c@)
}

impl View for QuirkEntry {
    type V = QuirkEntryView;

    open spec fn view(&self) -> QuirkEntryView {
        QuirkEntryView { vid: self.vid, pid: self.pid, flags: char_vecs(self.flags@) }
    }
}

/// The views of a sequence of entries.
pub open spec fn entry_views(entries: Seq<QuirkEntry>) -> Seq<QuirkEntryView> {
    entries.map_values(|e: QuirkEntry| e@)
}

/// The view of an entry that may be open.
pub open spec fn opt_entry_view(entry: Option<QuirkEntry>) -> Option<QuirkEntryView> {
    match entry {
        Some(e) => Some(e@),
        None => None,
    }
}

/// A freshly opened entry.
pub open spec fn empty_entry() -> QuirkEntryView {
    QuirkEntryView { vid: None, pid: None, flags: Seq::empty() }
}

/// An identifier as the table writes it: `0x` and hexadecimal digits, or decimal digits,
/// either with an optional `+`, and no larger than sixteen bits.
pub open spec fn table_id(value: Seq<char>) -> Option<u16> {
    let v = trim(value);
    let parsed = if starts_with(v, "0x"@) {
        parse_bounded(v.subrange(2, v.len() as int), 16, 0xFFFF)
    } else {
        parse_bounded(v, 10, 0xFFFF)
    };
    match parsed {
        Some(n) => Some(n as u16),
        None => None,
    }
}

/// The quoted strings of a value: every second field between `"` characters.
pub open spec fn quoted_strings(value: Seq<char>) -> Seq<Seq<char>> {
    let fields = split_all(value, '"');
    Seq::new(fields.len() / 2, |i: int| fields[2 * i + 1])
}

/// What the reader keeps between lines: the finished entries and the open one.
pub struct TableState {
    pub entries: Seq<QuirkEntryView>,
    pub current: Option<QuirkEntryView>,
}

/// Read one line of the table.
pub open spec fn table_step(state: TableState, raw: Seq<char>) -> TableState {
    let line = trim(before_char(raw, '#'));
    if line == "[[reader]]"@ {
        TableState {
            entries: match state.current {
                Some(e) => state.entries.push(e),
                None => state.entries,
            },
            current: Some(empty_entry()),
        }
    } else {
        match state.current {
            None => state,
            Some(e) => match split_once(line, '=') {
                None => state,
                Some((key, value)) => {
                    let k = trim(key);
                    if k == "vid"@ {
                        TableState { current: Some(QuirkEntryView { vid: table_id(value), ..e }), ..state }
                    } else if k == "pid"@ {
                        TableState { current: Some(QuirkEntryView { pid: table_id(value), ..e }), ..state }
                    } else if k == "flags"@ {
                        TableState {
                            current: Some(QuirkEntryView { flags: quoted_strings(value), ..e }),
                            ..state
                        }
                    } else {
                        state
                    }
                },
            },
        }
    }
}

/// Read lines in order.
pub open spec fn table_steps(lines: Seq<Seq<char>>) -> TableState
    decreases lines.len(),
{
    if lines.len() == 0 {
        TableState { entries: Seq::empty(), current: None }
    } else {
        table_step(table_steps(lines.drop_last()), lines.last())
    }
}

/// The entries of a table: everything after the first `[[reader]]` header, one entry per
/// header, with `#` comments ignored and unknown keys skipped.
pub open spec fn table_entries(table: Seq<char>) -> Seq<QuirkEntryView> {
    let state = table_steps(text_lines(table));
    match state.current {
        Some(e) => state.entries.push(e),
        None => state.entries,
    }
}

/// Read an identifier value.
pub fn parse_id(value: &[char]) -> (id: Option<u16>)
    ensures
        id == table_id(value@),
{
    let v = trim_chars(value);
    let hex = v.len() >= 2 && v[0] == '0' && v[1] == 'x';
    proof {
        reveal_strlit("0x");
        if hex {
            assert(v@.subrange(0, 2) =~= "0x"@);
        } else if v@.len() >= 2 {
            assert(v@.subrange(0, 2) != "0x"@) by {
                if v@.subrange(0, 2) == "0x"@ {
                    assert(v@.subrange(0, 2)[0] == v@[0]);
                    assert(v@.subrange(0, 2)[1] == v@[1]);
                }
            }
        }
    }
    let parsed = if hex {
        let mut digits: Vec<char> = Vec::new();
        let mut index: usize = 2;
        while index < v.len()
            invariant
                2 <= index <= v@.len(),
                digits@ == v@.subrange(2, index as int),
            decreases v@.len() - index,
        {
            digits.push(v[index]);
            index = index + 1;
            assert(digits@ =~= v@.subrange(2, index as int));
        }
        parse_bounded_chars(digits.as_slice(), 16, 0xFFFF)
    } else {
        parse_bounded_chars(v.as_slice(), 10, 0xFFFF)
    };
    match parsed {
        Some(n) => Some(n as u16),
        None => None,
    }
}

/// Read the quoted strings of a value.
pub fn quoted(value: &[char]) -> (strings: Vec<Vec<char>>)
    ensures
        char_vecs(strings@) == quoted_strings(value@),
{
    let fields = split_all_chars(value, '"');
    let ghost spec_fields = split_all(value@, '"');
    let mut strings: Vec<Vec<char>> = Vec::new();
    let mut index: usize = 1;
    while index < fields.len()
        invariant
            fields@.len() == spec_fields.len(),
            forall|i: int| 0 <= i < fields@.len() ==> #[trigger] fields@[i]@ == spec_fields[i],
            1 <= index,
            index % 2 == 1,
            index <= fields@.len() + 1,
            strings@.len() == (index - 1) / 2,
            forall|i: int| 0 <= i < strings@.len() ==> #[trigger] strings@[i]@ == spec_fields[2 * i + 1],
        decreases fields@.len() + 1 - index,
    {
        let copy = crate::text::copy_chars(fields[index].as_slice(), 0, fields[index].len());
        assert(copy@ =~= fields@[index as int]@);
        strings.push(copy);
        index = index + 2;
    }
    assert(char_vecs(strings@) =~= quoted_strings(value@));
    strings
}

fn fresh_entry() -> (entry: QuirkEntry)
    ensures
        entry@ == empty_entry(),
{
    let entry = QuirkEntry { vid: None, pid: None, flags: Vec::new() };
    assert(entry@.flags =~= Seq::<Seq<char>>::empty());
    entry
}

/// Read the entries of a quirk table.
pub fn parse_table(table: &str) -> (entries: Vec<QuirkEntry>)
    ensures
        entry_views(entries@) == table_entries(table@),
{
    let chars = chars_of(table);
    let lines = lines_of(chars.as_slice());
    let ghost spec_lines = text_lines(table@);
    let mut entries: Vec<QuirkEntry> = Vec::new();
    let mut current: Option<QuirkEntry> = None;
    let mut index: usize = 0;
    assert(entry_views(entries@) =~= Seq::<QuirkEntryView>::empty());
    assert(spec_lines.subrange(0, 0) =~= Seq::<Seq<char>>::empty());
    while index < lines.len()
        invariant
            lines@.len() == spec_lines.len(),
            forall|i: int| 0 <= i < lines@.len() ==> #[trigger] lines@[i]@ == spec_lines[i],
            index <= lines@.len(),
            table_steps(spec_lines.subrange(0, index as int)) == (TableState {
                entries: entry_views(entries@),
                current: opt_entry_view(current),
            }),
        decreases lines@.len() - index,
    {
        let ghost before = TableState {
            entries: entry_views(entries@),
            current: opt_entry_view(current),
        };
        assert(spec_lines.subrange(0, index as int + 1).drop_last() =~= spec_lines.subrange(
            0,
            index as int,
        ));
        let ghost raw = spec_lines[index as int];
        let line = trim_chars(chars_before(lines[index].as_slice(), '#').as_slice());
        assert(line@ == trim(before_char(raw, '#')));
        if chars_are(line.as_slice(), "[[reader]]") {
            match current {
                Some(entry) => {
                    let ghost old_entries = entries@;
                    entries.push(entry);
                    assert(entry_views(entries@) =~= entry_views(old_entries).push(entry@));
                },
                None => {},
            }
            current = Some(fresh_entry());
        } else {
            match current {
                None => {},
                Some(entry) => {
                    let mut entry = entry;
                    match split_once_chars(line.as_slice(), '=') {
                        None => {},
                        Some((key, value)) => {
                            let k = trim_chars(key.as_slice());
                            if chars_are(k.as_slice(), "vid") {
                                entry.vid = parse_id(value.as_slice());
                            } else if chars_are(k.as_slice(), "pid") {
                                entry.pid = parse_id(value.as_slice());
                            } else if chars_are(k.as_slice(), "flags") {
                                entry.flags = quoted(value.as_slice());
                            }
                        },
                    }
                    current = Some(entry);
                },
            }
        }
        index = index + 1;
    }
    assert(spec_lines.subrange(0, spec_lines.len() as int) =~= spec_lines);
    match current {
        Some(entry) => {
            let ghost old_entries = entries@;
            entries.push(entry);
            assert(entry_views(entries@) =~= entry_views(old_entries).push(entry@));
        },
        None => {},
    }
    entries
}

// ---------------------------------------------------------------------------------------
// The lookup a table defines
// ---------------------------------------------------------------------------------------

/// The transport fixes a list of flags names.
pub open spec fn quirks_from_flags(flags: Seq<Seq<char>>) -> Quirks {
    Quirks {
        force_short_apdu: flags.contains("no-extended-apdu"@),
        needs_zlp: flags.contains("needs-zlp"@),
        slow_power_on: flags.contains("slow-power-on"@),
    }
}

/// Whether an entry names both identifiers; entries that do not are ignored.
pub open spec fn is_complete(entry: QuirkEntryView) -> bool {
    entry.vid is Some && entry.pid is Some
}

/// The quirks of a reader model: those of the first complete entry naming it, else none.
pub open spec fn table_quirks(entries: Seq<QuirkEntryView>, vid: u16, pid: u16) -> Quirks
    decreases entries.len(),
{
    if entries.len() == 0 {
        Quirks { force_short_apdu: false, needs_zlp: false, slow_power_on: false }
    } else if entries[0].vid == Some(vid) && entries[0].pid == Some(pid) {
        quirks_from_flags(entries[0].flags)
    } else {
        table_quirks(entries.drop_first(), vid, pid)
    }
}

/// The quirks of a reader model come from the first complete entry that names both its
/// vendor and its product identifier; a model that no entry names exactly has no quirks.
pub proof fn quirks_belong_to_the_exact_model(entries: Seq<QuirkEntryView>, vid: u16, pid: u16)
    ensures
        (forall|i: int|
            0 <= i < entries.len() ==> !(#[trigger] entries[i].vid == Some(vid) && entries[i].pid
                == Some(pid))) ==> table_quirks(entries, vid, pid) == (Quirks {
            force_short_apdu: false,
            needs_zlp: false,
            slow_power_on: false,
        }),
        forall|i: int|
            0 <= i < entries.len() && #[trigger] entries[i].vid == Some(vid) && entries[i].pid
                == Some(pid) && (forall|j: int|
                0 <= j < i ==> !(entries[j].vid == Some(vid) && entries[j].pid == Some(pid)))
                ==> table_quirks(entries, vid, pid) == quirks_from_flags(entries[i].flags),
    decreases entries.len(),
{
    if entries.len() > 0 {
        let rest = entries.drop_first();
        quirks_belong_to_the_exact_model(rest, vid, pid);
        assert forall|i: int|
            0 <= i < rest.len() && !(#[trigger] rest[i].vid == Some(vid) && rest[i].pid
                == Some(pid)) implies !(entries[i + 1].vid == Some(vid) && entries[i + 1].pid
                == Some(pid)) by {
            assert(rest[i] == entries[i + 1]);
        }
        assert forall|i: int|
            0 <= i < entries.len() && #[trigger] entries[i].vid == Some(vid) && entries[i].pid
                == Some(pid) && (forall|j: int|
                0 <= j < i ==> !(entries[j].vid == Some(vid) && entries[j].pid == Some(pid)))
                implies table_quirks(entries, vid, pid) == quirks_from_flags(entries[i].flags) by {
            if i > 0 {
                assert(!(entries[0].vid == Some(vid) && entries[0].pid == Some(pid)));
                assert(rest[i - 1] == entries[i]);
                assert forall|j: int| 0 <= j < i - 1 implies !(rest[j].vid == Some(vid)
                    && rest[j].pid == Some(pid)) by {
                    assert(rest[j] == entries[j + 1]);
                }
            }
        }
        if forall|i: int|
            0 <= i < entries.len() ==> !(#[trigger] entries[i].vid == Some(vid) && entries[i].pid
                == Some(pid)) {
            assert(!(entries[0].vid == Some(vid) && entries[0].pid == Some(pid)));
            assert forall|i: int| 0 <= i < rest.len() implies !(#[trigger] rest[i].vid == Some(vid)
                && rest[i].pid == Some(pid)) by {
                assert(rest[i] == entries[i + 1]);
            }
        }
    }
}

fn has_flag(flags: &Vec<Vec<char>>, name: &str) -> (found: bool)
    ensures
        found == char_vecs(flags@).contains(name@),
{
    let mut index: usize = 0;
    while index < flags.len()
        invariant
            index <= flags@.len(),
            forall|i: int| 0 <= i < index ==> flags@[i]@ != name@,
        decreases flags@.len() - index,
    {
        if chars_are(flags[index].as_slice(), name) {
            assert(char_vecs(flags@)[index as int] == name@);
            return true;
        }
        index = index + 1;
    }
    proof {
        if char_vecs(flags@).contains(name@) {
            let i = choose|i: int| 0 <= i < char_vecs(flags@).len() && char_vecs(flags@)[i] == name@;
            assert(flags@[i]@ == name@);
        }
    }
    false
}

fn flags_quirks(flags: &Vec<Vec<char>>) -> (quirks: Quirks)
    ensures
        quirks == quirks_from_flags(char_vecs(flags@)),
{
    Quirks {
        force_short_apdu: has_flag(flags, "no-extended-apdu"),
        needs_zlp: has_flag(flags, "needs-zlp"),
        slow_power_on: has_flag(flags, "slow-power-on"),
    }
}

/// The quirks a table records for a reader model.
pub fn lookup(entries: &[QuirkEntry], vid: u16, pid: u16) -> (quirks: Quirks)
    ensures
        quirks == table_quirks(entry_views(entries@), vid, pid),
{
    let ghost all = entry_views(entries@);
    let mut index: usize = 0;
    assert(all.subrange(0, all.len() as int) =~= all);
    while index < entries.len()
        invariant
            index <= entries@.len(),
            all == entry_views(entries@),
            table_quirks(all, vid, pid) == table_quirks(all.subrange(index as int, all.len() as int), vid, pid),
        decreases entries@.len() - index,
    {
        let ghost rest = all.subrange(index as int, all.len() as int);
        assert(rest[0] == entries@[index as int]@);
        if entries[index].vid == Some(vid) && entries[index].pid == Some(pid) {
            return flags_quirks(&entries[index].flags);
        }
        assert(rest.drop_first() =~= all.subrange(index as int + 1, all.len() as int));
        index = index + 1;
    }
    assert(all.subrange(index as int, all.len() as int) =~= Seq::<QuirkEntryView>::empty());
    Quirks { force_short_apdu: false, needs_zlp: false, slow_power_on: false }
}

// ---------------------------------------------------------------------------------------
// Rendering
// ---------------------------------------------------------------------------------------

/// The text every rendered lookup starts with.
pub const LOOKUP_PRELUDE: &'static str = "#[derive(Clone, Copy, Debug, Default)]\npub(crate) struct Quirks {\n    pub(crate) force_short_apdu: bool,\n    pub(crate) needs_zlp: bool,\n    pub(crate) slow_power_on: bool,\n}\n\npub(crate) fn lookup(vid: u16, pid: u16) -> Quirks {\n";

/// `true` or `false`.
pub open spec fn bool_text(value: bool) -> Seq<char> {
    if value {
        "true"@
    } else {
        "false"@
    }
}

/// The match arm of one complete entry.
pub open spec fn render_arm(vid: u16, pid: u16, quirks: Quirks) -> Seq<char> {
    "        (0x"@ + hex4(vid) + ", 0x"@ + hex4(pid) + ") => Quirks { force_short_apdu: "@
        + bool_text(quirks.force_short_apdu) + ", needs_zlp: "@ + bool_text(quirks.needs_zlp)
        + ", slow_power_on: "@ + bool_text(quirks.slow_power_on) + " },\n"@
}

/// The match arms of the complete entries, in table order.
pub open spec fn render_arms(entries: Seq<QuirkEntryView>) -> Seq<char>
    decreases entries.len(),
{
    if entries.len() == 0 {
        Seq::empty()
    } else {
        render_arms(entries.drop_last()) + if is_complete(entries.last()) {
            render_arm(
                entries.last().vid->Some_0,
                entries.last().pid->Some_0,
                quirks_from_flags(entries.last().flags),
            )
        } else {
            Seq::empty()
        }
    }
}

/// Whether any entry is complete.
pub open spec fn any_complete(entries: Seq<QuirkEntryView>) -> bool {
    exists|i: int| 0 <= i < entries.len() && is_complete(#[trigger] entries[i])
}

/// The rendered lookup: a `match` over the complete entries with a default arm, or, for a
/// table without complete entries, a function that always answers the default.
pub open spec fn render_text(entries: Seq<QuirkEntryView>) -> Seq<char> {
    LOOKUP_PRELUDE@ + if any_complete(entries) {
        "    match (vid, pid) {\n"@ + render_arms(entries) + "        _ => Quirks::default(),\n    }\n}\n"@
    } else {
        "    let _ = (vid, pid);\n    Quirks::default()\n}\n"@
    }
}

fn push_bool(out: &mut Vec<char>, value: bool)
    ensures
        final(out)@ == old(out)@ + bool_text(value),
{
    if value {
        push_text(out, "true");
    } else {
        push_text(out, "false");
    }
}

fn push_hex4_chars(out: &mut Vec<char>, value: u16)
    ensures
        final(out)@ == old(out)@ + hex4(value),
{
    let mut text = String::new();
    crate::text::push_hex4(&mut text, value);
    let digits = chars_of(text.as_str());
    push_chars(out, digits.as_slice());
}

fn push_arm(out: &mut Vec<char>, vid: u16, pid: u16, quirks: Quirks)
    ensures
        final(out)@ == old(out)@ + render_arm(vid, pid, quirks),
{
    let ghost start = out@;
    push_text(out, "        (0x");
    push_hex4_chars(out, vid);
    push_text(out, ", 0x");
    push_hex4_chars(out, pid);
    push_text(out, ") => Quirks { force_short_apdu: ");
    push_bool(out, quirks.force_short_apdu);
    push_text(out, ", needs_zlp: ");
    push_bool(out, quirks.needs_zlp);
    push_text(out, ", slow_power_on: ");
    push_bool(out, quirks.slow_power_on);
    push_text(out, " },\n");
    assert(out@ =~= start + render_arm(vid, pid, quirks));
}

/// Render the lookup function a list of entries defines.
pub fn render(entries: &[QuirkEntry]) -> (text: String)
    ensures
        text@ == render_text(entry_views(entries@)),
{
    let ghost all = entry_views(entries@);
    let mut out: Vec<char> = Vec::new();
    push_text(&mut out, LOOKUP_PRELUDE);
    let mut has_entries = false;
    let mut index: usize = 0;
    assert(all.subrange(0, 0) =~= Seq::<QuirkEntryView>::empty());
    assert(out@ =~= LOOKUP_PRELUDE@ + Seq::<char>::empty());
    while index < entries.len()
        invariant
            index <= entries@.len(),
            all == entry_views(entries@),
            has_entries == any_complete(all.subrange(0, index as int)),
            out@ == LOOKUP_PRELUDE@ + if has_entries {
                "    match (vid, pid) {\n"@ + render_arms(all.subrange(0, index as int))
            } else {
                Seq::<char>::empty()
            },
            !has_entries ==> render_arms(all.subrange(0, index as int)) == Seq::<char>::empty(),
        decreases entries@.len() - index,
    {
        let ghost prefix = all.subrange(0, index as int);
        let ghost next = all.subrange(0, index as int + 1);
        assert(next.drop_last() =~= prefix);
        assert(next.last() == entries@[index as int]@);
        let entry = &entries[index];
        match (entry.vid, entry.pid) {
            (Some(vid), Some(pid)) => {
                if !has_entries {
                    push_text(&mut out, "    match (vid, pid) {\n");
                    has_entries = true;
                }
                let quirks = flags_quirks(&entry.flags);
                push_arm(&mut out, vid, pid, quirks);
                assert(is_complete(next[index as int]));
                assert(any_complete(next));
            },
            _ => {
                assert(!is_complete(next.last()));
                assert(any_complete(next) == any_complete(prefix)) by {
                    if any_complete(next) {
                        let i = choose|i: int| 0 <= i < next.len() && is_complete(#[trigger] next[i]);
                        assert(i < index);
                        assert(prefix[i] == next[i]);
                    }
                    if any_complete(prefix) {
                        let i = choose|i: int| 0 <= i < prefix.len() && is_complete(#[trigger] prefix[i]);
                        assert(next[i] == prefix[i]);
                    }
                }
            },
        }
        index = index + 1;
        assert(out@ =~= LOOKUP_PRELUDE@ + if has_entries {
            "    match (vid, pid) {\n"@ + render_arms(all.subrange(0, index as int))
        } else {
            Seq::<char>::empty()
        });
    }
    assert(all.subrange(0, all.len() as int) =~= all);
    if has_entries {
        push_text(&mut out, "        _ => Quirks::default(),\n    }\n}\n");
    } else {
        push_text(&mut out, "    let _ = (vid, pid);\n    Quirks::default()\n}\n");
    }
    assert(out@ =~= render_text(all));
    string_from_chars(out.as_slice())
}

/// Render the lookup function a quirk table defines.
pub fn generate(table: &str) -> (text: String)
    ensures
        text@ == render_text(table_entries(table@)),
{
    let entries = parse_table(table);
    render(entries.as_slice())
}

} // verus!
