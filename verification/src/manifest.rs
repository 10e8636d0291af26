//! A line scanner for the one manifest style this repository writes: table headers,
//! `key = value` lines, quoted values and `#` comments. It reads workspace members,
//! package names, `[[bin]]` names and declared dependencies, and nothing else.

use vstd::prelude::*;

use crate::text::{
    chars_are, chars_of, copy_chars, lemma_find_char_bounds, lines_of, split_once,
    split_once_chars, string_from_chars, text_lines, trim, trim_chars, contains_char,
    rsplit_once, rsplit_once_chars, ends_with, chars_end_with,
};

verus! {

// ---------------------------------------------------------------------------------------
// Lines
// ---------------------------------------------------------------------------------------

/// Where the comment of a line starts: the first `#` outside a string, scanning from `i`
/// with the given string and escape state. A `\` inside a string toggles the escape, a `"`
/// that is not escaped toggles the string, and any other character ends an escape.
pub open spec fn comment_start(s: Seq<char>, i: int, inside: bool, escaped: bool) -> int
    decreases s.len() - i,
{
    if i < 0 || i >= s.len() {
        s.len() as int
    } else {
        let c = s[i];
        if c == '\\' && inside {
            comment_start(s, i + 1, inside, !escaped)
        } else if c == '"' && !escaped {
            comment_start(s, i + 1, !inside, escaped)
        } else if c == '#' && !inside {
            i
        } else {
            comment_start(s, i + 1, inside, false)
        }
    }
}

/// Everything before the first `#` that is not inside a string.
pub open spec fn before_comment_text(s: Seq<char>) -> Seq<char> {
    s.subrange(0, comment_start(s, 0, false, false))
}

proof fn lemma_comment_start_bounds(s: Seq<char>, i: int, inside: bool, escaped: bool)
    requires
        0 <= i <= s.len(),
    ensures
        i <= comment_start(s, i, inside, escaped) <= s.len(),
    decreases s.len() - i,
{
    if i < s.len() {
        let c = s[i];
        if c == '\\' && inside {
            lemma_comment_start_bounds(s, i + 1, inside, !escaped);
        } else if c == '"' && !escaped {
            lemma_comment_start_bounds(s, i + 1, !inside, escaped);
        } else if c == '#' && !inside {
        } else {
            lemma_comment_start_bounds(s, i + 1, inside, false);
        }
    }
}

fn comment_free(line: &[char]) -> (code: Vec<char>)
    ensures
        code@ == before_comment_text(line@),
{
    let mut inside = false;
    let mut escaped = false;
    let mut index: usize = 0;
    proof {
        lemma_comment_start_bounds(line@, 0, false, false);
    }
    while index < line.len()
        invariant
            index <= line@.len(),
            comment_start(line@, 0, false, false) == comment_start(line@, index as int, inside, escaped),
        decreases line@.len() - index,
    {
        let c = line[index];
        if c == '\\' && inside {
            escaped = !escaped;
        } else if c == '"' && !escaped {
            inside = !inside;
        } else if c == '#' && !inside {
            return copy_chars(line, 0, index);
        } else {
            escaped = false;
        }
        index = index + 1;
    }
    copy_chars(line, 0, line.len())
}

/// Everything before the first `#` that is not inside a string.
pub fn before_comment(line: &str) -> (code: String)
    ensures
        code@ == before_comment_text(line@),
{
    let chars = chars_of(line);
    let code = comment_free(chars.as_slice());
    string_from_chars(code.as_slice())
}

/// A scanned line: the comment removed and the surrounding white space trimmed.
pub open spec fn clean_line(raw: Seq<char>) -> Seq<char> {
    trim(before_comment_text(raw))
}

pub(crate) fn clean(raw: &[char]) -> (line: Vec<char>)
    ensures
        line@ == clean_line(raw@),
{
    let code = comment_free(raw);
    trim_chars(code.as_slice())
}

// ---------------------------------------------------------------------------------------
// Headers and values
// ---------------------------------------------------------------------------------------

/// The name inside a `[table]` header, if the line is one.
pub open spec fn table_header_text(line: Seq<char>) -> Option<Seq<char>> {
    if line.len() >= 2 && line[0] == '[' && line[1] == '[' {
        None
    } else if line.len() >= 2 && line[0] == '[' && line.last() == ']' {
        Some(trim(line.subrange(1, line.len() - 1)))
    } else {
        None
    }
}

/// The name inside an `[[array]]` header, if the line is one.
pub open spec fn array_header_text(line: Seq<char>) -> Option<Seq<char>> {
    if line.len() >= 4 && line[0] == '[' && line[1] == '[' && line[line.len() - 2] == ']'
        && line[line.len() - 1] == ']' {
        Some(trim(line.subrange(2, line.len() - 2)))
    } else {
        None
    }
}

pub(crate) fn header_of(line: &[char]) -> (header: Option<Vec<char>>)
    ensures
        match table_header_text(line@) {
            Some(h) => header matches Some(v) && v@ == h,
            None => header is None,
        },
{
    let n = line.len();
    if n >= 2 && line[0] == '[' && line[1] == '[' {
        return None;
    }
    if n >= 2 && line[0] == '[' && line[n - 1] == ']' {
        let inner = copy_chars(line, 1, n - 1);
        return Some(trim_chars(inner.as_slice()));
    }
    None
}

pub(crate) fn array_header_of(line: &[char]) -> (header: Option<Vec<char>>)
    ensures
        match array_header_text(line@) {
            Some(h) => header matches Some(v) && v@ == h,
            None => header is None,
        },
{
    let n = line.len();
    if n >= 4 && line[0] == '[' && line[1] == '[' && line[n - 2] == ']' && line[n - 1] == ']' {
        let inner = copy_chars(line, 2, n - 2);
        return Some(trim_chars(inner.as_slice()));
    }
    None
}

/// The name inside a `[table]` header, if the line is one.
pub fn table_header(line: &str) -> (header: Option<String>)
    ensures
        match table_header_text(line@) {
            Some(h) => header matches Some(s) && s@ == h,
            None => header is None,
        },
{
    let chars = chars_of(line);
    match header_of(chars.as_slice()) {
        Some(h) => Some(string_from_chars(h.as_slice())),
        None => None,
    }
}

/// The name inside an `[[array]]` header, if the line is one.
pub fn array_header(line: &str) -> (header: Option<String>)
    ensures
        match array_header_text(line@) {
            Some(h) => header matches Some(s) && s@ == h,
            None => header is None,
        },
{
    let chars = chars_of(line);
    match array_header_of(chars.as_slice()) {
        Some(h) => Some(string_from_chars(h.as_slice())),
        None => None,
    }
}

/// Both sides of a split are shorter than the text.
pub proof fn lemma_split_once_shorter(s: Seq<char>, c: char)
    ensures
        split_once(s, c) matches Some((before, after)) ==> before.len() < s.len() && after.len()
            < s.len() && after.len() + before.len() + 1 == s.len(),
{
    lemma_find_char_bounds(s, c);
}

/// The string literals on a line, in order, without their quotes; an unterminated one is
/// not a value.
pub open spec fn quoted_values_text(s: Seq<char>) -> Seq<Seq<char>>
    decreases s.len(),
{
    match split_once(s, '"') {
        None => Seq::empty(),
        Some((_, after)) => match split_once(after, '"') {
            None => Seq::empty(),
            Some((value, rest)) => {
                proof {
                    lemma_split_once_shorter(s, '"');
                    lemma_split_once_shorter(after, '"');
                }
                seq![value] + quoted_values_text(rest)
            },
        },
    }
}

/// The views of a sequence of character vectors.
pub open spec fn vec_views(v: Seq<Vec<char>>) -> Seq<Seq<char>> {
    v.map_values(|c: Vec<char>| c@)
}

pub(crate) fn quoted_in(line: &[char]) -> (values: Vec<Vec<char>>)
    ensures
        vec_views(values@) == quoted_values_text(line@),
{
    let mut values: Vec<Vec<char>> = Vec::new();
    let mut rest = copy_chars(line, 0, line.len());
    assert(rest@ =~= line@);
    let ghost total = quoted_values_text(line@);
    loop
        invariant
            total == quoted_values_text(line@),
            total == vec_views(values@) + quoted_values_text(rest@),
        decreases rest@.len(),
    {
        proof {
            lemma_split_once_shorter(rest@, '"');
        }
        match split_once_chars(rest.as_slice(), '"') {
            None => {
                assert(vec_views(values@) + Seq::<Seq<char>>::empty() =~= vec_views(values@));
                return values;
            },
            Some((_, after)) => {
                proof {
                    lemma_split_once_shorter(after@, '"');
                }
                match split_once_chars(after.as_slice(), '"') {
                    None => {
                        assert(vec_views(values@) + Seq::<Seq<char>>::empty() =~= vec_views(
                            values@,
                        ));
                        return values;
                    },
                    Some((value, remainder)) => {
                        let ghost before = values@;
                        let ghost v = value@;
                        values.push(value);
                        assert(vec_views(values@) =~= vec_views(before).push(v));
                        assert(vec_views(before) + quoted_values_text(rest@) =~= vec_views(
                            values@,
                        ) + quoted_values_text(remainder@));
                        rest = remainder;
                    },
                }
            },
        }
    }
}

/// The string literals on a line, in order, without their quotes.
pub fn quoted_values(line: &str) -> (values: Vec<String>)
    ensures
        values@.map_values(|s: String| s@) == quoted_values_text(line@),
{
    let chars = chars_of(line);
    let found = quoted_in(chars.as_slice());
    let mut values: Vec<String> = Vec::new();
    let mut index: usize = 0;
    while index < found.len()
        invariant
            index <= found@.len(),
            values@.len() == index,
            forall|i: int| 0 <= i < index ==> #[trigger] values@[i]@ == found@[i]@,
        decreases found@.len() - index,
    {
        values.push(string_from_chars(found[index].as_slice()));
        index = index + 1;
    }
    assert(values@.map_values(|s: String| s@) =~= vec_views(found@));
    values
}

/// The first quoted value, if any.
pub open spec fn first_quoted(value: Seq<char>) -> Option<Seq<char>> {
    let q = quoted_values_text(value);
    if q.len() > 0 {
        Some(q[0])
    } else {
        None
    }
}

pub(crate) fn first_quoted_in(value: &[char]) -> (first: Option<Vec<char>>)
    ensures
        match first_quoted(value@) {
            Some(q) => first matches Some(v) && v@ == q,
            None => first is None,
        },
{
    let mut values = quoted_in(value);
    if values.len() == 0 {
        return None;
    }
    assert(vec_views(values@)[0] == values@[0]@);
    Some(values.remove(0))
}

/// The key and value of a `key = value` line whose trimmed key is `key`.
pub open spec fn keyed_value(line: Seq<char>, key: Seq<char>) -> Option<Seq<char>> {
    match split_once(line, '=') {
        Some((k, v)) => if trim(k) == key {
            Some(v)
        } else {
            None
        },
        None => None,
    }
}

fn keyed_value_of(line: &[char], key: &str) -> (value: Option<Vec<char>>)
    ensures
        match keyed_value(line@, key@) {
            Some(v) => value matches Some(x) && x@ == v,
            None => value is None,
        },
{
    match split_once_chars(line, '=') {
        Some((k, v)) => {
            let trimmed = trim_chars(k.as_slice());
            if chars_are(trimmed.as_slice(), key) {
                Some(v)
            } else {
                None
            }
        },
        None => None,
    }
}

// ---------------------------------------------------------------------------------------
// Workspace members
// ---------------------------------------------------------------------------------------

/// What the member scan keeps between lines.
pub struct MemberScan {
    pub found: Seq<Seq<char>>,
    pub inside_workspace: bool,
    pub inside_members: bool,
}

/// Read one line of a workspace manifest.
pub open spec fn member_step(state: MemberScan, raw: Seq<char>) -> MemberScan {
    let line = clean_line(raw);
    if line.len() == 0 {
        state
    } else if state.inside_members {
        MemberScan {
            found: state.found + quoted_values_text(line),
            inside_members: !line.contains(']'),
            ..state
        }
    } else {
        match table_header_text(line) {
            Some(header) => MemberScan { inside_workspace: header == "workspace"@, ..state },
            None => if state.inside_workspace {
                match keyed_value(line, "members"@) {
                    Some(value) => MemberScan {
                        found: state.found + quoted_values_text(value),
                        inside_members: !value.contains(']'),
                        ..state
                    },
                    None => state,
                }
            } else {
                state
            },
        }
    }
}

/// Read lines in order.
pub open spec fn member_steps(lines: Seq<Seq<char>>) -> MemberScan
    decreases lines.len(),
{
    if lines.len() == 0 {
        MemberScan { found: Seq::empty(), inside_workspace: false, inside_members: false }
    } else {
        member_step(member_steps(lines.drop_last()), lines.last())
    }
}

/// The member paths of a workspace manifest: the `members` array under `[workspace]`, on
/// one line or several.
pub open spec fn workspace_member_paths(manifest: Seq<char>) -> Seq<Seq<char>> {
    member_steps(text_lines(manifest)).found
}

fn append_quoted(found: &mut Vec<Vec<char>>, line: &[char])
    ensures
        vec_views(final(found)@) == vec_views(old(found)@) + quoted_values_text(line@),
{
    let values = quoted_in(line);
    let ghost start = found@;
    let mut index: usize = 0;
    while index < values.len()
        invariant
            index <= values@.len(),
            vec_views(found@) == vec_views(start) + vec_views(values@).subrange(0, index as int),
        decreases values@.len() - index,
    {
        let ghost before = found@;
        let copy = copy_chars(values[index].as_slice(), 0, values[index].len());
        assert(copy@ =~= values@[index as int]@);
        found.push(copy);
        assert(vec_views(found@) =~= vec_views(before).push(values@[index as int]@));
        index = index + 1;
        assert(vec_views(found@) =~= vec_views(start) + vec_views(values@).subrange(
            0,
            index as int,
        ));
    }
    assert(vec_views(values@).subrange(0, values@.len() as int) =~= vec_views(values@));
}

fn to_strings(items: &Vec<Vec<char>>) -> (strings: Vec<String>)
    ensures
        strings@.map_values(|s: String| s@) == vec_views(items@),
{
    let mut strings: Vec<String> = Vec::new();
    let mut index: usize = 0;
    while index < items.len()
        invariant
            index <= items@.len(),
            strings@.len() == index,
            forall|i: int| 0 <= i < index ==> #[trigger] strings@[i]@ == items@[i]@,
        decreases items@.len() - index,
    {
        strings.push(string_from_chars(items[index].as_slice()));
        index = index + 1;
    }
    assert(strings@.map_values(|s: String| s@) =~= vec_views(items@));
    strings
}

/// Read the member paths out of a workspace manifest.
pub fn workspace_members(manifest: &str) -> (paths: Vec<String>)
    ensures
        paths@.map_values(|s: String| s@) == workspace_member_paths(manifest@),
{
    let chars = chars_of(manifest);
    let lines = lines_of(chars.as_slice());
    let ghost spec_lines = text_lines(manifest@);
    let mut found: Vec<Vec<char>> = Vec::new();
    let mut inside_workspace = false;
    let mut inside_members = false;
    let mut index: usize = 0;
    assert(spec_lines.subrange(0, 0) =~= Seq::<Seq<char>>::empty());
    assert(vec_views(found@) =~= Seq::<Seq<char>>::empty());
    while index < lines.len()
        invariant
            lines@.len() == spec_lines.len(),
            forall|i: int| 0 <= i < lines@.len() ==> #[trigger] lines@[i]@ == spec_lines[i],
            index <= lines@.len(),
            member_steps(spec_lines.subrange(0, index as int)) == (MemberScan {
                found: vec_views(found@),
                inside_workspace,
                inside_members,
            }),
        decreases lines@.len() - index,
    {
        assert(spec_lines.subrange(0, index as int + 1).drop_last() =~= spec_lines.subrange(
            0,
            index as int,
        ));
        let line = clean(lines[index].as_slice());
        if line.len() == 0 {
        } else if inside_members {
            append_quoted(&mut found, line.as_slice());
            inside_members = !contains_char(line.as_slice(), ']');
        } else {
            match header_of(line.as_slice()) {
                Some(header) => {
                    inside_workspace = chars_are(header.as_slice(), "workspace");
                },
                None => {
                    if inside_workspace {
                        match keyed_value_of(line.as_slice(), "members") {
                            Some(value) => {
                                append_quoted(&mut found, value.as_slice());
                                inside_members = !contains_char(value.as_slice(), ']');
                            },
                            None => {},
                        }
                    }
                },
            }
        }
        index = index + 1;
    }
    assert(spec_lines.subrange(0, spec_lines.len() as int) =~= spec_lines);
    to_strings(&found)
}

// ---------------------------------------------------------------------------------------
// Package names
// ---------------------------------------------------------------------------------------

/// The package name among `lines`, scanning from the front: the first quoted value of the
/// first `name` key inside `[package]`.
pub open spec fn package_name_in(lines: Seq<Seq<char>>, inside: bool) -> Option<Seq<char>>
    decreases lines.len(),
{
    if lines.len() == 0 {
        None
    } else {
        let line = clean_line(lines[0]);
        match table_header_text(line) {
            Some(header) => package_name_in(lines.drop_first(), header == "package"@),
            None => if inside {
                match keyed_value(line, "name"@) {
                    Some(value) => first_quoted(value),
                    None => package_name_in(lines.drop_first(), inside),
                }
            } else {
                package_name_in(lines.drop_first(), inside)
            },
        }
    }
}

/// The package name a crate manifest declares.
pub open spec fn package_name_text(manifest: Seq<char>) -> Option<Seq<char>> {
    package_name_in(text_lines(manifest), false)
}

/// Read the package name out of a crate manifest.
pub fn package_name(manifest: &str) -> (name: Option<String>)
    ensures
        match package_name_text(manifest@) {
            Some(n) => name matches Some(s) && s@ == n,
            None => name is None,
        },
{
    let chars = chars_of(manifest);
    let lines = lines_of(chars.as_slice());
    let ghost spec_lines = text_lines(manifest@);
    let mut inside = false;
    let mut index: usize = 0;
    assert(spec_lines.subrange(0, spec_lines.len() as int) =~= spec_lines);
    while index < lines.len()
        invariant
            lines@.len() == spec_lines.len(),
            forall|i: int| 0 <= i < lines@.len() ==> #[trigger] lines@[i]@ == spec_lines[i],
            index <= lines@.len(),
            package_name_text(manifest@) == package_name_in(
                spec_lines.subrange(index as int, spec_lines.len() as int),
                inside,
            ),
            spec_lines == text_lines(manifest@),
        decreases lines@.len() - index,
    {
        let ghost rest = spec_lines.subrange(index as int, spec_lines.len() as int);
        assert(rest[0] == spec_lines[index as int]);
        assert(rest.drop_first() =~= spec_lines.subrange(index as int + 1, spec_lines.len() as int));
        let line = clean(lines[index].as_slice());
        match header_of(line.as_slice()) {
            Some(header) => {
                inside = chars_are(header.as_slice(), "package");
            },
            None => {
                if inside {
                    match keyed_value_of(line.as_slice(), "name") {
                        Some(value) => {
                            return match first_quoted_in(value.as_slice()) {
                                Some(q) => Some(string_from_chars(q.as_slice())),
                                None => None,
                            };
                        },
                        None => {},
                    }
                }
            },
        }
        index = index + 1;
    }
    None
}

// ---------------------------------------------------------------------------------------
// Binary targets
// ---------------------------------------------------------------------------------------

/// What the `[[bin]]` scan keeps between lines.
pub struct BinScan {
    pub names: Seq<Seq<char>>,
    pub inside_bin: bool,
}

/// Read one line when collecting `[[bin]]` names.
pub open spec fn bin_step(state: BinScan, raw: Seq<char>) -> BinScan {
    let line = clean_line(raw);
    match array_header_text(line) {
        Some(header) => BinScan { inside_bin: header == "bin"@, ..state },
        None => if table_header_text(line) is Some {
            BinScan { inside_bin: false, ..state }
        } else if state.inside_bin {
            match keyed_value(line, "name"@) {
                Some(value) => match first_quoted(value) {
                    Some(name) => BinScan { names: state.names.push(name), ..state },
                    None => state,
                },
                None => state,
            }
        } else {
            state
        },
    }
}

/// Read lines in order.
pub open spec fn bin_steps(lines: Seq<Seq<char>>) -> BinScan
    decreases lines.len(),
{
    if lines.len() == 0 {
        BinScan { names: Seq::empty(), inside_bin: false }
    } else {
        bin_step(bin_steps(lines.drop_last()), lines.last())
    }
}

/// The `name` values of every `[[bin]]` table in a manifest.
pub open spec fn bin_names_text(manifest: Seq<char>) -> Seq<Seq<char>> {
    bin_steps(text_lines(manifest)).names
}

/// Read the `name` values of every `[[bin]]` table in a manifest.
pub fn declared_bin_names(manifest: &str) -> (names: Vec<String>)
    ensures
        names@.map_values(|s: String| s@) == bin_names_text(manifest@),
{
    let chars = chars_of(manifest);
    let lines = lines_of(chars.as_slice());
    let ghost spec_lines = text_lines(manifest@);
    let mut names: Vec<Vec<char>> = Vec::new();
    let mut inside_bin = false;
    let mut index: usize = 0;
    assert(spec_lines.subrange(0, 0) =~= Seq::<Seq<char>>::empty());
    assert(vec_views(names@) =~= Seq::<Seq<char>>::empty());
    while index < lines.len()
        invariant
            lines@.len() == spec_lines.len(),
            forall|i: int| 0 <= i < lines@.len() ==> #[trigger] lines@[i]@ == spec_lines[i],
            index <= lines@.len(),
            bin_steps(spec_lines.subrange(0, index as int)) == (BinScan {
                names: vec_views(names@),
                inside_bin,
            }),
        decreases lines@.len() - index,
    {
        assert(spec_lines.subrange(0, index as int + 1).drop_last() =~= spec_lines.subrange(
            0,
            index as int,
        ));
        let line = clean(lines[index].as_slice());
        match array_header_of(line.as_slice()) {
            Some(header) => {
                inside_bin = chars_are(header.as_slice(), "bin");
            },
            None => {
                if header_of(line.as_slice()).is_some() {
                    inside_bin = false;
                } else if inside_bin {
                    match keyed_value_of(line.as_slice(), "name") {
                        Some(value) => match first_quoted_in(value.as_slice()) {
                            Some(name) => {
                                let ghost before = names@;
                                names.push(name);
                                assert(vec_views(names@) =~= vec_views(before).push(
                                    names@.last()@,
                                ));
                            },
                            None => {},
                        },
                        None => {},
                    }
                }
            },
        }
        index = index + 1;
    }
    assert(spec_lines.subrange(0, spec_lines.len() as int) =~= spec_lines);
    to_strings(&names)
}

// ---------------------------------------------------------------------------------------
// Declared dependencies
// ---------------------------------------------------------------------------------------

/// Which kind of dependency table a manifest header names.
#[derive(Clone, Copy, Debug, PartialEq, Eq, Structural)]
pub enum TableKind {
    /// `dependencies` or `build-dependencies`, in any `cfg`-gated spelling; build
    /// dependencies reach the shipped artifact's build.
    Normal,
    /// `dev-dependencies`, in any `cfg`-gated spelling.
    Dev,
}

/// Whether a header is `suffix` itself or ends in `.suffix`.
pub open spec fn header_is(header: Seq<char>, suffix: Seq<char>) -> bool {
    header == suffix || ends_with(header, seq!['.'] + suffix)
}

/// The kind of dependency table a header names, if it names one.
pub open spec fn table_kind_text(header: Seq<char>) -> Option<TableKind> {
    if header_is(header, "dev-dependencies"@) {
        Some(TableKind::Dev)
    } else if header_is(header, "build-dependencies"@) {
        Some(TableKind::Normal)
    } else if header_is(header, "dependencies"@) {
        Some(TableKind::Normal)
    } else {
        None
    }
}

fn names_table(header: &[char], suffix: &str) -> (found: bool)
    ensures
        found == header_is(header@, suffix@),
{
    if chars_are(header, suffix) {
        return true;
    }
    let mut dotted: Vec<char> = Vec::new();
    dotted.push('.');
    crate::text::push_text(&mut dotted, suffix);
    assert(dotted@ =~= seq!['.'] + suffix@);
    chars_end_with(header, dotted.as_slice())
}

/// The kind of dependency table `header` names, if it names one.
pub fn dependency_table_kind(header: &[char]) -> (kind: Option<TableKind>)
    ensures
        kind == table_kind_text(header@),
{
    if names_table(header, "dev-dependencies") {
        Some(TableKind::Dev)
    } else if names_table(header, "build-dependencies") {
        Some(TableKind::Normal)
    } else if names_table(header, "dependencies") {
        Some(TableKind::Normal)
    } else {
        None
    }
}

/// `s` without leading `"` characters.
pub open spec fn trim_leading_quotes(s: Seq<char>) -> Seq<char>
    decreases s.len(),
{
    if s.len() > 0 && s[0] == '"' {
        trim_leading_quotes(s.drop_first())
    } else {
        s
    }
}

/// `s` without trailing `"` characters.
pub open spec fn trim_trailing_quotes(s: Seq<char>) -> Seq<char>
    decreases s.len(),
{
    if s.len() > 0 && s.last() == '"' {
        trim_trailing_quotes(s.drop_last())
    } else {
        s
    }
}

/// `s` without the `"` characters at either end, as `trim_matches('"')` leaves it.
pub open spec fn trim_quotes(s: Seq<char>) -> Seq<char> {
    trim_trailing_quotes(trim_leading_quotes(s))
}

fn trim_quote_chars(chars: &[char]) -> (trimmed: Vec<char>)
    ensures
        trimmed@ == trim_quotes(chars@),
{
    let mut start: usize = 0;
    assert(chars@.subrange(0, chars@.len() as int) =~= chars@);
    while start < chars.len() && chars[start] == '"'
        invariant
            start <= chars@.len(),
            trim_leading_quotes(chars@) == trim_leading_quotes(chars@.subrange(start as int, chars@.len() as int)),
        decreases chars@.len() - start,
    {
        let ghost rest = chars@.subrange(start as int, chars@.len() as int);
        assert(rest.drop_first() =~= chars@.subrange(start as int + 1, chars@.len() as int));
        start = start + 1;
    }
    proof {
        let rest = chars@.subrange(start as int, chars@.len() as int);
        if rest.len() > 0 {
            assert(rest[0] == chars@[start as int]);
        }
        if start == 0 {
            assert(rest =~= chars@);
        }
    }
    let ghost lead = chars@.subrange(start as int, chars@.len() as int);
    let mut end: usize = chars.len();
    while end > start && chars[end - 1] == '"'
        invariant
            start <= end <= chars@.len(),
            lead == chars@.subrange(start as int, chars@.len() as int),
            trim_trailing_quotes(lead) == trim_trailing_quotes(chars@.subrange(start as int, end as int)),
        decreases end,
    {
        let ghost part = chars@.subrange(start as int, end as int);
        assert(part.drop_last() =~= chars@.subrange(start as int, end as int - 1));
        end = end - 1;
    }
    proof {
        let part = chars@.subrange(start as int, end as int);
        if part.len() > 0 {
            assert(part.last() == chars@[end - 1]);
        }
    }
    copy_chars(chars, start, end)
}

/// The dependency a `[dependencies.name]` style header declares.
pub open spec fn subtable_text(header: Seq<char>) -> Option<(TableKind, Seq<char>)> {
    match rsplit_once(header, '.') {
        None => None,
        Some((prefix, name)) => match table_kind_text(prefix) {
            None => None,
            Some(kind) => Some((kind, trim_quotes(name))),
        },
    }
}

/// Extract the kind and name from a `[dependencies.name]` style header.
pub fn dependency_subtable(header: &[char]) -> (found: Option<(TableKind, Vec<char>)>)
    ensures
        match subtable_text(header@) {
            Some((kind, name)) => found matches Some((k, n)) && k == kind && n@ == name,
            None => found is None,
        },
{
    match rsplit_once_chars(header, '.') {
        None => None,
        Some((prefix, name)) => match dependency_table_kind(prefix.as_slice()) {
            None => None,
            Some(kind) => Some((kind, trim_quote_chars(name.as_slice()))),
        },
    }
}

/// What the dependency scan keeps between lines: every declaration in order, and the
/// dependency table the cursor is inside.
pub struct DependencyScan {
    pub declared: Seq<(bool, Seq<char>)>,
    pub inside: Option<TableKind>,
}

/// The header a line is, as a table or an array.
pub open spec fn any_header(line: Seq<char>) -> Option<Seq<char>> {
    match table_header_text(line) {
        Some(h) => Some(h),
        None => array_header_text(line),
    }
}

/// Read one line of a manifest for dependencies.
pub open spec fn dependency_step(state: DependencyScan, raw: Seq<char>) -> DependencyScan {
    let line = clean_line(raw);
    if line.len() == 0 {
        state
    } else {
        match any_header(line) {
            Some(header) => match subtable_text(header) {
                Some((kind, name)) => DependencyScan {
                    declared: state.declared.push((kind == TableKind::Dev, name)),
                    inside: None,
                },
                None => DependencyScan { inside: table_kind_text(header), ..state },
            },
            None => match state.inside {
                None => state,
                Some(kind) => match split_once(line, '=') {
                    None => state,
                    Some((key, _)) => {
                        let name = trim_quotes(trim(key));
                        if name.len() > 0 {
                            DependencyScan {
                                declared: state.declared.push((kind == TableKind::Dev, name)),
                                ..state
                            }
                        } else {
                            state
                        }
                    },
                },
            },
        }
    }
}

/// Read lines in order.
pub open spec fn dependency_steps(lines: Seq<Seq<char>>) -> DependencyScan
    decreases lines.len(),
{
    if lines.len() == 0 {
        DependencyScan { declared: Seq::empty(), inside: None }
    } else {
        dependency_step(dependency_steps(lines.drop_last()), lines.last())
    }
}

/// Every dependency a manifest declares, with whether it came from a dev table:
/// `[dependencies]`-style tables, `[dependencies.name]` sub-tables and target tables.
pub open spec fn declared_set(manifest: Seq<char>) -> Set<(bool, Seq<char>)> {
    dependency_steps(text_lines(manifest)).declared.to_set()
}

/// Lexicographic order of character sequences by code point.
pub open spec fn chars_less(a: Seq<char>, b: Seq<char>) -> bool
    decreases a.len(),
{
    if b.len() == 0 {
        false
    } else if a.len() == 0 {
        true
    } else if a[0] != b[0] {
        a[0] < b[0]
    } else {
        chars_less(a.drop_first(), b.drop_first())
    }
}

/// The order of declarations: normal before dev, then by name.
pub open spec fn declared_less(a: (bool, Seq<char>), b: (bool, Seq<char>)) -> bool {
    (!a.0 && b.0) || (a.0 == b.0 && chars_less(a.1, b.1))
}

/// The ordering of names is strict.
pub proof fn lemma_chars_less_irreflexive(a: Seq<char>)
    ensures
        !chars_less(a, a),
    decreases a.len(),
{
    if a.len() > 0 {
        lemma_chars_less_irreflexive(a.drop_first());
    }
}

/// The ordering of names is transitive.
pub proof fn lemma_chars_less_transitive(a: Seq<char>, b: Seq<char>, c: Seq<char>)
    requires
        chars_less(a, b),
        chars_less(b, c),
    ensures
        chars_less(a, c),
    decreases a.len(),
{
    if a.len() > 0 && b.len() > 0 && c.len() > 0 && a[0] == b[0] && b[0] == c[0] {
        lemma_chars_less_transitive(a.drop_first(), b.drop_first(), c.drop_first());
    }
}

/// Two different names are ordered one way or the other.
pub proof fn lemma_chars_less_total(a: Seq<char>, b: Seq<char>)
    requires
        a != b,
    ensures
        chars_less(a, b) || chars_less(b, a),
    decreases a.len(),
{
    if a.len() > 0 && b.len() > 0 && a[0] == b[0] {
        if a.drop_first() == b.drop_first() {
            assert(a =~= seq![a[0]] + a.drop_first());
            assert(b =~= seq![b[0]] + b.drop_first());
        }
        lemma_chars_less_total(a.drop_first(), b.drop_first());
    } else if a.len() == 0 && b.len() == 0 {
        assert(a =~= b);
    }
}

proof fn lemma_push_to_set<A>(s: Seq<A>, x: A)
    ensures
        s.push(x).to_set() == s.to_set().insert(x),
{
    let t = s.push(x);
    assert forall|a: A| t.contains(a) <==> s.contains(a) || a == x by {
        if t.contains(a) {
            let i = choose|i: int| 0 <= i < t.len() && t[i] == a;
            if i < s.len() {
                assert(s[i] == a);
            }
        }
        if s.contains(a) {
            let i = choose|i: int| 0 <= i < s.len() && s[i] == a;
            assert(t[i] == a);
        }
        if a == x {
            assert(t[s.len() as int] == x);
        }
    }
    assert(t.to_set() =~= s.to_set().insert(x));
}

/// One declared dependency.
#[derive(Clone, Debug, PartialEq, Eq, PartialOrd, Ord)]
pub struct Declared {
    /// Whether it was declared in a `dev-dependencies` table.
    pub dev: bool,
    /// The package name, as the manifest spells it.
    pub name: String,
}

impl View for Declared {
    type V = (bool, Seq<char>);

    open spec fn view(&self) -> (bool, Seq<char>) {
        (self.dev, self.name@)
    }
}

/// The views of declarations.
pub open spec fn declared_views(items: Seq<Declared>) -> Seq<(bool, Seq<char>)> {
    items.map_values(|d: Declared| d@)
}

/// Strictly ascending, so nothing occurs twice.
pub open spec fn declared_sorted(items: Seq<(bool, Seq<char>)>) -> bool {
    forall|i: int, j: int| 0 <= i < j < items.len() ==> declared_less(items[i], items[j])
}

fn chars_before_in_order(a: &[char], b: &[char]) -> (less: bool)
    ensures
        less == chars_less(a@, b@),
{
    let mut index: usize = 0;
    assert(a@.subrange(0, a@.len() as int) =~= a@);
    assert(b@.subrange(0, b@.len() as int) =~= b@);
    while index < a.len() && index < b.len()
        invariant
            index <= a@.len(),
            index <= b@.len(),
            chars_less(a@, b@) == chars_less(
                a@.subrange(index as int, a@.len() as int),
                b@.subrange(index as int, b@.len() as int),
            ),
        decreases a@.len() - index,
    {
        let ghost ra = a@.subrange(index as int, a@.len() as int);
        let ghost rb = b@.subrange(index as int, b@.len() as int);
        assert(ra[0] == a@[index as int]);
        assert(rb[0] == b@[index as int]);
        if a[index] != b[index] {
            return a[index] < b[index];
        }
        assert(ra.drop_first() =~= a@.subrange(index as int + 1, a@.len() as int));
        assert(rb.drop_first() =~= b@.subrange(index as int + 1, b@.len() as int));
        index = index + 1;
    }
    index == a.len() && index < b.len()
}

fn declared_before(a: &Declared, dev: bool, name: &[char]) -> (less: bool)
    ensures
        less == declared_less(a@, (dev, name@)),
{
    let name_chars = chars_of(a.name.as_str());
    if !a.dev && dev {
        return true;
    }
    a.dev == dev && chars_before_in_order(name_chars.as_slice(), name)
}

fn insert_declared(items: &mut Vec<Declared>, dev: bool, name: &[char])
    requires
        declared_sorted(declared_views(old(items)@)),
    ensures
        declared_sorted(declared_views(final(items)@)),
        declared_views(final(items)@).to_set() == declared_views(old(items)@).to_set().insert(
            (dev, name@),
        ),
{
    let ghost x = (dev, name@);
    let ghost before = declared_views(items@);
    let mut index: usize = 0;
    while index < items.len()
        invariant
            index <= items@.len(),
            before == declared_views(items@),
            x == (dev, name@),
            forall|k: int| 0 <= k < index ==> declared_less(#[trigger] before[k], x),
        ensures
            index <= items@.len(),
            forall|k: int| 0 <= k < index ==> declared_less(#[trigger] before[k], x),
            index < items@.len() ==> !declared_less(before[index as int], x),
        decreases items@.len() - index,
    {
        assert(before[index as int] == items@[index as int]@);
        if !declared_before(&items[index], dev, name) {
            break;
        }
        index = index + 1;
    }
    if index < items.len() {
        assert(before[index as int] == items@[index as int]@);
        let same = items[index].dev == dev && crate::text::chars_equal(
            chars_of(items[index].name.as_str()).as_slice(),
            name,
        );
        if same {
            assert(before[index as int] == x);
            assert(before.to_set().insert(x) =~= before.to_set());
            return ;
        }
        proof {
            let y = before[index as int];
            assert(!declared_less(y, x));
            assert(y != x);
            if y.0 == x.0 {
                assert(y.1 != x.1);
                lemma_chars_less_total(y.1, x.1);
            }
            assert(declared_less(x, y));
            assert forall|k: int| index < k < before.len() implies declared_less(
                x,
                #[trigger] before[k],
            ) by {
                let z = before[k];
                assert(declared_less(y, z));
                if x.0 == y.0 && y.0 == z.0 {
                    lemma_chars_less_transitive(x.1, y.1, z.1);
                }
            }
        }
    }
    let entry = Declared { dev, name: string_from_chars(name) };
    assert(entry@ == x);
    items.insert(index, entry);
    proof {
        let after = declared_views(items@);
        assert(after =~= before.insert(index as int, x));
        assert forall|i: int, j: int| 0 <= i < j < after.len() implies declared_less(
            after[i],
            after[j],
        ) by {
            if j < index {
            } else if i < index && j == index {
            } else if i < index {
                let a = after[i];
                let c = after[j];
                assert(a == before[i]);
                assert(c == before[j - 1]);
                assert(declared_less(a, x));
                if index < j - 1 || j - 1 == index {
                    assert(declared_less(x, c));
                }
                if a.0 == x.0 && x.0 == c.0 {
                    lemma_chars_less_transitive(a.1, x.1, c.1);
                }
            } else if i == index {
            } else {
                assert(after[i] == before[i - 1]);
                assert(after[j] == before[j - 1]);
            }
        }
        assert(after.to_set() =~= before.to_set().insert(x)) by {
            assert forall|e| after.to_set().contains(e) implies before.to_set().insert(x).contains(
                e,
            ) by {
                let i = choose|i: int| 0 <= i < after.len() && after[i] == e;
                if i < index {
                    assert(before[i] == e);
                } else if i > index {
                    assert(before[i - 1] == e);
                }
            }
            assert forall|e| before.to_set().insert(x).contains(e) implies after.to_set().contains(
                e,
            ) by {
                if e == x {
                    assert(after[index as int] == x);
                } else {
                    let i = choose|i: int| 0 <= i < before.len() && before[i] == e;
                    if i < index {
                        assert(after[i] == e);
                    } else {
                        assert(after[i + 1] == e);
                    }
                }
            }
        }
    }
}

/// Every dependency a manifest declares, ascending, each once.
pub fn declared_dependencies(manifest: &str) -> (declared: Vec<Declared>)
    ensures
        declared_sorted(declared_views(declared@)),
        declared_views(declared@).to_set() == declared_set(manifest@),
{
    let chars = chars_of(manifest);
    let lines = lines_of(chars.as_slice());
    let ghost spec_lines = text_lines(manifest@);
    let mut declared: Vec<Declared> = Vec::new();
    let mut inside: Option<TableKind> = None;
    let mut index: usize = 0;
    assert(spec_lines.subrange(0, 0) =~= Seq::<Seq<char>>::empty());
    assert(declared_views(declared@) =~= Seq::<(bool, Seq<char>)>::empty());
    assert(Seq::<(bool, Seq<char>)>::empty().to_set() =~= declared_views(declared@).to_set());
    while index < lines.len()
        invariant
            lines@.len() == spec_lines.len(),
            forall|i: int| 0 <= i < lines@.len() ==> #[trigger] lines@[i]@ == spec_lines[i],
            index <= lines@.len(),
            declared_sorted(declared_views(declared@)),
            dependency_steps(spec_lines.subrange(0, index as int)).inside == inside,
            dependency_steps(spec_lines.subrange(0, index as int)).declared.to_set()
                == declared_views(declared@).to_set(),
        decreases lines@.len() - index,
    {
        let ghost prior = dependency_steps(spec_lines.subrange(0, index as int));
        assert(spec_lines.subrange(0, index as int + 1).drop_last() =~= spec_lines.subrange(
            0,
            index as int,
        ));
        let line = clean(lines[index].as_slice());
        if line.len() > 0 {
            let header = match header_of(line.as_slice()) {
                Some(h) => Some(h),
                None => array_header_of(line.as_slice()),
            };
            match header {
                Some(header) => match dependency_subtable(header.as_slice()) {
                    Some((kind, name)) => {
                        let dev = match kind {
                            TableKind::Dev => true,
                            TableKind::Normal => false,
                        };
                        insert_declared(&mut declared, dev, name.as_slice());
                        proof {
                            lemma_push_to_set(prior.declared, (dev, name@));
                        }
                        inside = None;
                    },
                    None => {
                        inside = dependency_table_kind(header.as_slice());
                    },
                },
                None => match inside {
                    None => {},
                    Some(kind) => match split_once_chars(line.as_slice(), '=') {
                        None => {},
                        Some((key, _)) => {
                            let name = trim_quote_chars(trim_chars(key.as_slice()).as_slice());
                            if name.len() > 0 {
                                let dev = match kind {
                                    TableKind::Dev => true,
                                    TableKind::Normal => false,
                                };
                                insert_declared(&mut declared, dev, name.as_slice());
                                proof {
                                    lemma_push_to_set(prior.declared, (dev, name@));
                                }
                            }
                        },
                    },
                },
            }
        }
        index = index + 1;
    }
    assert(spec_lines.subrange(0, spec_lines.len() as int) =~= spec_lines);
    declared
}

} // verus!
