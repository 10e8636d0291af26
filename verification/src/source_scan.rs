//! A line-oriented reading of Rust sources: the code of a line without its comment and
//! string literals, whole-word token search, and the `unsafe` boundary rules built on
//! them.

use vstd::prelude::*;

use crate::text::{
    chars_of, copy_chars, decimal, lines_of, push_decimal, push_text, starts_with,
    string_from_chars, text_lines, trim_start, trim_start_chars, chars_start_with,
};

verus! {

// ---------------------------------------------------------------------------------------
// The code of a line
// ---------------------------------------------------------------------------------------

/// The characters of `s` from `i` on that lie outside string literals, given whether the
/// scan is inside a literal and the character before `i`. A `"` not preceded by `\`
/// opens or closes a literal and is itself dropped.
pub open spec fn outside_strings(s: Seq<char>, i: int, inside: bool, previous: char) -> Seq<char>
    decreases s.len() - i,
{
    if i < 0 || i >= s.len() {
        Seq::empty()
    } else {
        let c = s[i];
        if c == '"' && previous != '\\' {
            outside_strings(s, i + 1, !inside, c)
        } else if !inside {
            seq![c] + outside_strings(s, i + 1, inside, c)
        } else {
            outside_strings(s, i + 1, inside, c)
        }
    }
}

/// One line with its comment and string literals removed, or `None` for prose: a line
/// whose first non-space characters are `//` or `*`.
pub open spec fn code_text(line: Seq<char>) -> Option<Seq<char>> {
    let t = trim_start(line);
    if starts_with(t, "//"@) || starts_with(t, "*"@) {
        None
    } else {
        Some(outside_strings(t, 0, false, ' '))
    }
}

fn code_chars(line: &[char]) -> (code: Option<Vec<char>>)
    ensures
        match code_text(line@) {
            Some(c) => code matches Some(v) && v@ == c,
            None => code is None,
        },
{
    let trimmed = trim_start_chars(line);
    let slashes = chars_of("//");
    let star = chars_of("*");
    if chars_start_with(trimmed.as_slice(), slashes.as_slice()) || chars_start_with(
        trimmed.as_slice(),
        star.as_slice(),
    ) {
        return None;
    }
    let ghost t = trimmed@;
    let mut code: Vec<char> = Vec::new();
    let mut inside = false;
    let mut previous = ' ';
    let mut index: usize = 0;
    while index < trimmed.len()
        invariant
            t == trimmed@,
            index <= t.len(),
            code@ + outside_strings(t, index as int, inside, previous) == outside_strings(
                t,
                0,
                false,
                ' ',
            ),
        decreases t.len() - index,
    {
        let c = trimmed[index];
        let ghost before = code@;
        if c == '"' && previous != '\\' {
            inside = !inside;
        } else if !inside {
            code.push(c);
            assert(code@ =~= before + seq![c]);
            assert(before + (seq![c] + outside_strings(t, index as int + 1, inside, c)) =~= code@
                + outside_strings(t, index as int + 1, inside, c));
        }
        previous = c;
        index = index + 1;
    }
    assert(code@ + Seq::<char>::empty() =~= code@);
    Some(code)
}

/// One line with its comment and its string literals removed, or `None` for prose.
pub fn code_of(line: &str) -> (code: Option<String>)
    ensures
        match code_text(line@) {
            Some(c) => code matches Some(s) && s@ == c,
            None => code is None,
        },
{
    let chars = chars_of(line);
    match code_chars(chars.as_slice()) {
        Some(c) => Some(string_from_chars(c.as_slice())),
        None => None,
    }
}

// ---------------------------------------------------------------------------------------
// Tokens
// ---------------------------------------------------------------------------------------

/// Whether `c` is alphabetic or numeric in Unicode's sense, as `char::is_alphanumeric`
/// decides it.
pub uninterp spec fn unicode_alphanumeric(c: char) -> bool;

/// Whether `c` is alphanumeric (`char::is_alphanumeric`). Unicode's tables decide; for
/// ASCII that is exactly the digits and the Latin letters.
#[verifier::external_body]
fn is_alphanumeric(c: char) -> (alphanumeric: bool)
    ensures
        alphanumeric == unicode_alphanumeric(c),
        (c as u32) < 128 ==> (alphanumeric <==> ('0' <= c <= '9' || 'a' <= c <= 'z' || 'A' <= c
            <= 'Z')),
{
    c.is_alphanumeric()
}

/// The first position at or after `i` where `t` occurs in `s`.
pub open spec fn find_from(s: Seq<char>, t: Seq<char>, i: int) -> Option<int>
    decreases s.len() + 1 - i,
{
    if i < 0 || i + t.len() > s.len() {
        None
    } else if s.subrange(i, i + t.len()) == t {
        Some(i)
    } else {
        find_from(s, t, i + 1)
    }
}

proof fn lemma_find_from_bounds(s: Seq<char>, t: Seq<char>, i: int)
    requires
        0 <= i,
    ensures
        find_from(s, t, i) matches Some(k) ==> i <= k && k + t.len() <= s.len(),
    decreases s.len() + 1 - i,
{
    if i + t.len() <= s.len() && s.subrange(i, i + t.len()) != t {
        lemma_find_from_bounds(s, t, i + 1);
    }
}

/// Whether a character next to a token leaves it a whole word: there is none, or it is
/// neither alphanumeric nor `_`.
pub open spec fn word_edge(edge: Option<char>) -> bool {
    match edge {
        None => true,
        Some(c) => !unicode_alphanumeric(c) && c != '_',
    }
}

/// Whether `rest` holds `token` as a whole word, searching as the scan does: each miss
/// resumes one character after where the match started (the character before the next
/// match is then looked up in what remains), and a match that starts with a character
/// wider than one byte ends the search.
pub open spec fn token_in(rest: Seq<char>, token: Seq<char>) -> bool
    decreases rest.len(),
{
    match find_from(rest, token, 0) {
        None => false,
        Some(k) => {
            let head = if k == 0 {
                None
            } else {
                Some(rest[k - 1])
            };
            let after = k + token.len();
            let tail = if after < rest.len() {
                Some(rest[after])
            } else {
                None
            };
            if word_edge(head) && word_edge(tail) {
                true
            } else if 0 <= k < rest.len() && (rest[k] as u32) < 128 {
                token_in(rest.subrange(k + 1, rest.len() as int), token)
            } else {
                false
            }
        },
    }
}

fn slices_equal(s: &[char], at: usize, t: &[char]) -> (equal: bool)
    requires
        at + t@.len() <= s@.len(),
    ensures
        equal == (s@.subrange(at as int, at + t@.len()) == t@),
{
    let n = s.len();
    let mut k: usize = 0;
    while k < t.len()
        invariant
            n == s@.len(),
            at + t@.len() <= s@.len(),
            k <= t@.len(),
            forall|j: int| 0 <= j < k ==> s@[at + j] == t@[j],
        decreases t@.len() - k,
    {
        assert(k < t@.len());
        let pos: usize = at + k;
        if s[pos] != t[k] {
            assert(s@.subrange(at as int, at + t@.len())[k as int] != t@[k as int]);
            return false;
        }
        k = k + 1;
    }
    assert(s@.subrange(at as int, at + t@.len()) =~= t@);
    true
}

fn find_in(s: &[char], t: &[char]) -> (found: Option<usize>)
    ensures
        match find_from(s@, t@, 0) {
            Some(k) => found == Some(k as usize),
            None => found is None,
        },
{
    if t.len() > s.len() {
        return None;
    }
    let last = s.len() - t.len();
    let mut i: usize = 0;
    loop
        invariant
            last == s@.len() - t@.len(),
            t@.len() <= s@.len(),
            i <= last,
            find_from(s@, t@, 0) == find_from(s@, t@, i as int),
        decreases last - i,
    {
        if slices_equal(s, i, t) {
            return Some(i);
        }
        if i == last {
            assert(find_from(s@, t@, i as int + 1) is None);
            return None;
        }
        i = i + 1;
    }
}

fn edge_ok(edge: Option<char>) -> (ok: bool)
    ensures
        ok == word_edge(edge),
{
    match edge {
        None => true,
        Some(c) => !is_alphanumeric(c) && c != '_',
    }
}

fn token_in_chars(line: &[char], token: &[char]) -> (found: bool)
    ensures
        found == token_in(line@, token@),
{
    let mut rest = copy_chars(line, 0, line.len());
    assert(rest@ =~= line@);
    loop
        invariant
            token_in(line@, token@) == token_in(rest@, token@),
        decreases rest@.len(),
    {
        proof {
            lemma_find_from_bounds(rest@, token@, 0);
        }
        match find_in(rest.as_slice(), token) {
            None => {
                return false;
            },
            Some(at) => {
                assert(at + token@.len() <= rest@.len());
                assert(rest@.len() == rest.len());
                let head = if at == 0 {
                    None
                } else {
                    Some(rest[at - 1])
                };
                let after = at + token.len();
                let tail = if after < rest.len() {
                    Some(rest[after])
                } else {
                    None
                };
                if edge_ok(head) && edge_ok(tail) {
                    return true;
                }
                if at < rest.len() && (rest[at] as u32) < 128 {
                    rest = copy_chars(rest.as_slice(), at + 1, rest.len());
                } else {
                    return false;
                }
            },
        }
    }
}

/// Whether `line` contains `token` as a whole word rather than inside a longer
/// identifier.
pub fn holds_token(line: &str, token: &str) -> (found: bool)
    ensures
        found == token_in(line@, token@),
{
    let l = chars_of(line);
    let t = chars_of(token);
    token_in_chars(l.as_slice(), t.as_slice())
}

// ---------------------------------------------------------------------------------------
// The unsafe boundary
// ---------------------------------------------------------------------------------------

/// The one directory where `unsafe` may appear, relative to the repository root.
pub const UNSAFE_DIRECTORY: &'static str = "crates/ccid-backend-pcsc/src";

/// The 1-based numbers of the lines whose code names `unsafe` as a word.
pub open spec fn unsafe_lines(lines: Seq<Seq<char>>) -> Seq<nat>
    decreases lines.len(),
{
    if lines.len() == 0 {
        Seq::empty()
    } else {
        let rest = unsafe_lines(lines.drop_last());
        match code_text(lines.last()) {
            Some(code) => if token_in(code, "unsafe"@) {
                rest.push(lines.len())
            } else {
                rest
            },
            None => rest,
        }
    }
}

/// The finding for a line outside the quarantine that names `unsafe`.
pub open spec fn outside_message(name: Seq<char>, at: nat) -> Seq<char> {
    name + ":"@ + decimal(at) + ": `unsafe` outside crates/ccid-backend-pcsc/src/ (docs/adr/0011)"@
}

fn line_message(name: &str, at: usize, rest: &str) -> (message: String)
    ensures
        message@ == name@ + ":"@ + decimal(at as nat) + rest@,
{
    let mut chars = chars_of(name);
    push_text(&mut chars, ":");
    push_decimal(&mut chars, at as u64);
    push_text(&mut chars, rest);
    string_from_chars(chars.as_slice())
}

/// The views of strings.
pub open spec fn string_views(strings: Seq<String>) -> Seq<Seq<char>> {
    strings.map_values(|s: String| s@)
}

/// Rule 1, for a file that may not say `unsafe` at all: one finding per line whose code
/// (comments and string literals excluded) names the token.
pub fn check_outside(name: &str, text: &str) -> (violations: Vec<String>)
    ensures
        string_views(violations@) == unsafe_lines(text_lines(text@)).map_values(
            |at: nat| outside_message(name@, at),
        ),
{
    let chars = chars_of(text);
    let lines = lines_of(chars.as_slice());
    let ghost spec_lines = text_lines(text@);
    let unsafe_token = chars_of("unsafe");
    let mut violations: Vec<String> = Vec::new();
    let mut index: usize = 0;
    assert(spec_lines.subrange(0, 0) =~= Seq::<Seq<char>>::empty());
    assert(string_views(violations@) =~= Seq::<Seq<char>>::empty());
    while index < lines.len()
        invariant
            lines@.len() == spec_lines.len(),
            forall|i: int| 0 <= i < lines@.len() ==> #[trigger] lines@[i]@ == spec_lines[i],
            index <= lines@.len(),
            unsafe_token@ == "unsafe"@,
            string_views(violations@) == unsafe_lines(spec_lines.subrange(0, index as int)).map_values(
                |at: nat| outside_message(name@, at),
            ),
        decreases lines@.len() - index,
    {
        let ghost prefix = spec_lines.subrange(0, index as int + 1);
        assert(prefix.drop_last() =~= spec_lines.subrange(0, index as int));
        assert(prefix.last() == lines@[index as int]@);
        match code_chars(lines[index].as_slice()) {
            Some(code) => {
                if token_in_chars(code.as_slice(), unsafe_token.as_slice()) {
                    let ghost before = violations@;
                    let message = line_message(
                        name,
                        index + 1,
                        ": `unsafe` outside crates/ccid-backend-pcsc/src/ (docs/adr/0011)",
                    );
                    violations.push(message);
                    assert(string_views(violations@) =~= string_views(before).push(
                        outside_message(name@, (index + 1) as nat),
                    ));
                    assert(unsafe_lines(prefix) == unsafe_lines(prefix.drop_last()).push(
                        prefix.len(),
                    ));
                    assert(unsafe_lines(prefix).map_values(|at: nat| outside_message(name@, at))
                        =~= unsafe_lines(prefix.drop_last()).map_values(
                        |at: nat| outside_message(name@, at),
                    ).push(outside_message(name@, (index + 1) as nat)));
                }
            },
            None => {},
        }
        index = index + 1;
    }
    assert(spec_lines.subrange(0, spec_lines.len() as int) =~= spec_lines);
    violations
}

/// Whether the contiguous comment block immediately above line `at` (0-based) holds a
/// `// SAFETY:` line.
pub open spec fn documented_above_text(lines: Seq<Seq<char>>, at: int) -> bool
    decreases at,
{
    if at <= 0 || at > lines.len() {
        false
    } else {
        let t = trim_start(lines[at - 1]);
        if !starts_with(t, "//"@) {
            false
        } else if starts_with(t, "// SAFETY:"@) {
            true
        } else {
            documented_above_text(lines, at - 1)
        }
    }
}

/// Whether the comment block immediately above line `at` carries a `// SAFETY:` line.
pub fn documented_above(lines: &Vec<Vec<char>>, at: usize) -> (documented: bool)
    requires
        at <= lines@.len(),
    ensures
        documented == documented_above_text(lines@.map_values(|l: Vec<char>| l@), at as int),
{
    let ghost views = lines@.map_values(|l: Vec<char>| l@);
    let slashes = chars_of("//");
    let safety = chars_of("// SAFETY:");
    let mut above = at;
    while above > 0
        invariant
            above <= at <= lines@.len(),
            views == lines@.map_values(|l: Vec<char>| l@),
            slashes@ == "//"@,
            safety@ == "// SAFETY:"@,
            documented_above_text(views, at as int) == documented_above_text(views, above as int),
        decreases above,
    {
        let index = above - 1;
        assert(views[index as int] == lines@[index as int]@);
        let trimmed = trim_start_chars(lines[index].as_slice());
        if !chars_start_with(trimmed.as_slice(), slashes.as_slice()) {
            return false;
        }
        if chars_start_with(trimmed.as_slice(), safety.as_slice()) {
            return true;
        }
        above = index;
    }
    false
}

/// The 1-based numbers of the lines whose code holds `unsafe {` without a `// SAFETY:`
/// line in the comment block above.
pub open spec fn undocumented_lines(lines: Seq<Seq<char>>, upto: int) -> Seq<nat>
    decreases upto,
{
    if upto <= 0 || upto > lines.len() {
        Seq::empty()
    } else {
        let rest = undocumented_lines(lines, upto - 1);
        match code_text(lines[upto - 1]) {
            Some(code) => if find_from(code, "unsafe {"@, 0) is Some && !documented_above_text(
                lines,
                upto - 1,
            ) {
                rest.push(upto as nat)
            } else {
                rest
            },
            None => rest,
        }
    }
}

/// The finding for an undocumented `unsafe` block.
pub open spec fn inside_message(name: Seq<char>, at: nat) -> Seq<char> {
    name + ":"@ + decimal(at)
        + ": an `unsafe {` whose comment block above it holds no `// SAFETY:` line"@
}

/// Rule 2, for the quarantine: one finding per `unsafe {` whose comment block above holds
/// no `// SAFETY:` line.
pub fn check_inside(name: &str, text: &str) -> (violations: Vec<String>)
    ensures
        string_views(violations@) == ({
            let lines = text_lines(text@);
            undocumented_lines(lines, lines.len() as int).map_values(
                |at: nat| inside_message(name@, at),
            )
        }),
{
    let chars = chars_of(text);
    let lines = lines_of(chars.as_slice());
    let ghost spec_lines = text_lines(text@);
    proof {
        assert(lines@.map_values(|l: Vec<char>| l@) =~= spec_lines);
    }
    let block = chars_of("unsafe {");
    let mut violations: Vec<String> = Vec::new();
    let mut index: usize = 0;
    assert(string_views(violations@) =~= Seq::<Seq<char>>::empty());
    while index < lines.len()
        invariant
            lines@.len() == spec_lines.len(),
            forall|i: int| 0 <= i < lines@.len() ==> #[trigger] lines@[i]@ == spec_lines[i],
            lines@.map_values(|l: Vec<char>| l@) == spec_lines,
            index <= lines@.len(),
            block@ == "unsafe {"@,
            string_views(violations@) == undocumented_lines(spec_lines, index as int).map_values(
                |at: nat| inside_message(name@, at),
            ),
        decreases lines@.len() - index,
    {
        match code_chars(lines[index].as_slice()) {
            Some(code) => {
                if find_in(code.as_slice(), block.as_slice()).is_some() && !documented_above(
                    &lines,
                    index,
                ) {
                    let ghost before = violations@;
                    let message = line_message(
                        name,
                        index + 1,
                        ": an `unsafe {` whose comment block above it holds no `// SAFETY:` line",
                    );
                    violations.push(message);
                    assert(string_views(violations@) =~= string_views(before).push(
                        inside_message(name@, (index + 1) as nat),
                    ));
                    assert(undocumented_lines(spec_lines, index as int + 1).map_values(
                        |at: nat| inside_message(name@, at),
                    ) =~= undocumented_lines(spec_lines, index as int).map_values(
                        |at: nat| inside_message(name@, at),
                    ).push(inside_message(name@, (index + 1) as nat)));
                }
            },
            None => {},
        }
        index = index + 1;
    }
    violations
}

} // verus!
