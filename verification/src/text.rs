//! Verified text helpers: hexadecimal rendering and character-sequence operations.

use vstd::prelude::*;

verus! {

/// The upper-case hexadecimal digit for a value below sixteen.
pub open spec fn hex_digit(value: int) -> char {
    if value < 10 {
        ((value + 48) as u8) as char
    } else {
        ((value + 55) as u8) as char
    }
}

/// The two upper-case hexadecimal digits of a byte.
pub open spec fn hex_byte(byte: u8) -> Seq<char> {
    seq![hex_digit((byte / 16) as int), hex_digit((byte % 16) as int)]
}

/// The upper-case hexadecimal rendering of a byte sequence, two digits per byte.
pub open spec fn hex_upper(bytes: Seq<u8>) -> Seq<char>
    decreases bytes.len(),
{
    if bytes.len() == 0 {
        Seq::empty()
    } else {
        hex_upper(bytes.drop_last()) + hex_byte(bytes.last())
    }
}

/// The one-character text of an upper-case hexadecimal digit.
pub fn hex_digit_text(value: u8) -> (text: &'static str)
    requires
        value < 16,
    ensures
        text@ == seq![hex_digit(value as int)],
{
    let text = match value {
        0 => "0",
        1 => "1",
        2 => "2",
        3 => "3",
        4 => "4",
        5 => "5",
        6 => "6",
        7 => "7",
        8 => "8",
        9 => "9",
        10 => "A",
        11 => "B",
        12 => "C",
        13 => "D",
        14 => "E",
        _ => "F",
    };
    proof {
        reveal_strlit("0");
        reveal_strlit("1");
        reveal_strlit("2");
        reveal_strlit("3");
        reveal_strlit("4");
        reveal_strlit("5");
        reveal_strlit("6");
        reveal_strlit("7");
        reveal_strlit("8");
        reveal_strlit("9");
        reveal_strlit("A");
        reveal_strlit("B");
        reveal_strlit("C");
        reveal_strlit("D");
        reveal_strlit("E");
        reveal_strlit("F");
    }
    assert(text@ =~= seq![hex_digit(value as int)]);
    text
}

/// Append the two upper-case hexadecimal digits of `byte`.
pub fn push_hex_byte(text: &mut String, byte: u8)
    ensures
        final(text)@ == old(text)@ + hex_byte(byte),
{
    text.append(hex_digit_text(byte / 16));
    text.append(hex_digit_text(byte % 16));
    assert(final(text)@ =~= old(text)@ + hex_byte(byte));
}

/// Render bytes as upper-case hexadecimal, two digits per byte, without separators.
pub fn encode_hex(bytes: &[u8]) -> (encoded: String)
    ensures
        encoded@ == hex_upper(bytes@),
{
    let mut encoded = String::new();
    let mut index: usize = 0;
    while index < bytes.len()
        invariant
            index <= bytes@.len(),
            encoded@ == hex_upper(bytes@.subrange(0, index as int)),
        decreases bytes@.len() - index,
    {
        assert(bytes@.subrange(0, index as int + 1).drop_last() =~= bytes@.subrange(
            0,
            index as int,
        ));
        push_hex_byte(&mut encoded, bytes[index]);
        index = index + 1;
    }
    assert(bytes@.subrange(0, bytes@.len() as int) =~= bytes@);
    encoded
}

} // verus!

verus! {

/// The characters of a string slice.
pub fn chars_of(text: &str) -> (chars: Vec<char>)
    ensures
        chars@ == text@,
{
    let mut chars: Vec<char> = Vec::new();
    for c in it: text.chars()
        invariant
            it.seq() == text@,
            chars@ == it.seq().take(it.index()),
    {
        chars.push(c);
    }
    chars
}

} // verus!

verus! {

/// Build a string from characters.
#[verifier::external_body]
pub fn string_from_chars(chars: &[char]) -> (text: String)
    ensures
        text@ == chars@,
{
    chars.iter().collect()
}

/// Whether `c` is Unicode white space, as `char::is_whitespace` and `str::trim` define it.
pub open spec fn is_space(c: char) -> bool {
    ||| '\u{9}' <= c <= '\u{d}'
    ||| c == ' '
    ||| c == '\u{85}'
    ||| c == '\u{a0}'
    ||| c == '\u{1680}'
    ||| '\u{2000}' <= c <= '\u{200a}'
    ||| c == '\u{2028}'
    ||| c == '\u{2029}'
    ||| c == '\u{202f}'
    ||| c == '\u{205f}'
    ||| c == '\u{3000}'
}

/// Whether `c` is Unicode white space.
pub fn is_space_char(c: char) -> (space: bool)
    ensures
        space == is_space(c),
{
    ('\u{9}' <= c && c <= '\u{d}') || c == ' ' || c == '\u{85}' || c == '\u{a0}' || c == '\u{1680}'
        || ('\u{2000}' <= c && c <= '\u{200a}') || c == '\u{2028}' || c == '\u{2029}' || c
        == '\u{202f}' || c == '\u{205f}' || c == '\u{3000}'
}

/// `s` without its leading white space.
pub open spec fn trim_start(s: Seq<char>) -> Seq<char>
    decreases s.len(),
{
    if s.len() > 0 && is_space(s[0]) {
        trim_start(s.drop_first())
    } else {
        s
    }
}

/// `s` without its trailing white space.
pub open spec fn trim_end(s: Seq<char>) -> Seq<char>
    decreases s.len(),
{
    if s.len() > 0 && is_space(s.last()) {
        trim_end(s.drop_last())
    } else {
        s
    }
}

/// `s` without leading and trailing white space.
pub open spec fn trim(s: Seq<char>) -> Seq<char> {
    trim_end(trim_start(s))
}

/// Whether every character of `s` is white space.
pub open spec fn is_blank(s: Seq<char>) -> bool {
    forall|i: int| 0 <= i < s.len() ==> is_space(#[trigger] s[i])
}

/// Copy `chars[start..end]`.
pub fn copy_chars(chars: &[char], start: usize, end: usize) -> (copy: Vec<char>)
    requires
        start <= end <= chars@.len(),
    ensures
        copy@ == chars@.subrange(start as int, end as int),
{
    let mut copy: Vec<char> = Vec::new();
    let mut index = start;
    while index < end
        invariant
            start <= index <= end <= chars@.len(),
            copy@ == chars@.subrange(start as int, index as int),
        decreases end - index,
    {
        copy.push(chars[index]);
        index = index + 1;
        assert(copy@ =~= chars@.subrange(start as int, index as int));
    }
    copy
}

proof fn lemma_trim_start_skip(s: Seq<char>, i: int)
    requires
        0 <= i <= s.len(),
        forall|j: int| 0 <= j < i ==> is_space(s[j]),
    ensures
        trim_start(s) == trim_start(s.subrange(i, s.len() as int)),
    decreases i,
{
    if i > 0 {
        assert(s.drop_first().subrange(i - 1, s.drop_first().len() as int) =~= s.subrange(
            i,
            s.len() as int,
        ));
        lemma_trim_start_skip(s.drop_first(), i - 1);
    } else {
        assert(s.subrange(0, s.len() as int) =~= s);
    }
}

proof fn lemma_trim_end_skip(s: Seq<char>, i: int)
    requires
        0 <= i <= s.len(),
        forall|j: int| i <= j < s.len() ==> is_space(s[j]),
    ensures
        trim_end(s) == trim_end(s.subrange(0, i)),
    decreases s.len() - i,
{
    if i < s.len() {
        assert(s.drop_last().subrange(0, i) =~= s.subrange(0, i));
        lemma_trim_end_skip(s.drop_last(), i);
    } else {
        assert(s.subrange(0, i) =~= s);
    }
}

/// The index where the leading white space of `chars[start..end]` ends.
fn skip_space_forward(chars: &[char], start: usize, end: usize) -> (index: usize)
    requires
        start <= end <= chars@.len(),
    ensures
        start <= index <= end,
        forall|j: int| start <= j < index ==> is_space(chars@[j]),
        index < end ==> !is_space(chars@[index as int]),
{
    let mut index = start;
    while index < end && is_space_char(chars[index])
        invariant
            start <= index <= end <= chars@.len(),
            forall|j: int| start <= j < index ==> is_space(chars@[j]),
        decreases end - index,
    {
        index = index + 1;
    }
    index
}

/// `chars` without leading white space.
pub fn trim_start_chars(chars: &[char]) -> (trimmed: Vec<char>)
    ensures
        trimmed@ == trim_start(chars@),
{
    let start = skip_space_forward(chars, 0, chars.len());
    proof {
        lemma_trim_start_skip(chars@, start as int);
        let rest = chars@.subrange(start as int, chars@.len() as int);
        if rest.len() > 0 {
            assert(rest[0] == chars@[start as int]);
        }
    }
    copy_chars(chars, start, chars.len())
}

/// `chars` without leading and trailing white space.
pub fn trim_chars(chars: &[char]) -> (trimmed: Vec<char>)
    ensures
        trimmed@ == trim(chars@),
{
    let start = skip_space_forward(chars, 0, chars.len());
    let ghost rest = chars@.subrange(start as int, chars@.len() as int);
    proof {
        lemma_trim_start_skip(chars@, start as int);
        if rest.len() > 0 {
            assert(rest[0] == chars@[start as int]);
        }
    }
    let mut end = chars.len();
    while end > start && is_space_char(chars[end - 1])
        invariant
            start <= end <= chars@.len(),
            forall|j: int| end <= j < chars@.len() ==> is_space(chars@[j]),
        decreases end,
    {
        end = end - 1;
    }
    proof {
        let k = end - start;
        assert forall|j: int| k <= j < rest.len() implies is_space(rest[j]) by {
            assert(rest[j] == chars@[start + j]);
        }
        lemma_trim_end_skip(rest, k as int);
        let kept = rest.subrange(0, k as int);
        if kept.len() > 0 {
            assert(kept.last() == chars@[end - 1]);
        }
        assert(kept =~= chars@.subrange(start as int, end as int));
    }
    copy_chars(chars, start, end)
}

/// Whether every character of a string is white space (true for the empty string).
pub fn text_is_blank(text: &str) -> (blank: bool)
    ensures
        blank == is_blank(text@),
{
    let chars = chars_of(text);
    let mut index: usize = 0;
    while index < chars.len()
        invariant
            chars@ == text@,
            index <= chars@.len(),
            forall|j: int| 0 <= j < index ==> is_space(chars@[j]),
        decreases chars@.len() - index,
    {
        if !is_space_char(chars[index]) {
            return false;
        }
        index = index + 1;
    }
    true
}

/// Whether `s` begins with `prefix`.
pub open spec fn starts_with(s: Seq<char>, prefix: Seq<char>) -> bool {
    prefix.len() <= s.len() && s.subrange(0, prefix.len() as int) == prefix
}

/// Whether `s` ends with `suffix`.
pub open spec fn ends_with(s: Seq<char>, suffix: Seq<char>) -> bool {
    suffix.len() <= s.len() && s.subrange(s.len() - suffix.len(), s.len() as int) == suffix
}

/// Whether `chars[at..]` begins with `prefix`.
pub fn has_prefix_at(chars: &[char], at: usize, prefix: &[char]) -> (found: bool)
    requires
        at <= chars@.len(),
    ensures
        found == starts_with(chars@.subrange(at as int, chars@.len() as int), prefix@),
{
    if prefix.len() > chars.len() - at {
        return false;
    }
    let n = chars.len();
    let mut index: usize = 0;
    while index < prefix.len()
        invariant
            index <= prefix@.len(),
            n == chars@.len(),
            at + prefix@.len() <= n,
            forall|j: int| 0 <= j < index ==> chars@[at + j] == prefix@[j],
        decreases prefix@.len() - index,
    {
        assert(at + index < chars@.len());
        if chars[at + index] != prefix[index] {
            assert(chars@.subrange(at as int, chars@.len() as int).subrange(0, prefix@.len() as int)[index as int] != prefix@[index as int]);
            return false;
        }
        index = index + 1;
    }
    assert(chars@.subrange(at as int, chars@.len() as int).subrange(0, prefix@.len() as int) =~= prefix@);
    true
}

/// Whether `chars` begins with `prefix`.
pub fn chars_start_with(chars: &[char], prefix: &[char]) -> (found: bool)
    ensures
        found == starts_with(chars@, prefix@),
{
    let found = has_prefix_at(chars, 0, prefix);
    assert(chars@.subrange(0, chars@.len() as int) =~= chars@);
    found
}

/// Whether `chars` ends with `suffix`.
pub fn chars_end_with(chars: &[char], suffix: &[char]) -> (found: bool)
    ensures
        found == ends_with(chars@, suffix@),
{
    if suffix.len() > chars.len() {
        return false;
    }
    let at = chars.len() - suffix.len();
    let found = has_prefix_at(chars, at, suffix);
    assert(chars@.subrange(at as int, chars@.len() as int).subrange(0, suffix@.len() as int)
        =~= chars@.subrange(at as int, chars@.len() as int));
    found
}

/// Whether two character sequences are equal.
pub fn chars_equal(left: &[char], right: &[char]) -> (equal: bool)
    ensures
        equal == (left@ == right@),
{
    if left.len() != right.len() {
        return false;
    }
    let found = chars_start_with(left, right);
    assert(left@.subrange(0, right@.len() as int) =~= left@);
    found
}

/// Whether a character sequence equals a string literal.
pub fn chars_are(chars: &[char], text: &str) -> (equal: bool)
    ensures
        equal == (chars@ == text@),
{
    let expected = chars_of(text);
    chars_equal(chars, expected.as_slice())
}

/// The index of the first occurrence of `c`, if any.
pub open spec fn find_char(s: Seq<char>, c: char) -> Option<int>
    decreases s.len(),
{
    if s.len() == 0 {
        None
    } else if s[0] == c {
        Some(0)
    } else {
        match find_char(s.drop_first(), c) {
            Some(i) => Some(i + 1),
            None => None,
        }
    }
}

/// `find_char` gives the first occurrence.
pub proof fn lemma_find_char_is(s: Seq<char>, c: char, k: int)
    requires
        0 <= k < s.len(),
        s[k] == c,
        forall|j: int| 0 <= j < k ==> s[j] != c,
    ensures
        find_char(s, c) == Some(k),
    decreases s.len(),
{
    if k > 0 {
        assert(s[0] != c);
        lemma_find_char_is(s.drop_first(), c, k - 1);
    }
}

/// `find_char` finds nothing exactly when `c` does not occur.
pub proof fn lemma_find_char_none(s: Seq<char>, c: char)
    requires
        forall|j: int| 0 <= j < s.len() ==> s[j] != c,
    ensures
        find_char(s, c) is None,
    decreases s.len(),
{
    if s.len() > 0 {
        lemma_find_char_none(s.drop_first(), c);
    }
}

/// What `find_char` returns is an occurrence.
pub proof fn lemma_find_char_bounds(s: Seq<char>, c: char)
    ensures
        find_char(s, c) matches Some(i) ==> 0 <= i < s.len() && s[i] == c && forall|j: int|
            0 <= j < i ==> s[j] != c,
        find_char(s, c) is None ==> forall|j: int| 0 <= j < s.len() ==> s[j] != c,
    decreases s.len(),
{
    if s.len() > 0 && s[0] != c {
        lemma_find_char_bounds(s.drop_first(), c);
        if find_char(s, c) is Some {
            let i = find_char(s, c)->Some_0;
            assert(s[i] == s.drop_first()[i - 1]);
            assert forall|j: int| 0 <= j < i implies s[j] != c by {
                if j > 0 {
                    assert(s[j] == s.drop_first()[j - 1]);
                }
            }
        }
        if find_char(s, c) is None {
            assert forall|j: int| 0 <= j < s.len() implies s[j] != c by {
                if j > 0 {
                    assert(s[j] == s.drop_first()[j - 1]);
                }
            }
        }
    }
}

/// The first index of `c` in `chars`, if any.
pub fn find_char_in(chars: &[char], c: char) -> (found: Option<usize>)
    ensures
        match found {
            Some(i) => find_char(chars@, c) == Some(i as int) && i < chars@.len() && chars@[i as int]
                == c && forall|j: int| 0 <= j < i ==> chars@[j] != c,
            None => find_char(chars@, c) is None && !chars@.contains(c),
        },
{
    let mut index: usize = 0;
    while index < chars.len()
        invariant
            index <= chars@.len(),
            forall|j: int| 0 <= j < index ==> chars@[j] != c,
        decreases chars@.len() - index,
    {
        if chars[index] == c {
            proof {
                lemma_find_char_is(chars@, c, index as int);
            }
            return Some(index);
        }
        index = index + 1;
    }
    proof {
        lemma_find_char_none(chars@, c);
    }
    None
}

/// Split at the first `c`: the text before it and the text after it.
pub open spec fn split_once(s: Seq<char>, c: char) -> Option<(Seq<char>, Seq<char>)> {
    match find_char(s, c) {
        Some(i) => Some((s.subrange(0, i), s.subrange(i + 1, s.len() as int))),
        None => None,
    }
}

/// Split at the first `c`.
pub fn split_once_chars(chars: &[char], c: char) -> (parts: Option<(Vec<char>, Vec<char>)>)
    ensures
        match parts {
            Some((before, after)) => split_once(chars@, c) == Some((before@, after@)),
            None => split_once(chars@, c) is None,
        },
{
    match find_char_in(chars, c) {
        Some(i) => {
            let n = chars.len();
            assert(i < n);
            Some((copy_chars(chars, 0, i), copy_chars(chars, i + 1, n)))
        },
        None => None,
    }
}

/// The index of the last occurrence of `c`, if any.
pub open spec fn rfind_char(s: Seq<char>, c: char) -> Option<int>
    decreases s.len(),
{
    if s.len() == 0 {
        None
    } else if s.last() == c {
        Some(s.len() - 1)
    } else {
        rfind_char(s.drop_last(), c)
    }
}

proof fn lemma_rfind_char_is(s: Seq<char>, c: char, k: int)
    requires
        0 <= k < s.len(),
        s[k] == c,
        forall|j: int| k < j < s.len() ==> s[j] != c,
    ensures
        rfind_char(s, c) == Some(k),
    decreases s.len(),
{
    if k < s.len() - 1 {
        assert(s.last() != c);
        lemma_rfind_char_is(s.drop_last(), c, k);
    }
}

proof fn lemma_rfind_char_none(s: Seq<char>, c: char)
    requires
        forall|j: int| 0 <= j < s.len() ==> s[j] != c,
    ensures
        rfind_char(s, c) is None,
    decreases s.len(),
{
    if s.len() > 0 {
        lemma_rfind_char_none(s.drop_last(), c);
    }
}

/// Split at the last `c`.
pub open spec fn rsplit_once(s: Seq<char>, c: char) -> Option<(Seq<char>, Seq<char>)> {
    match rfind_char(s, c) {
        Some(i) => Some((s.subrange(0, i), s.subrange(i + 1, s.len() as int))),
        None => None,
    }
}

/// Split at the last `c`.
pub fn rsplit_once_chars(chars: &[char], c: char) -> (parts: Option<(Vec<char>, Vec<char>)>)
    ensures
        match parts {
            Some((before, after)) => rsplit_once(chars@, c) == Some((before@, after@)),
            None => rsplit_once(chars@, c) is None,
        },
{
    let mut index = chars.len();
    while index > 0
        invariant
            index <= chars@.len(),
            forall|j: int| index <= j < chars@.len() ==> chars@[j] != c,
        decreases index,
    {
        if chars[index - 1] == c {
            proof {
                lemma_rfind_char_is(chars@, c, index - 1);
            }
            return Some((copy_chars(chars, 0, index - 1), copy_chars(chars, index, chars.len())));
        }
        index = index - 1;
    }
    proof {
        lemma_rfind_char_none(chars@, c);
    }
    None
}

/// Whether `c` occurs in `chars`.
pub fn contains_char(chars: &[char], c: char) -> (found: bool)
    ensures
        found == chars@.contains(c),
{
    let found = find_char_in(chars, c);
    proof {
        if found is Some {
            let i = found->Some_0 as int;
            assert(chars@[i] == c);
        }
    }
    found.is_some()
}

} // verus!

verus! {

/// Bytes rendered as a bracketed, comma-separated list of two-digit upper-case hex values,
/// the way `{:02X?}` renders a byte vector.
pub open spec fn hex_list_items(bytes: Seq<u8>) -> Seq<char>
    decreases bytes.len(),
{
    if bytes.len() == 0 {
        Seq::empty()
    } else if bytes.len() == 1 {
        hex_byte(bytes[0])
    } else {
        hex_list_items(bytes.drop_last()) + ", "@ + hex_byte(bytes.last())
    }
}

/// The bracketed hex list of a byte sequence.
pub open spec fn hex_list(bytes: Seq<u8>) -> Seq<char> {
    "["@ + hex_list_items(bytes) + "]"@
}

/// Append the bracketed hex list of `bytes`.
pub fn push_hex_list(text: &mut String, bytes: &[u8])
    ensures
        final(text)@ == old(text)@ + hex_list(bytes@),
{
    text.append("[");
    let ghost start = text@;
    let mut index: usize = 0;
    while index < bytes.len()
        invariant
            index <= bytes@.len(),
            text@ == start + hex_list_items(bytes@.subrange(0, index as int)),
        decreases bytes@.len() - index,
    {
        assert(bytes@.subrange(0, index as int + 1).drop_last() =~= bytes@.subrange(
            0,
            index as int,
        ));
        if index > 0 {
            text.append(", ");
        }
        push_hex_byte(text, bytes[index]);
        proof {
            let taken = bytes@.subrange(0, index as int + 1);
            if index == 0 {
                assert(taken[0] == bytes@[0]);
                assert(hex_list_items(bytes@.subrange(0, 0)) =~= Seq::<char>::empty());
            } else {
                assert(taken.last() == bytes@[index as int]);
            }
        }
        index = index + 1;
        assert(text@ =~= start + hex_list_items(bytes@.subrange(0, index as int)));
    }
    text.append("]");
    assert(bytes@.subrange(0, bytes@.len() as int) =~= bytes@);
    assert(final(text)@ =~= old(text)@ + hex_list(bytes@));
}

} // verus!

verus! {

/// The decimal digit character for a value below ten.
pub open spec fn decimal_digit(value: nat) -> char {
    ((value + 48) as u8) as char
}

/// The decimal rendering of a natural number, without leading zeros.
pub open spec fn decimal(value: nat) -> Seq<char>
    decreases value,
{
    if value < 10 {
        seq![decimal_digit(value)]
    } else {
        decimal(value / 10) + seq![decimal_digit(value % 10)]
    }
}

/// The value of a digit character in `radix` (10 or 16), if it is one.
pub open spec fn digit_value(c: char, radix: nat) -> Option<nat> {
    if '0' <= c <= '9' {
        if (c as nat) - 48 < radix {
            Some((c as nat - 48) as nat)
        } else {
            None
        }
    } else if radix == 16 && 'a' <= c <= 'f' {
        Some((c as nat - 87) as nat)
    } else if radix == 16 && 'A' <= c <= 'F' {
        Some((c as nat - 55) as nat)
    } else {
        None
    }
}

/// The value of a sequence of digits in `radix`, if every character is a digit.
pub open spec fn digits_value(s: Seq<char>, radix: nat) -> Option<nat>
    decreases s.len(),
{
    if s.len() == 0 {
        Some(0)
    } else {
        match (digits_value(s.drop_last(), radix), digit_value(s.last(), radix)) {
            (Some(high), Some(low)) => Some(high * radix + low),
            _ => None,
        }
    }
}

/// An unsigned integer as `from_str_radix` reads it: an optional `+`, then at least one
/// digit.
pub open spec fn parse_unsigned(s: Seq<char>, radix: nat) -> Option<nat> {
    let body = if s.len() > 0 && s[0] == '+' {
        s.drop_first()
    } else {
        s
    };
    if body.len() == 0 {
        None
    } else {
        digits_value(body, radix)
    }
}

/// An unsigned integer no larger than `max`, as `str::parse` or `from_str_radix` reads it.
pub open spec fn parse_bounded(s: Seq<char>, radix: nat, max: nat) -> Option<nat> {
    match parse_unsigned(s, radix) {
        Some(value) => if value <= max {
            Some(value)
        } else {
            None
        },
        None => None,
    }
}

fn digit_of(c: char, radix: u32) -> (value: Option<u32>)
    requires
        radix == 10 || radix == 16,
    ensures
        match value {
            Some(v) => digit_value(c, radix as nat) == Some(v as nat) && v < radix,
            None => digit_value(c, radix as nat) is None,
        },
{
    let code = c as u32;
    if '0' <= c && c <= '9' {
        if code - 48 < radix {
            Some(code - 48)
        } else {
            None
        }
    } else if radix == 16 && 'a' <= c && c <= 'f' {
        Some(code - 87)
    } else if radix == 16 && 'A' <= c && c <= 'F' {
        Some(code - 55)
    } else {
        None
    }
}

/// Parse an unsigned integer no larger than `max`, as `str::parse` (radix 10) or
/// `from_str_radix` (radix 16) do.
pub fn parse_bounded_chars(chars: &[char], radix: u32, max: u32) -> (value: Option<u32>)
    requires
        radix == 10 || radix == 16,
    ensures
        match value {
            Some(v) => parse_bounded(chars@, radix as nat, max as nat) == Some(v as nat),
            None => parse_bounded(chars@, radix as nat, max as nat) is None,
        },
{
    let start: usize = if chars.len() > 0 && chars[0] == '+' {
        1
    } else {
        0
    };
    let ghost body = if chars@.len() > 0 && chars@[0] == '+' {
        chars@.drop_first()
    } else {
        chars@
    };
    assert(body =~= chars@.subrange(start as int, chars@.len() as int));
    if start == chars.len() {
        return None;
    }
    let mut value: u64 = 0;
    let mut capped = false;
    let mut index = start;
    while index < chars.len()
        invariant
            start <= index <= chars@.len(),
            body == chars@.subrange(start as int, chars@.len() as int),
            body == if chars@.len() > 0 && chars@[0] == '+' {
                chars@.drop_first()
            } else {
                chars@
            },
            body.len() > 0,
            radix == 10 || radix == 16,
            value <= max as u64,
            digits_value(chars@.subrange(start as int, index as int), radix as nat) is Some,
            capped ==> digits_value(chars@.subrange(start as int, index as int), radix as nat)->Some_0 > max,
            !capped ==> digits_value(chars@.subrange(start as int, index as int), radix as nat)
                == Some(value as nat),
        decreases chars@.len() - index,
    {
        let ghost before = chars@.subrange(start as int, index as int);
        let ghost after = chars@.subrange(start as int, index as int + 1);
        assert(after.drop_last() =~= before);
        assert(after.last() == chars@[index as int]);
        match digit_of(chars[index], radix) {
            None => {
                proof {
                    assert(body[(index - start) as int] == chars@[index as int]);
                    lemma_digits_prefix_none(body, radix as nat, (index - start) as int);
                }
                return None;
            },
            Some(digit) => {
                proof {
                    let high = digits_value(before, radix as nat)->Some_0;
                    if capped {
                        assert(high * radix + digit > max) by (nonlinear_arith)
                            requires
                                high > max,
                                radix >= 10,
                        ;
                    }
                }
                if !capped {
                    let next: u64 = value * radix as u64 + digit as u64;
                    if next > max as u64 {
                        capped = true;
                    } else {
                        value = next;
                    }
                }
            },
        }
        index = index + 1;
    }
    assert(chars@.subrange(start as int, chars@.len() as int) =~= body);
    if capped {
        None
    } else {
        Some(value as u32)
    }
}

proof fn lemma_digits_prefix_none(s: Seq<char>, radix: nat, k: int)
    requires
        0 <= k < s.len(),
        digit_value(s[k], radix) is None,
    ensures
        digits_value(s, radix) is None,
        digits_value(s.subrange(0, k + 1), radix) is None,
    decreases s.len(),
{
    let t = s.subrange(0, k + 1);
    assert(t.last() == s[k]);
    if k + 1 < s.len() {
        assert(s.drop_last().subrange(0, k + 1) =~= t);
        lemma_digits_prefix_none(s.drop_last(), radix, k);
    } else {
        assert(t =~= s);
    }
}

/// Every digit of a decimal rendering is an ASCII digit, and reading it back gives the
/// number.
pub proof fn lemma_decimal_round_trip(value: nat)
    ensures
        digits_value(decimal(value), 10) == Some(value),
        decimal(value).len() >= 1,
        forall|i: int| 0 <= i < decimal(value).len() ==> '0' <= #[trigger] decimal(value)[i] <= '9',
    decreases value,
{
    let d = value % 10;
    let ch = decimal_digit(d);
    assert(ch as nat == d + 48);
    assert('0' <= ch <= '9');
    assert(digit_value(ch, 10) == Some(d));
    let s = decimal(value);
    if value >= 10 {
        let high = (value / 10) as nat;
        lemma_decimal_round_trip(high);
        assert(s == decimal(high) + seq![ch]);
        assert(s.drop_last() =~= decimal(high));
        assert(s.last() == ch);
        assert(digits_value(s.drop_last(), 10) == Some(high));
        assert(digits_value(s, 10) == Some(high * 10 + d));
        assert(value == high * 10 + d);
        assert forall|i: int| 0 <= i < s.len() implies '0' <= #[trigger] s[i] <= '9' by {
            if i < s.len() - 1 {
                assert(s[i] == decimal(high)[i]);
            }
        }
    } else {
        assert(s == seq![ch]);
        assert(s.drop_last() =~= Seq::<char>::empty());
        assert(digits_value(s.drop_last(), 10) == Some(0nat));
        assert(s.last() == ch);
        assert(digits_value(s, 10) == Some(0nat * 10 + d));
    }
}

/// Append the decimal rendering of `value`.
pub fn push_decimal(text: &mut Vec<char>, value: u64)
    ensures
        final(text)@ == old(text)@ + decimal(value as nat),
    decreases value,
{
    if value >= 10 {
        push_decimal(text, value / 10);
    }
    let digit = ((value % 10) as u8 + 48) as char;
    text.push(digit);
    assert(final(text)@ =~= old(text)@ + decimal(value as nat));
}

/// The decimal rendering of a number as a string.
pub fn decimal_string(value: u64) -> (text: String)
    ensures
        text@ == decimal(value as nat),
{
    let mut chars: Vec<char> = Vec::new();
    push_decimal(&mut chars, value);
    assert(chars@ =~= decimal(value as nat));
    string_from_chars(chars.as_slice())
}

/// The fields of `s` between occurrences of `c`; always at least one.
pub open spec fn split_all(s: Seq<char>, c: char) -> Seq<Seq<char>>
    decreases s.len(),
{
    match find_char(s, c) {
        None => seq![s],
        Some(i) => {
            proof {
                lemma_find_char_bounds(s, c);
            }
            seq![s.subrange(0, i)] + split_all(s.subrange(i + 1, s.len() as int), c)
        },
    }
}

proof fn lemma_split_step(s: Seq<char>, c: char, k: int)
    requires
        0 <= k < s.len(),
        s[k] == c,
        forall|j: int| 0 <= j < k ==> s[j] != c,
    ensures
        split_all(s, c) == seq![s.subrange(0, k)] + split_all(s.subrange(k + 1, s.len() as int), c),
{
    lemma_find_char_is(s, c, k);
}

proof fn lemma_split_none(s: Seq<char>, c: char)
    requires
        forall|j: int| 0 <= j < s.len() ==> s[j] != c,
    ensures
        split_all(s, c) == seq![s],
{
    lemma_find_char_none(s, c);
}

/// Split `chars` at every `c`.
#[verifier::rlimit(30)]
pub fn split_all_chars(chars: &[char], c: char) -> (fields: Vec<Vec<char>>)
    ensures
        fields@.len() == split_all(chars@, c).len(),
        forall|i: int| 0 <= i < fields@.len() ==> #[trigger] fields@[i]@ == split_all(chars@, c)[i],
{
    let mut fields: Vec<Vec<char>> = Vec::new();
    let mut start: usize = 0;
    let mut index: usize = 0;
    let ghost mut done: Seq<Seq<char>> = Seq::empty();
    assert(chars@.subrange(0, chars@.len() as int) =~= chars@);
    assert(done + split_all(chars@, c) =~= split_all(chars@, c));
    while index < chars.len()
        invariant
            start <= index <= chars@.len(),
            forall|j: int| start <= j < index ==> chars@[j] != c,
            fields@.len() == done.len(),
            forall|i: int| 0 <= i < fields@.len() ==> #[trigger] fields@[i]@ == done[i],
            split_all(chars@, c) == done + split_all(chars@.subrange(start as int, chars@.len() as int), c),
        decreases chars@.len() - index,
    {
        if chars[index] == c {
            let field = copy_chars(chars, start, index);
            proof {
                let rest = chars@.subrange(start as int, chars@.len() as int);
                let k = index - start;
                assert forall|j: int| 0 <= j < k implies rest[j] != c by {
                    assert(rest[j] == chars@[start + j]);
                }
                lemma_split_step(rest, c, k);
                assert(rest.subrange(0, k) =~= field@);
                assert(rest.subrange(k + 1, rest.len() as int) =~= chars@.subrange(index + 1, chars@.len() as int));
                assert(split_all(chars@, c) =~= done.push(field@) + split_all(chars@.subrange(index + 1, chars@.len() as int), c));
                done = done.push(field@);
            }
            fields.push(field);
            start = index + 1;
        }
        index = index + 1;
    }
    let last = copy_chars(chars, start, chars.len());
    proof {
        let rest = chars@.subrange(start as int, chars@.len() as int);
        assert forall|j: int| 0 <= j < rest.len() implies rest[j] != c by {
            assert(rest[j] == chars@[start + j]);
        }
        lemma_split_none(rest, c);
        assert(split_all(chars@, c) =~= done.push(last@));
        done = done.push(last@);
    }
    fields.push(last);
    fields
}

// ---------------------------------------------------------------------------------------
// Lines
// ---------------------------------------------------------------------------------------

/// A line without the carriage return of a `\r\n` ending.
pub open spec fn strip_cr(line: Seq<char>) -> Seq<char> {
    if line.len() > 0 && line.last() == '\r' {
        line.drop_last()
    } else {
        line
    }
}

/// The lines of a text as `str::lines` yields them: split at `\n`, each `\r\n` ending
/// removed whole, and no empty line after a final line ending.
pub open spec fn text_lines(s: Seq<char>) -> Seq<Seq<char>> {
    let fields = split_all(s, '\n');
    let ended = fields.drop_last().map_values(|field: Seq<char>| strip_cr(field));
    if fields.last().len() == 0 {
        ended
    } else {
        ended.push(fields.last())
    }
}

/// The lines of a text.
pub fn lines_of(chars: &[char]) -> (lines: Vec<Vec<char>>)
    ensures
        lines@.len() == text_lines(chars@).len(),
        forall|i: int| 0 <= i < lines@.len() ==> #[trigger] lines@[i]@ == text_lines(chars@)[i],
{
    let fields = split_all_chars(chars, '\n');
    let ghost spec_fields = split_all(chars@, '\n');
    proof {
        lemma_split_all_nonempty(chars@, '\n');
    }
    let count = fields.len() - 1;
    let mut lines: Vec<Vec<char>> = Vec::new();
    let mut index: usize = 0;
    while index < count
        invariant
            count == fields@.len() - 1,
            fields@.len() == spec_fields.len(),
            forall|i: int| 0 <= i < fields@.len() ==> #[trigger] fields@[i]@ == spec_fields[i],
            spec_fields == split_all(chars@, '\n'),
            index <= count,
            lines@.len() == index,
            forall|i: int| 0 <= i < index ==> #[trigger] lines@[i]@ == strip_cr(spec_fields[i]),
        decreases count - index,
    {
        let field = &fields[index];
        let line = if field.len() > 0 && field[field.len() - 1] == '\r' {
            copy_chars(field.as_slice(), 0, field.len() - 1)
        } else {
            copy_chars(field.as_slice(), 0, field.len())
        };
        proof {
            assert(field@ == spec_fields[index as int]);
            assert(field@.drop_last() =~= field@.subrange(0, field@.len() - 1));
            assert(field@ =~= field@.subrange(0, field@.len() as int));
        }
        lines.push(line);
        index = index + 1;
    }
    let last = &fields[count];
    if last.len() > 0 {
        lines.push(copy_chars(last.as_slice(), 0, last.len()));
        assert(last@ =~= last@.subrange(0, last@.len() as int));
    }
    proof {
        assert(fields@[count as int]@ == spec_fields.last());
    }
    lines
}

proof fn lemma_split_all_nonempty(s: Seq<char>, c: char)
    ensures
        split_all(s, c).len() >= 1,
    decreases s.len(),
{
    match find_char(s, c) {
        None => {},
        Some(i) => {
            lemma_find_char_bounds(s, c);
            lemma_split_all_nonempty(s.subrange(i + 1, s.len() as int), c);
        },
    }
}

/// The part of `s` before the first `c`, or all of `s`.
pub open spec fn before_char(s: Seq<char>, c: char) -> Seq<char> {
    match find_char(s, c) {
        Some(i) => s.subrange(0, i),
        None => s,
    }
}

/// The characters before the first `c`, or all of them.
pub fn chars_before(chars: &[char], c: char) -> (prefix: Vec<char>)
    ensures
        prefix@ == before_char(chars@, c),
{
    proof {
        lemma_find_char_bounds(chars@, c);
    }
    match find_char_in(chars, c) {
        Some(i) => copy_chars(chars, 0, i),
        None => copy_chars(chars, 0, chars.len()),
    }
}

/// Append the characters of a string.
pub fn push_text(chars: &mut Vec<char>, text: &str)
    ensures
        final(chars)@ == old(chars)@ + text@,
{
    let ghost start = chars@;
    let added = chars_of(text);
    let mut index: usize = 0;
    while index < added.len()
        invariant
            index <= added@.len(),
            added@ == text@,
            chars@ == start + added@.subrange(0, index as int),
        decreases added@.len() - index,
    {
        chars.push(added[index]);
        index = index + 1;
        assert(chars@ =~= start + added@.subrange(0, index as int));
    }
    assert(added@.subrange(0, added@.len() as int) =~= added@);
}

/// Append characters.
pub fn push_chars(chars: &mut Vec<char>, more: &[char])
    ensures
        final(chars)@ == old(chars)@ + more@,
{
    let ghost start = chars@;
    let mut index: usize = 0;
    while index < more.len()
        invariant
            index <= more@.len(),
            chars@ == start + more@.subrange(0, index as int),
        decreases more@.len() - index,
    {
        chars.push(more[index]);
        index = index + 1;
        assert(chars@ =~= start + more@.subrange(0, index as int));
    }
    assert(more@.subrange(0, more@.len() as int) =~= more@);
}

/// Four upper-case hexadecimal digits of a 16-bit value.
pub open spec fn hex4(value: u16) -> Seq<char> {
    hex_byte((value / 256) as u8) + hex_byte((value % 256) as u8)
}

/// Append four upper-case hexadecimal digits.
pub fn push_hex4(text: &mut String, value: u16)
    ensures
        final(text)@ == old(text)@ + hex4(value),
{
    push_hex_byte(text, (value / 256) as u8);
    push_hex_byte(text, (value % 256) as u8);
    assert(final(text)@ =~= old(text)@ + hex4(value));
}

/// The lower-case hexadecimal digit for a value below sixteen.
pub open spec fn lower_digit(value: int) -> char {
    if value < 10 {
        ((value + 48) as u8) as char
    } else {
        ((value + 87) as u8) as char
    }
}

/// The last `digits` lower-case hexadecimal digits of `value`, zero-padded.
pub open spec fn lower_hex(value: nat, digits: nat) -> Seq<char>
    decreases digits,
{
    if digits == 0 {
        Seq::empty()
    } else {
        lower_hex(value / 16, (digits - 1) as nat) + seq![lower_digit((value % 16) as int)]
    }
}

/// Append the last `digits` lower-case hexadecimal digits of `value`.
pub fn push_lower_hex(chars: &mut Vec<char>, value: u64, digits: u32)
    ensures
        final(chars)@ == old(chars)@ + lower_hex(value as nat, digits as nat),
    decreases digits,
{
    if digits == 0 {
        assert(final(chars)@ =~= old(chars)@ + lower_hex(value as nat, digits as nat));
        return ;
    }
    push_lower_hex(chars, value / 16, digits - 1);
    let d = (value % 16) as u8;
    let c = if d < 10 {
        (d + 48) as char
    } else {
        (d + 87) as char
    };
    chars.push(c);
    assert(final(chars)@ =~= old(chars)@ + lower_hex(value as nat, digits as nat));
}

} // verus!
