//! The command line's own logic: reading hexadecimal arguments and deciding what a command
//! line asks for. Performing the request is left to the program.

use vstd::prelude::*;

use crate::error::{Error, ErrorKind, Result};
use crate::model::{command_error_text, parse_command, Command, CommandView};
use crate::text::{chars_are, chars_of, hex_byte, hex_digit, hex_upper, string_from_chars};
use vstd::string::StringExecFns;
use vstd::utf8::{encode_utf8, is_ascii_chars, is_ascii_chars_encode_utf8};

verus! {

/// Bytes a hexadecimal argument may hold between digits: ASCII whitespace, `:` and `_`.
pub open spec fn is_hex_separator(b: u8) -> bool {
    b == 0x20 || b == 0x09 || b == 0x0A || b == 0x0C || b == 0x0D || b == 0x3A || b == 0x5F
}

/// The bytes of a hexadecimal argument without separators.
pub open spec fn compact_hex(bytes: Seq<u8>) -> Seq<u8>
    decreases bytes.len(),
{
    if bytes.len() == 0 {
        Seq::empty()
    } else {
        let rest = compact_hex(bytes.drop_last());
        if is_hex_separator(bytes.last()) {
            rest
        } else {
            rest.push(bytes.last())
        }
    }
}

/// The value of an ASCII hexadecimal digit.
pub open spec fn hex_digit_value(b: u8) -> Option<u8> {
    if 0x30 <= b <= 0x39 {
        Some((b - 0x30) as u8)
    } else if 0x41 <= b <= 0x46 {
        Some((b - 0x37) as u8)
    } else if 0x61 <= b <= 0x66 {
        Some((b - 0x57) as u8)
    } else {
        None
    }
}

/// The byte two characters spell, read as an unsigned hexadecimal number: two digits, or a
/// `+` sign and one digit.
pub open spec fn hex_pair(high: u8, low: u8) -> Option<u8> {
    if high == 0x2B {
        hex_digit_value(low)
    } else {
        match (hex_digit_value(high), hex_digit_value(low)) {
            (Some(h), Some(l)) => Some((h * 16 + l) as u8),
            _ => None,
        }
    }
}

/// Whether every byte pair of a compact argument spells a byte.
pub open spec fn hex_pairs_valid(c: Seq<u8>) -> bool {
    forall|i: int| 0 <= i < c.len() / 2 ==> #[trigger] hex_pair(c[2 * i], c[2 * i + 1]) is Some
}

/// The bytes the pairs of a compact argument spell.
pub open spec fn hex_pairs(c: Seq<u8>) -> Seq<u8> {
    Seq::new(c.len() / 2, |i: int| hex_pair(c[2 * i], c[2 * i + 1])->Some_0)
}

/// The bytes a hexadecimal argument spells, if it spells whole bytes.
pub open spec fn decoded_hex(bytes: Seq<u8>) -> Option<Seq<u8>> {
    let c = compact_hex(bytes);
    if c.len() % 2 != 0 || !hex_pairs_valid(c) {
        None
    } else {
        Some(hex_pairs(c))
    }
}

/// Whether a byte pair is a two-byte UTF-8 sequence.
pub open spec fn is_two_byte_sequence(high: u8, low: u8) -> bool {
    0xC2 <= high <= 0xDF && 0x80 <= low <= 0xBF
}

/// The code point of a character.
pub open spec fn code_point(c: char) -> int {
    c as int
}

/// The character with this code point.
pub open spec fn code_char(code: int) -> char {
    choose|c: char| #[trigger] code_point(c) == code
}

/// What the error for a pair that spells no byte says: the pair's text when the pair is
/// text, else that the input is not ASCII.
pub open spec fn pair_message(high: u8, low: u8) -> Seq<char> {
    if high < 0x80 && low < 0x80 {
        "`"@ + seq![high as char, low as char] + "` is not a hexadecimal byte"@
    } else if is_two_byte_sequence(high, low) {
        "`"@ + seq![code_char(((high - 0xC0) * 64) + (low - 0x80))]
            + "` is not a hexadecimal byte"@
    } else {
        "hex input is not ASCII"@
    }
}

/// The pair at `k` is the first that spells no byte.
pub open spec fn first_bad_pair(c: Seq<u8>, k: int) -> bool {
    &&& 0 <= k < c.len() / 2
    &&& hex_pair(c[2 * k], c[2 * k + 1]) is None
    &&& forall|i: int| 0 <= i < k ==> #[trigger] hex_pair(c[2 * i], c[2 * i + 1]) is Some
}

/// What the refusal of a hexadecimal argument says: that its digits do not pair up, or what
/// is wrong with its first pair that spells no byte.
pub open spec fn hex_error(bytes: Seq<u8>) -> Seq<char> {
    let c = compact_hex(bytes);
    if c.len() % 2 != 0 {
        "hex input must contain complete byte pairs"@
    } else {
        let k = choose|k: int| first_bad_pair(c, k);
        pair_message(c[2 * k], c[2 * k + 1])
    }
}

proof fn lemma_first_bad_pair_unique(c: Seq<u8>, k: int, j: int)
    requires
        first_bad_pair(c, k),
        first_bad_pair(c, j),
    ensures
        k == j,
{
    if k < j {
        assert(hex_pair(c[2 * k], c[2 * k + 1]) is Some);
    } else if j < k {
        assert(hex_pair(c[2 * j], c[2 * j + 1]) is Some);
    }
}

fn hex_value(b: u8) -> (value: Option<u8>)
    ensures
        value == hex_digit_value(b),
{
    if 0x30 <= b && b <= 0x39 {
        Some(b - 0x30)
    } else if 0x41 <= b && b <= 0x46 {
        Some(b - 0x37)
    } else if 0x61 <= b && b <= 0x66 {
        Some(b - 0x57)
    } else {
        None
    }
}

fn pair_value(high: u8, low: u8) -> (value: Option<u8>)
    ensures
        value == hex_pair(high, low),
{
    if high == 0x2B {
        return hex_value(low);
    }
    match (hex_value(high), hex_value(low)) {
        (Some(h), Some(l)) => Some(h * 16 + l),
        _ => None,
    }
}

/// `char::from_u32`: the character a code point names, which exists exactly when the code
/// point is a Unicode scalar value (not a surrogate, at most U+10FFFF).
#[verifier::external_body]
fn char_from_code(code: u32) -> (c: Option<char>)
    ensures
        c is Some <==> (code <= 0xD7FF || (0xE000 <= code && code <= 0x10FFFF)),
        c matches Some(ch) ==> ch as int == code as int,
{
    char::from_u32(code)
}

/// The error for a pair that does not spell a byte: the pair's text when it is text, else a
/// note that the input is not ASCII.
fn pair_error(high: u8, low: u8) -> (error: Error)
    ensures
        error.category() == ErrorKind::InvalidInput,
        error.text() == pair_message(high, low),
{
    let mut text: Vec<char> = Vec::new();
    if high < 0x80 && low < 0x80 {
        text.push(high as char);
        text.push(low as char);
    } else if 0xC2 <= high && high <= 0xDF && 0x80 <= low && low <= 0xBF {
        let code: u32 = ((high as u32 - 0xC0) * 64) + (low as u32 - 0x80);
        match char_from_code(code) {
            Some(c) => {
                let ghost d = code_char(code as int);
                assert(code_point(c) == code as int);
                assert(code_point(d) == code as int);
                assert(c == d);
                text.push(c);
            },
            None => {
                return Error::new(ErrorKind::InvalidInput, "hex input is not ASCII");
            },
        }
    } else {
        return Error::new(ErrorKind::InvalidInput, "hex input is not ASCII");
    }
    let mut message = "`".to_owned();
    message.append(string_from_chars(text.as_slice()).as_str());
    message.append("` is not a hexadecimal byte");
    assert(message@ == pair_message(high, low));
    Error::with_message(ErrorKind::InvalidInput, message)
}

/// Decode a hexadecimal argument. Whitespace, `:` and `_` may separate digits; what remains
/// must be whole byte pairs.
pub fn decode_hex(input: &str) -> (result: Result<Vec<u8>>)
    ensures
        match decoded_hex(encode_utf8(input@)) {
            Some(bytes) => result matches Ok(v) && v@ == bytes,
            None => result matches Err(error) && error.category() == ErrorKind::InvalidInput
                && error.text() == hex_error(encode_utf8(input@)),
        },
{
    let bytes = input.as_bytes();
    let ghost b = bytes@;
    assert(b == encode_utf8(input@));
    let mut compact: Vec<u8> = Vec::new();
    let mut index: usize = 0;
    while index < bytes.len()
        invariant
            bytes@ == b,
            index <= b.len(),
            compact@ == compact_hex(b.subrange(0, index as int)),
        decreases b.len() - index,
    {
        assert(b.subrange(0, index as int + 1).drop_last() =~= b.subrange(0, index as int));
        let byte = bytes[index];
        if !(byte == 0x20 || byte == 0x09 || byte == 0x0A || byte == 0x0C || byte == 0x0D || byte
            == 0x3A || byte == 0x5F) {
            compact.push(byte);
        }
        index = index + 1;
    }
    assert(b.subrange(0, b.len() as int) =~= b);
    if compact.len() % 2 != 0 {
        return Err(Error::new(ErrorKind::InvalidInput, "hex input must contain complete byte pairs"));
    }
    let ghost c = compact@;
    let mut decoded: Vec<u8> = Vec::new();
    let mut pair: usize = 0;
    while pair < compact.len() / 2
        invariant
            compact@ == c,
            c == compact_hex(b),
            b == encode_utf8(input@),
            c.len() % 2 == 0,
            pair <= c.len() / 2,
            decoded@.len() == pair,
            forall|i: int| 0 <= i < pair ==> #[trigger] hex_pair(c[2 * i], c[2 * i + 1]) is Some,
            forall|i: int|
                0 <= i < pair ==> #[trigger] decoded@[i] == hex_pair(c[2 * i], c[2 * i + 1])->Some_0,
        decreases c.len() / 2 - pair,
    {
        let high = compact[2 * pair];
        let low = compact[2 * pair + 1];
        match pair_value(high, low) {
            Some(value) => decoded.push(value),
            None => {
                proof {
                    let k = pair as int;
                    assert(hex_pair(c[2 * k], c[2 * k + 1]) is None);
                    assert(!hex_pairs_valid(c));
                    assert(b == encode_utf8(input@));
                    assert(decoded_hex(b) is None);
                    assert(first_bad_pair(c, k));
                    let j = choose|j: int| first_bad_pair(c, j);
                    lemma_first_bad_pair_unique(c, k, j);
                }
                return Err(pair_error(high, low));
            },
        }
        pair = pair + 1;
    }
    assert(decoded@ =~= hex_pairs(c));
    Ok(decoded)
}

proof fn lemma_hex_upper_shape(bytes: Seq<u8>)
    ensures
        hex_upper(bytes).len() == 2 * bytes.len(),
        forall|i: int|
            0 <= i < bytes.len() ==> #[trigger] hex_upper(bytes)[2 * i] == hex_digit(
                (bytes[i] / 16) as int,
            ) && hex_upper(bytes)[2 * i + 1] == hex_digit((bytes[i] % 16) as int),
    decreases bytes.len(),
{
    if bytes.len() > 0 {
        let rest = bytes.drop_last();
        lemma_hex_upper_shape(rest);
        let s = hex_upper(bytes);
        assert(s == hex_upper(rest) + hex_byte(bytes.last()));
        assert forall|i: int| 0 <= i < bytes.len() implies #[trigger] s[2 * i] == hex_digit(
            (bytes[i] / 16) as int,
        ) && s[2 * i + 1] == hex_digit((bytes[i] % 16) as int) by {
            if i < rest.len() {
                assert(rest[i] == bytes[i]);
                assert(s[2 * i] == hex_upper(rest)[2 * i]);
                assert(s[2 * i + 1] == hex_upper(rest)[2 * i + 1]);
            }
        }
    }
}

proof fn lemma_hex_digit_round_trip(value: int)
    requires
        0 <= value < 16,
    ensures
        '\0' <= hex_digit(value) <= '\u{7f}',
        hex_digit(value) as u8 != 0x2B,
        !is_hex_separator(hex_digit(value) as u8),
        hex_digit_value(hex_digit(value) as u8) == Some(value as u8),
{
}

proof fn lemma_compact_without_separators(b: Seq<u8>)
    requires
        forall|i: int| 0 <= i < b.len() ==> !is_hex_separator(#[trigger] b[i]),
    ensures
        compact_hex(b) == b,
    decreases b.len(),
{
    if b.len() > 0 {
        lemma_compact_without_separators(b.drop_last());
        assert(b.drop_last().push(b.last()) =~= b);
    }
}

/// Decoding what `encode_hex` renders gives the bytes back.
pub proof fn decode_hex_inverts_encode_hex(bytes: Seq<u8>)
    ensures
        decoded_hex(encode_utf8(hex_upper(bytes))) == Some(bytes),
{
    let s = hex_upper(bytes);
    lemma_hex_upper_shape(bytes);
    assert forall|k: int| 0 <= k < s.len() implies '\0' <= #[trigger] s[k] <= '\u{7f}' && !is_hex_separator(s[k] as u8) by {
        let i = k / 2;
        assert(0 <= i < bytes.len());
        assert(s[2 * i] == hex_digit((bytes[i] / 16) as int));
        assert(s[2 * i + 1] == hex_digit((bytes[i] % 16) as int));
        if k % 2 == 0 {
            assert(k == 2 * i);
            lemma_hex_digit_round_trip((bytes[i] / 16) as int);
        } else {
            assert(k == 2 * i + 1);
            lemma_hex_digit_round_trip((bytes[i] % 16) as int);
        }
    }
    assert(is_ascii_chars(s));
    is_ascii_chars_encode_utf8(s);
    let e = encode_utf8(s);
    assert forall|k: int| 0 <= k < e.len() implies !is_hex_separator(#[trigger] e[k]) by {
        assert(s[k] as u8 == e[k]);
    }
    lemma_compact_without_separators(e);
    assert forall|i: int| 0 <= i < e.len() / 2 implies #[trigger] hex_pair(e[2 * i], e[2 * i + 1])
        == Some(bytes[i]) by {
        assert(s[2 * i] as u8 == e[2 * i]);
        assert(s[2 * i + 1] as u8 == e[2 * i + 1]);
        assert(s[2 * i] == hex_digit((bytes[i] / 16) as int));
        assert(s[2 * i + 1] == hex_digit((bytes[i] % 16) as int));
        lemma_hex_digit_round_trip((bytes[i] / 16) as int);
        lemma_hex_digit_round_trip((bytes[i] % 16) as int);
        assert(bytes[i] == (bytes[i] / 16) * 16 + bytes[i] % 16);
    }
    assert(hex_pairs_valid(e));
    assert(hex_pairs(e) =~= bytes);
}

/// `yes` or `no`.
pub fn yes_no(value: bool) -> (text: &'static str)
    ensures
        text@ == if value {
            "yes"@
        } else {
            "no"@
        },
{
    if value {
        "yes"
    } else {
        "no"
    }
}

// ---------------------------------------------------------------------------------------
// What a command line asks for
// ---------------------------------------------------------------------------------------

/// What a command line asks the program to do.
#[derive(Debug)]
pub enum CliRequest {
    /// Print the usage text.
    Help,
    /// List the attached readers.
    List,
    /// Print the ATR of the first card.
    Atr,
    /// Send one command APDU to the first card; `raw` skips the automatic status handling.
    Apdu { raw: bool, command: Command },
}

/// What a command line asks for, in the abstract.
pub enum CliRequestView {
    Help,
    List,
    Atr,
    Apdu { raw: bool, command: CommandView },
}

impl View for CliRequest {
    type V = CliRequestView;

    open spec fn view(&self) -> CliRequestView {
        match self {
            CliRequest::Help => CliRequestView::Help,
            CliRequest::List => CliRequestView::List,
            CliRequest::Atr => CliRequestView::Atr,
            CliRequest::Apdu { raw, command } => CliRequestView::Apdu { raw: *raw, command: command@ },
        }
    }
}

/// The concatenation of several arguments.
pub open spec fn joined(parts: Seq<Seq<char>>) -> Seq<char>
    decreases parts.len(),
{
    if parts.len() == 0 {
        Seq::empty()
    } else {
        joined(parts.drop_last()) + parts.last()
    }
}

/// Why an error is reported, at the level a caller branches on.
pub enum CliFailure {
    /// The first argument names no command.
    UnknownCommand,
    /// `apdu` without hexadecimal digits.
    MissingApdu,
    /// The hexadecimal argument does not spell whole bytes.
    BadHex,
    /// The bytes are not one command APDU.
    BadCommand,
}

/// What the arguments of `apdu` ask for.
pub open spec fn apdu_request(rest: Seq<Seq<char>>) -> std::result::Result<CliRequestView, CliFailure> {
    let raw = rest.len() > 0 && rest[0] == "--raw"@;
    let hex = if raw {
        rest.drop_first()
    } else {
        rest
    };
    if hex.len() == 0 {
        Err(CliFailure::MissingApdu)
    } else {
        match decoded_hex(encode_utf8(joined(hex))) {
            None => Err(CliFailure::BadHex),
            Some(bytes) => match parse_command(bytes) {
                None => Err(CliFailure::BadCommand),
                Some(command) => Ok(CliRequestView::Apdu { raw, command }),
            },
        }
    }
}

/// What the refusal of the arguments of `apdu` says.
pub open spec fn apdu_error_text(rest: Seq<Seq<char>>) -> Seq<char> {
    let raw = rest.len() > 0 && rest[0] == "--raw"@;
    let hex = if raw {
        rest.drop_first()
    } else {
        rest
    };
    if hex.len() == 0 {
        "usage: ccid apdu [--raw] HEX"@
    } else {
        let b = encode_utf8(joined(hex));
        match decoded_hex(b) {
            None => hex_error(b),
            Some(bytes) => command_error_text(bytes),
        }
    }
}

/// What a command line (without the program name) asks for.
pub open spec fn cli_request(arguments: Seq<Seq<char>>) -> std::result::Result<
    CliRequestView,
    CliFailure,
> {
    if arguments.len() == 0 {
        Ok(CliRequestView::Help)
    } else {
        let command = arguments[0];
        if command == "list"@ {
            Ok(CliRequestView::List)
        } else if command == "atr"@ {
            Ok(CliRequestView::Atr)
        } else if command == "apdu"@ {
            apdu_request(arguments.drop_first())
        } else if command == "help"@ || command == "--help"@ || command == "-h"@ {
            Ok(CliRequestView::Help)
        } else {
            Err(CliFailure::UnknownCommand)
        }
    }
}

/// The views of several strings.
pub open spec fn string_views(strings: Seq<String>) -> Seq<Seq<char>> {
    strings.map_values(|s: String| s@)
}

fn join_arguments(parts: &[String]) -> (text: String)
    ensures
        text@ == joined(string_views(parts@)),
{
    let mut chars: Vec<char> = Vec::new();
    let mut index: usize = 0;
    while index < parts.len()
        invariant
            index <= parts@.len(),
            chars@ == joined(string_views(parts@.subrange(0, index as int))),
        decreases parts@.len() - index,
    {
        let ghost before = chars@;
        let part = chars_of(parts[index].as_str());
        let mut k: usize = 0;
        while k < part.len()
            invariant
                k <= part@.len(),
                chars@ == before + part@.subrange(0, k as int),
            decreases part@.len() - k,
        {
            chars.push(part[k]);
            k = k + 1;
            assert(chars@ =~= before + part@.subrange(0, k as int));
        }
        assert(part@.subrange(0, part@.len() as int) =~= part@);
        assert(string_views(parts@.subrange(0, index as int + 1)).drop_last() =~= string_views(
            parts@.subrange(0, index as int),
        ));
        index = index + 1;
    }
    assert(parts@.subrange(0, parts@.len() as int) =~= parts@);
    string_from_chars(chars.as_slice())
}

fn apdu_arguments(rest: &[String]) -> (result: Result<CliRequest>)
    ensures
        match apdu_request(string_views(rest@)) {
            Ok(request) => result matches Ok(r) && r@ == request,
            Err(_) => result matches Err(error) && error.category() == ErrorKind::InvalidInput
                && error.text() == apdu_error_text(string_views(rest@)),
        },
{
    let views = Ghost(string_views(rest@));
    let raw = rest.len() > 0 && chars_are(chars_of(rest[0].as_str()).as_slice(), "--raw");
    let hex: &[String] = if raw {
        let tail = slice_from(rest, 1);
        assert(string_views(tail@) =~= views@.drop_first());
        tail
    } else {
        rest
    };
    if hex.len() == 0 {
        return Err(Error::new(ErrorKind::InvalidInput, "usage: ccid apdu [--raw] HEX"));
    }
    let text = join_arguments(hex);
    let bytes = decode_hex(text.as_str())?;
    let command = Command::from_bytes(bytes.as_slice())?;
    Ok(CliRequest::Apdu { raw, command })
}

fn slice_from(items: &[String], start: usize) -> (tail: &[String])
    requires
        start <= items@.len(),
    ensures
        tail@ == items@.subrange(start as int, items@.len() as int),
{
    vstd::slice::slice_subrange(items, start, items.len())
}

/// Decide what a command line asks for; unknown commands and malformed APDUs are refused.
pub fn request(arguments: &[String]) -> (result: Result<CliRequest>)
    ensures
        match cli_request(string_views(arguments@)) {
            Ok(request) => result matches Ok(r) && r@ == request,
            Err(CliFailure::UnknownCommand) => result matches Err(error) && error.category()
                == ErrorKind::InvalidInput && error.text() == "unknown command `"@
                + arguments@[0]@ + "`; run `ccid help`"@,
            Err(_) => result matches Err(error) && error.category() == ErrorKind::InvalidInput
                && error.text() == apdu_error_text(string_views(arguments@).drop_first()),
        },
{
    if arguments.len() == 0 {
        return Ok(CliRequest::Help);
    }
    let command = chars_of(arguments[0].as_str());
    assert(string_views(arguments@)[0] == arguments@[0]@);
    if chars_are(command.as_slice(), "list") {
        return Ok(CliRequest::List);
    }
    if chars_are(command.as_slice(), "atr") {
        return Ok(CliRequest::Atr);
    }
    if chars_are(command.as_slice(), "apdu") {
        let rest = slice_from(arguments, 1);
        assert(string_views(rest@) =~= string_views(arguments@).drop_first());
        return apdu_arguments(rest);
    }
    if chars_are(command.as_slice(), "help") || chars_are(command.as_slice(), "--help")
        || chars_are(command.as_slice(), "-h") {
        return Ok(CliRequest::Help);
    }
    let mut message = "unknown command `".to_owned();
    message.append(arguments[0].as_str());
    message.append("`; run `ccid help`");
    Err(Error::with_message(ErrorKind::InvalidInput, message))
}

} // verus!
