//! What a command line and a terminal hand over: escapes in a prompt, metadata
//! overrides, turns typed over several lines, and settings for the rotation.
use crate::float_bits::{zero, F32_ONE, F32_ZERO};
#[allow(unused_imports)]
use crate::float_bits::is_zero;
use crate::qwen3::Qwen3Config;
use crate::text::{chars_of, ends_with, has, parse_i64, same_text, starts_with, text_between, to_lower, trim};
#[allow(unused_imports)]
use crate::text::{all_digits, has_text, is_digit, lowered, parsed_int, trimmed};
use vstd::prelude::*;

verus! {

// ------------------------------------------------------------------- escapes

/// The value of a hexadecimal digit.
pub open spec fn hex_value(c: char) -> Option<int> {
    if '0' <= c <= '9' {
        Some(c as int - 48)
    } else if 'a' <= c <= 'f' {
        Some(c as int - 87)
    } else if 'A' <= c <= 'F' {
        Some(c as int - 55)
    } else {
        None
    }
}

/// What a backslash and `c` stand for, where that is a character of its own.
pub open spec fn short_escape(c: char) -> Option<char> {
    if c == 'n' {
        Some('\n')
    } else if c == 't' {
        Some('\t')
    } else if c == 'r' {
        Some('\r')
    } else if c == '0' {
        Some('\0')
    } else if c == '\'' || c == '"' || c == '\\' {
        Some(c)
    } else {
        None
    }
}

/// What the backslash that `text` begins with stands for, and how many characters that
/// takes: a short escape, `x` and two hexadecimal digits, or itself as written.
pub open spec fn escape_at(text: Seq<char>) -> (Seq<char>, int) {
    if text.len() < 2 {
        (seq!['\\'], 1)
    } else if short_escape(text[1]) is Some {
        (seq![short_escape(text[1])->0], 2)
    } else if text[1] == 'x' && text.len() >= 4 && hex_value(text[2]) is Some && hex_value(
        text[3],
    ) is Some {
        (seq![(hex_value(text[2])->0 * 16 + hex_value(text[3])->0) as char], 4)
    } else {
        (seq!['\\', text[1]], 2)
    }
}

/// `text` with its escapes read.
pub open spec fn unescaped(text: Seq<char>) -> Seq<char>
    decreases text.len(),
{
    if text.len() == 0 {
        text
    } else if text[0] != '\\' {
        seq![text[0]] + unescaped(text.skip(1))
    } else {
        escape_at(text).0 + unescaped(text.skip(escape_at(text).1))
    }
}

fn hex(c: char) -> (value: Option<u8>)
    ensures
        match value {
            Some(v) => hex_value(c) == Some(v as int) && v < 16,
            None => hex_value(c) is None,
        },
{
    if '0' <= c && c <= '9' {
        Some((c as u32 - 48) as u8)
    } else if 'a' <= c && c <= 'f' {
        Some((c as u32 - 87) as u8)
    } else if 'A' <= c && c <= 'F' {
        Some((c as u32 - 55) as u8)
    } else {
        None
    }
}

fn short(c: char) -> (value: Option<char>)
    ensures
        value == short_escape(c),
{
    if c == 'n' {
        Some('\n')
    } else if c == 't' {
        Some('\t')
    } else if c == 'r' {
        Some('\r')
    } else if c == '0' {
        Some('\0')
    } else if c == '\'' || c == '"' || c == '\\' {
        Some(c)
    } else {
        None
    }
}

/// Reads the backslash at `at`: appends what it stands for, and gives back how many
/// characters that took.
fn read_escape(out: &mut String, chars: &[char], at: usize) -> (taken: usize)
    requires
        at < chars@.len(),
        chars@[at as int] == '\\',
    ensures
        taken == escape_at(chars@.skip(at as int)).1,
        at + taken <= chars@.len(),
        final(out)@ == old(out)@ + escape_at(chars@.skip(at as int)).0,
{
    let ghost text = chars@.skip(at as int);
    let left: usize = chars.len() - at;
    if left < 2 {
        out.push('\\');
        assert(out@ =~= old(out)@ + escape_at(text).0);
        return 1;
    }
    let c = chars[at + 1];
    assert(text[1] == c);
    if let Some(value) = short(c) {
        out.push(value);
        assert(out@ =~= old(out)@ + escape_at(text).0);
        return 2;
    }
    if c == 'x' && left >= 4 {
        assert(text[2] == chars@[at + 2]);
        assert(text[3] == chars@[at + 3]);
        if let Some(high) = hex(chars[at + 2]) {
            if let Some(low) = hex(chars[at + 3]) {
                out.push((high * 16 + low) as char);
                assert(out@ =~= old(out)@ + escape_at(text).0);
                return 4;
            }
        }
    }
    out.push('\\');
    out.push(c);
    assert(out@ =~= old(out)@ + escape_at(text).0);
    2
}

/// Reads the backslash escapes of a prompt. Unknown escapes stay exactly as written, so
/// a Windows path survives.
pub fn unescape(text: &str) -> (out: String)
    ensures
        out@ == unescaped(text@),
{
    let chars = chars_of(text);
    let len: usize = chars.len();
    let mut out = String::new();
    let mut i: usize = 0;
    assert(chars@.skip(0) =~= chars@);
    while i < len
        invariant
            i <= len,
            len == chars@.len(),
            out@ + unescaped(chars@.skip(i as int)) == unescaped(chars@),
        decreases len - i,
    {
        let ghost rest = chars@.skip(i as int);
        let ghost before = out@;
        assert(rest[0] == chars@[i as int]);
        if chars[i] != '\\' {
            out.push(chars[i]);
            assert(rest.skip(1) =~= chars@.skip(i + 1));
            assert(out@ + unescaped(rest.skip(1)) =~= before + unescaped(rest));
            i = i + 1;
        } else {
            let taken: usize = read_escape(&mut out, chars.as_slice(), i);
            assert(rest.skip(taken as int) =~= chars@.skip(i + taken));
            assert(out@ + unescaped(rest.skip(taken as int)) =~= before + unescaped(rest));
            i = i + taken;
        }
    }
    assert(chars@.skip(i as int).len() == 0);
    assert(out@ =~= unescaped(chars@));
    out
}

/// Text without a backslash is left as it is.
pub proof fn plain_text_is_unchanged(text: Seq<char>)
    requires
        !text.contains('\\'),
    ensures
        unescaped(text) == text,
    decreases text.len(),
{
    if text.len() > 0 {
        assert(text[0] != '\\');
        let rest = text.skip(1);
        assert forall|i: int| 0 <= i < rest.len() implies rest[i] != '\\' by {
            assert(rest[i] == text[i + 1]);
        }
        plain_text_is_unchanged(rest);
        assert(seq![text[0]] + rest =~= text);
    }
}

/// An unknown escape is left exactly as written, and reading goes on behind it.
pub proof fn unknown_escapes_survive(c: char, rest: Seq<char>)
    requires
        short_escape(c) is None,
        c != 'x',
    ensures
        unescaped(seq!['\\', c] + rest) == seq!['\\', c] + unescaped(rest),
{
    let text = seq!['\\', c] + rest;
    assert(text[0] == '\\' && text[1] == c);
    assert(text.skip(2) =~= rest);
}

/// `text` with every backslash written twice.
pub open spec fn doubled(text: Seq<char>) -> Seq<char>
    decreases text.len(),
{
    if text.len() == 0 {
        text
    } else if text[0] == '\\' {
        seq!['\\', '\\'] + doubled(text.skip(1))
    } else {
        seq![text[0]] + doubled(text.skip(1))
    }
}

/// Every text can be written down: with its backslashes doubled it reads back as it is.
pub proof fn doubled_backslashes_read_back(text: Seq<char>)
    ensures
        unescaped(doubled(text)) == text,
    decreases text.len(),
{
    if text.len() > 0 {
        let rest = text.skip(1);
        doubled_backslashes_read_back(rest);
        let written = doubled(text);
        assert(seq![text[0]] + rest =~= text);
        if text[0] == '\\' {
            assert(written[0] == '\\' && written[1] == '\\');
            assert(written.skip(2) =~= doubled(rest));
            assert(escape_at(written).0 == seq!['\\']);
        } else {
            assert(written[0] == text[0]);
            assert(written.skip(1) =~= doubled(rest));
        }
    }
}

// ----------------------------------------------------------------- overrides

/// A metadata value given on the command line.
#[derive(Debug, Clone)]
pub enum OverrideValue {
    Int(i64),
    /// A real number, as written.
    Real(String),
    Flag(bool),
    Text(String),
}

/// An [`OverrideValue`] without its representation.
pub enum Setting {
    Int(int),
    Real(Seq<char>),
    Flag(bool),
    Text(Seq<char>),
}

impl View for OverrideValue {
    type V = Setting;

    open spec fn view(&self) -> Setting {
        match self {
            OverrideValue::Int(v) => Setting::Int(*v as int),
            OverrideValue::Real(v) => Setting::Real(v@),
            OverrideValue::Flag(v) => Setting::Flag(*v),
            OverrideValue::Text(v) => Setting::Text(v@),
        }
    }
}

/// The text before and behind the first `c`.
pub open spec fn split_once(text: Seq<char>, c: char) -> Option<(Seq<char>, Seq<char>)> {
    match text.index_of_first(c) {
        Some(i) => Some((text.take(i), text.skip(i + 1))),
        None => None,
    }
}

/// `text` without a leading sign.
pub open spec fn unsigned(text: Seq<char>) -> Seq<char> {
    if text.len() > 0 && (text[0] == '+' || text[0] == '-') {
        text.skip(1)
    } else {
        text
    }
}

/// Digits, with a point before, among or behind them or without one.
pub open spec fn is_mantissa(text: Seq<char>) -> bool {
    match split_once(text, '.') {
        None => text.len() > 0 && all_digits(text),
        Some((whole, part)) => all_digits(whole) && all_digits(part) && whole.len() + part.len()
            > 0,
    }
}

/// An unsigned number in lower case: a mantissa, and behind an `e` its exponent.
pub open spec fn is_number(text: Seq<char>) -> bool {
    match split_once(text, 'e') {
        None => is_mantissa(text),
        Some((mantissa, exponent)) => is_mantissa(mantissa) && unsigned(exponent).len() > 0
            && all_digits(unsigned(exponent)),
    }
}

/// `text` can be read as a floating-point number: an infinity, a not-a-number or a decimal
/// number, in either case, with or without a sign.
pub open spec fn is_real(text: Seq<char>) -> bool {
    let rest = lowered(unsigned(text));
    rest == "inf"@ || rest == "infinity"@ || rest == "nan"@ || is_number(rest)
}

/// What a value of type `ty` written `raw` is.
pub open spec fn setting_of(ty: Seq<char>, raw: Seq<char>) -> Option<Setting> {
    let kind = lowered(trimmed(ty));
    let value = trimmed(raw);
    if seq!["int"@, "i32"@, "i64"@, "u32"@, "u64"@].contains(kind) {
        match parsed_int(value, i64::MIN as int, i64::MAX as int) {
            Some(v) => Some(Setting::Int(v)),
            None => None,
        }
    } else if seq!["float"@, "f32"@, "f64"@].contains(kind) {
        if is_real(value) {
            Some(Setting::Real(value))
        } else {
            None
        }
    } else if kind == "bool"@ {
        if value == "true"@ || value == "1"@ {
            Some(Setting::Flag(true))
        } else if value == "false"@ || value == "0"@ {
            Some(Setting::Flag(false))
        } else {
            None
        }
    } else if kind == "str"@ || kind == "string"@ {
        Some(Setting::Text(raw))
    } else {
        None
    }
}

/// What `key=type:value` says.
pub open spec fn override_of(text: Seq<char>) -> Option<(Seq<char>, Setting)> {
    match split_once(text, '=') {
        None => None,
        Some((key, rest)) => match split_once(rest, ':') {
            None => None,
            Some((ty, raw)) => match setting_of(ty, raw) {
                None => None,
                Some(value) => Some((trimmed(key), value)),
            },
        },
    }
}

/// Where `c` first stands at or after `from`.
fn find_char(chars: &[char], c: char, from: usize) -> (found: Option<usize>)
    requires
        from <= chars@.len(),
    ensures
        match found {
            Some(i) => from <= i < chars@.len() && chars@.skip(from as int).index_of_first(c)
                == Some(i - from),
            None => chars@.skip(from as int).index_of_first(c) is None,
        },
{
    let ghost rest = chars@.skip(from as int);
    proof {
        rest.index_of_first_ensures(c);
    }
    let mut i: usize = from;
    while i < chars.len()
        invariant
            from <= i <= chars@.len(),
            rest == chars@.skip(from as int),
            match rest.index_of_first(c) {
                Some(k) => 0 <= k < rest.len() && rest[k] == c && forall|j: int|
                    0 <= j < k ==> rest[j] != c,
                None => !rest.contains(c),
            },
            forall|j: int| 0 <= j < i - from ==> rest[j] != c,
        decreases chars@.len() - i,
    {
        assert(rest[i - from] == chars@[i as int]);
        if chars[i] == c {
            assert(rest.contains(c));
            return Some(i);
        }
        i = i + 1;
    }
    None
}

fn without_sign(text: &str) -> (rest: String)
    ensures
        rest@ == unsigned(text@),
{
    let chars = chars_of(text);
    let from: usize = if chars.len() > 0 && (chars[0] == '+' || chars[0] == '-') {
        1
    } else {
        0
    };
    let rest = text_between(chars.as_slice(), from, chars.len());
    assert(rest@ =~= unsigned(text@));
    rest
}

fn only_digits(text: &str) -> (yes: bool)
    ensures
        yes == all_digits(text@),
{
    let chars = chars_of(text);
    let mut i: usize = 0;
    while i < chars.len()
        invariant
            i <= chars@.len(),
            chars@ == text@,
            forall|j: int| 0 <= j < i ==> is_digit(#[trigger] text@[j]),
        decreases chars@.len() - i,
    {
        let c = chars[i];
        if !('0' <= c && c <= '9') {
            assert(!is_digit(text@[i as int]));
            return false;
        }
        i = i + 1;
    }
    true
}

fn split_at(text: &str, c: char) -> (parts: Option<(String, String)>)
    ensures
        match parts {
            Some((before, behind)) => split_once(text@, c) == Some((before@, behind@)),
            None => split_once(text@, c) is None,
        },
{
    let chars = chars_of(text);
    let len: usize = chars.len();
    assert(chars@.skip(0) =~= text@);
    match find_char(chars.as_slice(), c, 0) {
        None => None,
        Some(i) => {
            let before = text_between(chars.as_slice(), 0, i);
            let behind = text_between(chars.as_slice(), i + 1, len);
            assert(before@ =~= text@.take(i as int));
            assert(behind@ =~= text@.skip(i + 1));
            Some((before, behind))
        },
    }
}

fn reads_as_mantissa(text: &str) -> (yes: bool)
    ensures
        yes == is_mantissa(text@),
{
    match split_at(text, '.') {
        None => chars_of(text).len() > 0 && only_digits(text),
        Some((whole, part)) => {
            let whole_len: usize = chars_of(whole.as_str()).len();
            let part_len: usize = chars_of(part.as_str()).len();
            only_digits(whole.as_str()) && only_digits(part.as_str()) && (whole_len > 0 || part_len
                > 0)
        },
    }
}

fn reads_as_real(text: &str) -> (yes: bool)
    ensures
        yes == is_real(text@),
{
    let rest = to_lower(without_sign(text).as_str());
    if same_text(rest.as_str(), "inf") || same_text(rest.as_str(), "infinity") || same_text(
        rest.as_str(),
        "nan",
    ) {
        return true;
    }
    match split_at(rest.as_str(), 'e') {
        None => reads_as_mantissa(rest.as_str()),
        Some((mantissa, exponent)) => {
            let digits = without_sign(exponent.as_str());
            reads_as_mantissa(mantissa.as_str()) && chars_of(digits.as_str()).len() > 0
                && only_digits(digits.as_str())
        },
    }
}

fn is_one_of(text: &str, words: &Vec<&'static str>) -> (yes: bool)
    ensures
        yes == crate::names::literals(words@).contains(text@),
{
    let mut i: usize = 0;
    while i < words.len()
        invariant
            i <= words@.len(),
            forall|j: int| 0 <= j < i ==> (#[trigger] crate::names::literals(words@)[j]) != text@,
        decreases words@.len() - i,
    {
        assert(crate::names::literals(words@)[i as int] == words@[i as int]@);
        if same_text(text, words[i]) {
            return true;
        }
        i = i + 1;
    }
    false
}

fn setting(ty: &str, raw: &str) -> (value: Option<OverrideValue>)
    ensures
        match value {
            Some(v) => setting_of(ty@, raw@) == Some(v@),
            None => setting_of(ty@, raw@) is None,
        },
{
    let kind = to_lower(trim(ty).as_str());
    let value = trim(raw);
    let ints: Vec<&'static str> = vec!["int", "i32", "i64", "u32", "u64"];
    let reals: Vec<&'static str> = vec!["float", "f32", "f64"];
    assert(crate::names::literals(ints@) =~= seq!["int"@, "i32"@, "i64"@, "u32"@, "u64"@]);
    assert(crate::names::literals(reals@) =~= seq!["float"@, "f32"@, "f64"@]);
    if is_one_of(kind.as_str(), &ints) {
        return match parse_i64(value.as_str()) {
            Some(v) => Some(OverrideValue::Int(v)),
            None => None,
        };
    }
    if is_one_of(kind.as_str(), &reals) {
        return if reads_as_real(value.as_str()) {
            Some(OverrideValue::Real(value))
        } else {
            None
        };
    }
    if same_text(kind.as_str(), "bool") {
        if same_text(value.as_str(), "true") || same_text(value.as_str(), "1") {
            return Some(OverrideValue::Flag(true));
        }
        if same_text(value.as_str(), "false") || same_text(value.as_str(), "0") {
            return Some(OverrideValue::Flag(false));
        }
        return None;
    }
    if same_text(kind.as_str(), "str") || same_text(kind.as_str(), "string") {
        let mut text = String::new();
        text.append(raw);
        assert(text@ =~= raw@);
        return Some(OverrideValue::Text(text));
    }
    None
}

/// Reads `key=type:value`. Anything malformed gives nothing, so that the caller can
/// refuse it: an override dropped silently would leave the container believed corrected.
pub fn parse_override(spec_text: &str) -> (parsed: Option<(String, OverrideValue)>)
    ensures
        match parsed {
            Some((key, value)) => override_of(spec_text@) == Some((key@, value@)),
            None => override_of(spec_text@) is None,
        },
{
    let chars = chars_of(spec_text);
    let len: usize = chars.len();
    assert(chars@.skip(0) =~= chars@);
    let equals: usize = match find_char(chars.as_slice(), '=', 0) {
        Some(i) => i,
        None => {
            return None;
        },
    };
    let colon: usize = match find_char(chars.as_slice(), ':', equals + 1) {
        Some(i) => i,
        None => {
            return None;
        },
    };
    let key = text_between(chars.as_slice(), 0, equals);
    let ty = text_between(chars.as_slice(), equals + 1, colon);
    let raw = text_between(chars.as_slice(), colon + 1, len);
    proof {
        let rest = chars@.skip(equals + 1);
        assert(key@ =~= chars@.take(equals as int));
        assert(ty@ =~= rest.take(colon - (equals + 1)));
        assert(raw@ =~= rest.skip(colon - (equals + 1) + 1));
    }
    match setting(ty.as_str(), raw.as_str()) {
        Some(value) => Some((trim(key.as_str()), value)),
        None => None,
    }
}

// --------------------------------------------------------------------- turns

/// `line` without the line ends it ends with.
pub open spec fn without_line_end(line: Seq<char>) -> Seq<char>
    decreases line.len(),
{
    if line.len() > 0 && (line.last() == '\n' || line.last() == '\r') {
        without_line_end(line.drop_last())
    } else {
        line
    }
}

/// What a turn holds once `line` was typed behind `sofar`, and whether it is complete.
///
/// Where turns may span lines, one that ends in a backslash goes on in the next. Blank
/// input asks for another prompt and is no turn.
pub open spec fn turn_after(sofar: Seq<char>, line: Seq<char>, multiline: bool) -> (
    Seq<char>,
    bool,
) {
    let typed = without_line_end(line);
    let all = sofar + typed;
    if multiline && typed.len() > 0 && typed.last() == '\\' {
        (sofar + typed.drop_last() + seq!['\n'], false)
    } else if trimmed(all).len() == 0 {
        (Seq::empty(), false)
    } else {
        (all, true)
    }
}

/// A turn as it is being typed.
pub struct UserTurn {
    pub text: String,
    pub multiline: bool,
}

impl UserTurn {
    pub fn new(multiline: bool) -> (turn: Self)
        ensures
            turn.text@.len() == 0,
            turn.multiline == multiline,
    {
        UserTurn { text: String::new(), multiline }
    }

    /// Takes one line in, with its line end; true once the turn is complete.
    pub fn read_user_turn(&mut self, line: &str) -> (complete: bool)
        ensures
            final(self).multiline == old(self).multiline,
            (final(self).text@, complete) == turn_after(
                old(self).text@,
                line@,
                old(self).multiline,
            ),
    {
        let chars = chars_of(line);
        let mut to: usize = chars.len();
        assert(chars@.take(to as int) =~= chars@);
        while to > 0 && (chars[to - 1] == '\n' || chars[to - 1] == '\r')
            invariant
                to <= chars@.len(),
                without_line_end(chars@) == without_line_end(chars@.take(to as int)),
            decreases to,
        {
            assert(chars@.take(to as int).drop_last() =~= chars@.take(to - 1));
            to = to - 1;
        }
        let ghost typed = without_line_end(line@);
        let ghost sofar = self.text@;
        assert(typed =~= chars@.take(to as int));
        if self.multiline && to > 0 && chars[to - 1] == '\\' {
            let head = text_between(chars.as_slice(), 0, to - 1);
            self.text.append(head.as_str());
            self.text.push('\n');
            assert(head@ =~= typed.drop_last());
            assert(self.text@ =~= sofar + typed.drop_last() + seq!['\n']);
            return false;
        }
        let whole = text_between(chars.as_slice(), 0, to);
        self.text.append(whole.as_str());
        assert(whole@ =~= typed);
        assert(self.text@ =~= sofar + typed);
        let bare = trim(self.text.as_str());
        if chars_of(bare.as_str()).len() == 0 {
            self.text = String::new();
            assert(self.text@ =~= Seq::empty());
            return false;
        }
        true
    }
}

/// A line continued by a backslash and the line behind it make one turn of two lines.
pub proof fn continued_lines_are_joined(first: Seq<char>, second: Seq<char>)
    requires
        second.len() > 0,
        second.last() != '\n' && second.last() != '\r' && second.last() != '\\',
        trimmed(first + seq!['\n'] + second).len() > 0,
    ensures
        ({
            let begun = turn_after(Seq::empty(), first + seq!['\\', '\n'], true);
            &&& !begun.1
            &&& turn_after(begun.0, second + seq!['\n'], true) == (
                first + seq!['\n'] + second,
                true,
            )
        }),
{
    let a = first + seq!['\\', '\n'];
    assert(a.drop_last() =~= first + seq!['\\']);
    reveal_with_fuel(without_line_end, 2);
    assert(without_line_end(a) == first + seq!['\\']);
    assert((first + seq!['\\']).drop_last() =~= first);
    let begun = turn_after(Seq::empty(), a, true);
    assert(begun.0 =~= first + seq!['\n']);
    let b = second + seq!['\n'];
    assert(b.drop_last() =~= second);
    assert(without_line_end(b) == second);
}

// -------------------------------------------------------------------- infill

/// The marks by which a vocabulary names its fill-in-the-middle tokens.
pub open spec fn infill_marks() -> Seq<Seq<char>> {
    seq![
        "fim_prefix"@,
        "fim_middle"@,
        "fim_suffix"@,
        "fim_pad"@,
        "fim_rep"@,
        "fim_sep"@,
        "fim_pre"@,
        "fim_suf"@,
        "fim_mid"@,
        "PRE"@,
        "SUF"@,
        "MID"@,
        "EOT"@,
    ]
}

/// The text has a control token's brackets. An entry that merely holds the letters of a
/// mark is an ordinary word.
pub open spec fn bracketed(text: Seq<char>) -> bool {
    ||| "<|"@.is_prefix_of(text) && "|>"@.is_suffix_of(text)
    ||| "<"@.is_prefix_of(text) && ">"@.is_suffix_of(text)
}

/// A vocabulary entry is a fill-in-the-middle control token.
pub open spec fn marks_infill(entry: Option<Seq<char>>) -> bool {
    match entry {
        Some(text) => bracketed(text) && exists|m: int|
            0 <= m < infill_marks().len() && has_text(text, #[trigger] infill_marks()[m]),
        None => false,
    }
}

/// The text of a vocabulary entry, where it has one.
pub open spec fn entry_text(entry: Option<String>) -> Option<Seq<char>> {
    match entry {
        Some(text) => Some(text@),
        None => None,
    }
}

/// The ids below `n` that are fill-in-the-middle control tokens, in order.
pub open spec fn infill_ids(vocabulary: Seq<Option<String>>, n: int) -> Seq<u32>
    decreases n,
{
    if n <= 0 {
        Seq::empty()
    } else if marks_infill(entry_text(vocabulary[n - 1])) {
        infill_ids(vocabulary, n - 1).push((n - 1) as u32)
    } else {
        infill_ids(vocabulary, n - 1)
    }
}

fn is_infill(text: &str) -> (yes: bool)
    ensures
        yes == marks_infill(Some(text@)),
{
    let first = starts_with(text, "<|") && ends_with(text, "|>");
    let second = starts_with(text, "<") && ends_with(text, ">");
    if !(first || second) {
        return false;
    }
    let marks: Vec<&'static str> = vec![
        "fim_prefix",
        "fim_middle",
        "fim_suffix",
        "fim_pad",
        "fim_rep",
        "fim_sep",
        "fim_pre",
        "fim_suf",
        "fim_mid",
        "PRE",
        "SUF",
        "MID",
        "EOT",
    ];
    assert(crate::names::literals(marks@) =~= infill_marks());
    let mut i: usize = 0;
    while i < marks.len()
        invariant
            i <= marks@.len(),
            crate::names::literals(marks@) == infill_marks(),
            forall|m: int| 0 <= m < i ==> !has_text(text@, #[trigger] infill_marks()[m]),
            bracketed(text@),
        decreases marks@.len() - i,
    {
        assert(infill_marks()[i as int] == marks@[i as int]@);
        if has(text, marks[i]) {
            return true;
        }
        i = i + 1;
    }
    false
}

/// The fill-in-the-middle control tokens of a vocabulary, by the text of its entries.
/// One that came up inside a filled span would corrupt the file it is spliced into.
pub fn infill_tokens(vocabulary: &Vec<Option<String>>) -> (ids: Vec<u32>)
    requires
        vocabulary@.len() <= u32::MAX,
    ensures
        ids@ == infill_ids(vocabulary@, vocabulary@.len() as int),
{
    let mut ids: Vec<u32> = Vec::new();
    let mut id: usize = 0;
    while id < vocabulary.len()
        invariant
            id <= vocabulary@.len() <= u32::MAX,
            ids@ == infill_ids(vocabulary@, id as int),
        decreases vocabulary@.len() - id,
    {
        if let Some(text) = &vocabulary[id] {
            if is_infill(text.as_str()) {
                ids.push(id as u32);
            }
        }
        id = id + 1;
    }
    ids
}

/// An id is given exactly where its entry is a fill-in-the-middle control token.
pub proof fn infill_ids_are_the_marked_ones(vocabulary: Seq<Option<String>>, n: int, id: u32)
    requires
        0 <= n <= vocabulary.len() <= u32::MAX,
    ensures
        infill_ids(vocabulary, n).contains(id) <==> id < n && marks_infill(
            entry_text(vocabulary[id as int]),
        ),
    decreases n,
{
    if n > 0 {
        infill_ids_are_the_marked_ones(vocabulary, n - 1, id);
        let less = infill_ids(vocabulary, n - 1);
        let last = (n - 1) as u32;
        if marks_infill(entry_text(vocabulary[n - 1])) {
            assert(less.push(last).last() == last);
            if less.contains(id) {
                let k = choose|k: int| 0 <= k < less.len() && less[k] == id;
                assert(less.push(last)[k] == id);
            }
        }
    }
}

// ------------------------------------------------------------------ rotation

/// Rotary settings the user gave, each absent unless asked for: not given, and given
/// the value the container has, are different things. Real numbers are f32 bit patterns.
#[derive(Debug, Clone, Default)]
pub struct RopeOverrides {
    pub freq_base: Option<u32>,
    pub freq_scale: Option<u32>,
    pub scaling: Option<String>,
    pub ext_factor: Option<u32>,
    pub attn_factor: Option<u32>,
    pub beta_fast: Option<u32>,
    pub beta_slow: Option<u32>,
    pub orig_ctx: Option<u32>,
}

/// One setting that was overridden, as it is reported.
#[derive(Debug, Clone, Copy, PartialEq, Eq, Structural)]
pub enum RopeChange {
    FreqBase { from: u32, to: u32 },
    FreqScale { from: u32, to: u32 },
    ScalingNone,
    ScalingLinear,
    ScalingYarn,
    ExtFactor(u32),
    AttnFactor(u32),
    BetaFast(u32),
    BetaSlow(u32),
    OrigCtx(u32),
}

/// A value, or the one it replaces where none is given.
pub open spec fn given(value: Option<u32>, otherwise: u32) -> u32 {
    match value {
        Some(v) => v,
        None => otherwise,
    }
}

fn given_or(value: Option<u32>, otherwise: u32) -> (v: u32)
    ensures
        v == given(value, otherwise),
{
    match value {
        Some(v) => v,
        None => otherwise,
    }
}

/// A change as a list: empty where there is none.
pub open spec fn listed_change(change: Option<RopeChange>) -> Seq<RopeChange> {
    match change {
        Some(change) => seq![change],
        None => Seq::empty(),
    }
}

fn push_change(changed: &mut Vec<RopeChange>, change: Option<RopeChange>)
    ensures
        final(changed)@ == old(changed)@ + listed_change(change),
{
    match change {
        Some(change) => changed.push(change),
        None => {},
    }
    assert(changed@ =~= old(changed)@ + listed_change(change));
}

impl RopeOverrides {
    /// Scaling is asked for by this name.
    pub open spec fn scales(self, name: Seq<char>) -> bool {
        self.scaling is Some && self.scaling->0@ == name
    }

    /// `c` with the overrides applied. A scaling of `none` also resets the frequency
    /// scale; `yarn` with no strength given, over a container that has none, is full
    /// strength and not zero.
    pub open spec fn applied(self, c: Qwen3Config) -> Qwen3Config {
        Qwen3Config {
            rope_freq_base: given(self.freq_base, c.rope_freq_base),
            rope_freq_scale: if self.scales("none"@) {
                F32_ONE
            } else {
                given(self.freq_scale, c.rope_freq_scale)
            },
            rope_ext_factor: given(
                self.ext_factor,
                if self.scales("none"@) || self.scales("linear"@) {
                    F32_ZERO
                } else if self.scales("yarn"@) && is_zero(c.rope_ext_factor) {
                    F32_ONE
                } else {
                    c.rope_ext_factor
                },
            ),
            rope_attn_factor: given(self.attn_factor, c.rope_attn_factor),
            rope_beta_fast: given(self.beta_fast, c.rope_beta_fast),
            rope_beta_slow: given(self.beta_slow, c.rope_beta_slow),
            rope_orig_ctx: given(self.orig_ctx, c.rope_orig_ctx),
            ..c
        }
    }

    /// The scaling asked for, where it is a known one.
    pub open spec fn scaling_change(self) -> Option<RopeChange> {
        if self.scales("none"@) {
            Some(RopeChange::ScalingNone)
        } else if self.scales("linear"@) {
            Some(RopeChange::ScalingLinear)
        } else if self.scales("yarn"@) {
            Some(RopeChange::ScalingYarn)
        } else {
            None
        }
    }

    /// What applying the overrides to `c` reports, in order.
    pub open spec fn changes(self, c: Qwen3Config) -> Seq<RopeChange> {
        listed_change(
            match self.freq_base {
                Some(to) => Some(RopeChange::FreqBase { from: c.rope_freq_base, to }),
                None => None,
            },
        ) + listed_change(
            match self.freq_scale {
                Some(to) => Some(RopeChange::FreqScale { from: c.rope_freq_scale, to }),
                None => None,
            },
        ) + listed_change(self.scaling_change()) + listed_change(
            match self.ext_factor {
                Some(v) => Some(RopeChange::ExtFactor(v)),
                None => None,
            },
        ) + listed_change(
            match self.attn_factor {
                Some(v) => Some(RopeChange::AttnFactor(v)),
                None => None,
            },
        ) + listed_change(
            match self.beta_fast {
                Some(v) => Some(RopeChange::BetaFast(v)),
                None => None,
            },
        ) + listed_change(
            match self.beta_slow {
                Some(v) => Some(RopeChange::BetaSlow(v)),
                None => None,
            },
        ) + listed_change(
            match self.orig_ctx {
                Some(v) => Some(RopeChange::OrigCtx(v)),
                None => None,
            },
        )
    }

    fn read_scaling(&self) -> (change: Option<RopeChange>)
        ensures
            change == self.scaling_change(),
    {
        match &self.scaling {
            None => None,
            Some(scaling) => if same_text(scaling.as_str(), "none") {
                Some(RopeChange::ScalingNone)
            } else if same_text(scaling.as_str(), "linear") {
                Some(RopeChange::ScalingLinear)
            } else if same_text(scaling.as_str(), "yarn") {
                Some(RopeChange::ScalingYarn)
            } else {
                None
            },
        }
    }

    fn report(&self, c: &Qwen3Config) -> (changed: Vec<RopeChange>)
        ensures
            changed@ == self.changes(*c),
    {
        let mut changed: Vec<RopeChange> = Vec::new();
        let base = match self.freq_base {
            Some(to) => Some(RopeChange::FreqBase { from: c.rope_freq_base, to }),
            None => None,
        };
        push_change(&mut changed, base);
        assert(changed@ =~= listed_change(base));
        push_change(
            &mut changed,
            match self.freq_scale {
                Some(to) => Some(RopeChange::FreqScale { from: c.rope_freq_scale, to }),
                None => None,
            },
        );
        push_change(&mut changed, self.read_scaling());
        push_change(
            &mut changed,
            match self.ext_factor {
                Some(v) => Some(RopeChange::ExtFactor(v)),
                None => None,
            },
        );
        push_change(
            &mut changed,
            match self.attn_factor {
                Some(v) => Some(RopeChange::AttnFactor(v)),
                None => None,
            },
        );
        push_change(
            &mut changed,
            match self.beta_fast {
                Some(v) => Some(RopeChange::BetaFast(v)),
                None => None,
            },
        );
        push_change(
            &mut changed,
            match self.beta_slow {
                Some(v) => Some(RopeChange::BetaSlow(v)),
                None => None,
            },
        );
        push_change(
            &mut changed,
            match self.orig_ctx {
                Some(v) => Some(RopeChange::OrigCtx(v)),
                None => None,
            },
        );
        changed
    }

    /// Applies the overrides to a configuration read from the container, and says what
    /// was overridden: the rotation is the setting most likely to turn a working model
    /// into a fluent and wrong one.
    pub fn apply(&self, c: &mut Qwen3Config) -> (changed: Vec<RopeChange>)
        ensures
            *final(c) == self.applied(*old(c)),
            changed@ == self.changes(*old(c)),
    {
        let read: Qwen3Config = *c;
        let changed = self.report(&read);
        let scaling = self.read_scaling();
        let freq_scale: u32 = match scaling {
            Some(RopeChange::ScalingNone) => F32_ONE,
            _ => given_or(self.freq_scale, read.rope_freq_scale),
        };
        let mix: u32 = match scaling {
            Some(RopeChange::ScalingNone) | Some(RopeChange::ScalingLinear) => F32_ZERO,
            Some(RopeChange::ScalingYarn) => if zero(read.rope_ext_factor) {
                F32_ONE
            } else {
                read.rope_ext_factor
            },
            _ => read.rope_ext_factor,
        };
        *c = Qwen3Config {
            rope_freq_base: given_or(self.freq_base, read.rope_freq_base),
            rope_freq_scale: freq_scale,
            rope_ext_factor: given_or(self.ext_factor, mix),
            rope_attn_factor: given_or(self.attn_factor, read.rope_attn_factor),
            rope_beta_fast: given_or(self.beta_fast, read.rope_beta_fast),
            rope_beta_slow: given_or(self.beta_slow, read.rope_beta_slow),
            rope_orig_ctx: given_or(self.orig_ctx, read.rope_orig_ctx),
            ..read
        };
        changed
    }
}

/// Nothing asked for changes nothing: the container's own settings stand, and nothing
/// is reported.
pub proof fn no_override_keeps_the_container(overrides: RopeOverrides, c: Qwen3Config)
    requires
        overrides.freq_base is None,
        overrides.freq_scale is None,
        overrides.scaling is None,
        overrides.ext_factor is None,
        overrides.attn_factor is None,
        overrides.beta_fast is None,
        overrides.beta_slow is None,
        overrides.orig_ctx is None,
    ensures
        overrides.applied(c) == c,
        overrides.changes(c).len() == 0,
{
}

} // verus!
