//! The encrypted payloads that alerts carry, and the keys and envelopes around them.
use vstd::prelude::*;
use vstd::string::*;
use crate::hexadecimal::{
    all_hex, bytes_of_digits, decode_hex, encode_hex, hex_text, hex_value, HexError,
};
use crate::text::{chars_of, starts, starts_at, string_of};

verus! {

/// The number of bytes in a key.
pub const KEY_LEN: usize = 32;

/// The character is white space.
pub open spec fn is_space(c: char) -> bool {
    ||| 0x9 <= c as u32 <= 0xd
    ||| c as u32 == 0x20
    ||| c as u32 == 0x85
    ||| c as u32 == 0xa0
    ||| c as u32 == 0x1680
    ||| 0x2000 <= c as u32 <= 0x200a
    ||| c as u32 == 0x2028
    ||| c as u32 == 0x2029
    ||| c as u32 == 0x202f
    ||| c as u32 == 0x205f
    ||| c as u32 == 0x3000
}

/// The text without white space at its start.
pub open spec fn trim_start(text: Seq<char>) -> Seq<char>
    decreases text.len(),
{
    if text.len() > 0 && is_space(text[0]) {
        trim_start(text.drop_first())
    } else {
        text
    }
}

/// The text without white space at its end.
pub open spec fn trim_end(text: Seq<char>) -> Seq<char>
    decreases text.len(),
{
    if text.len() > 0 && is_space(text.last()) {
        trim_end(text.drop_last())
    } else {
        text
    }
}

/// The text without white space at either end.
pub open spec fn trimmed(text: Seq<char>) -> Seq<char> {
    trim_end(trim_start(text))
}

/// The text stands between two of these quotes.
pub open spec fn quoted_by(text: Seq<char>, quote: char) -> bool {
    text.len() >= 2 && text[0] == quote && text.last() == quote
}

/// The text without white space around it and without a matching pair of quotes.
pub open spec fn unquoted(text: Seq<char>) -> Seq<char> {
    let t = trimmed(text);
    if quoted_by(t, '"') || quoted_by(t, '\'') {
        t.subrange(1, t.len() - 1)
    } else {
        t
    }
}

/// Whether a character is white space.
fn is_whitespace(c: char) -> (b: bool)
    ensures
        b == is_space(c),
{
    let n: u32 = c as u32;
    (0x9 <= n && n <= 0xd) || n == 0x20 || n == 0x85 || n == 0xa0 || n == 0x1680 || (0x2000 <= n
        && n <= 0x200a) || n == 0x2028 || n == 0x2029 || n == 0x202f || n == 0x205f || n == 0x3000
}

/// Where the part of `chars[from..to]` without white space around it lies.
fn trim_range(chars: &Vec<char>, from: usize, to: usize) -> (r: (usize, usize))
    requires
        from <= to <= chars@.len(),
    ensures
        from <= r.0 <= r.1 <= to,
        chars@.subrange(r.0 as int, r.1 as int) == trimmed(
            chars@.subrange(from as int, to as int),
        ),
{
    let mut a: usize = from;
    let ghost whole = chars@.subrange(from as int, to as int);
    while a < to && is_whitespace(chars[a])
        invariant
            from <= a <= to <= chars@.len(),
            whole == chars@.subrange(from as int, to as int),
            trim_start(whole) == trim_start(chars@.subrange(a as int, to as int)),
        decreases to - a,
    {
        assert(chars@.subrange(a as int, to as int).drop_first() =~= chars@.subrange(
            a + 1,
            to as int,
        ));
        a = a + 1;
    }
    let ghost tail = chars@.subrange(a as int, to as int);
    assert(trim_start(whole) == tail);
    let mut b: usize = to;
    while b > a && is_whitespace(chars[b - 1])
        invariant
            from <= a <= b <= to <= chars@.len(),
            tail == chars@.subrange(a as int, to as int),
            trim_end(tail) == trim_end(chars@.subrange(a as int, b as int)),
        decreases b,
    {
        assert(chars@.subrange(a as int, b as int).drop_last() =~= chars@.subrange(
            a as int,
            b - 1,
        ));
        b = b - 1;
    }
    (a, b)
}

/// Where the unquoted part of `chars[from..to]` lies.
fn unquote_range(chars: &Vec<char>, from: usize, to: usize) -> (r: (usize, usize))
    requires
        from <= to <= chars@.len(),
    ensures
        from <= r.0 <= r.1 <= to,
        chars@.subrange(r.0 as int, r.1 as int) == unquoted(
            chars@.subrange(from as int, to as int),
        ),
{
    let (a, b) = trim_range(chars, from, to);
    let ghost t = chars@.subrange(a as int, b as int);
    if b - a >= 2 {
        let (first, last): (char, char) = (chars[a], chars[b - 1]);
        if (first == '"' && last == '"') || (first == '\'' && last == '\'') {
            assert(t.subrange(1, t.len() - 1) =~= chars@.subrange(a + 1, b - 1));
            return (a + 1, b - 1);
        }
    }
    (a, b)
}

/// The text without white space around it and without a matching pair of quotes.
pub fn strip_quotes(s: &str) -> (r: &str)
    ensures
        r@ == unquoted(s@),
{
    let chars: Vec<char> = chars_of(s);
    assert(chars@.subrange(0, chars@.len() as int) =~= s@);
    let (a, b) = unquote_range(&chars, 0, chars.len());
    s.substring_char(a, b)
}

/// The payload on one line of an alert body: what follows `payload:`, unquoted, if it is one.
pub open spec fn payload_on(line: Seq<char>) -> Option<Seq<char>> {
    let l = trimmed(line);
    if starts(l, "payload:"@) && starts(unquoted(l.skip(8)), "v1."@) {
        Some(unquoted(l.skip(8)))
    } else {
        None
    }
}

/// How many characters the first line has.
pub open spec fn first_line(text: Seq<char>) -> nat
    decreases text.len(),
{
    if text.len() == 0 || text[0] == '\n' {
        0
    } else {
        1 + first_line(text.drop_first())
    }
}

/// The payload of the first line that has one.
pub open spec fn payload_by_line(text: Seq<char>) -> Option<Seq<char>>
    decreases text.len(),
{
    let n = first_line(text) as int;
    match payload_on(text.take(n)) {
        Some(p) => Some(p),
        None => if 0 <= n < text.len() {
            payload_by_line(text.skip(n + 1))
        } else {
            None
        },
    }
}

/// The bare blob that an input is, without white space around it and without a pair of quotes. What
/// holds the same quote mark between its first and its last character is more than one string, and
/// no bare blob.
pub open spec fn bare_blob(input: Seq<char>) -> Option<Seq<char>> {
    let t = trimmed(input);
    let inner = unquoted(input);
    if starts(t, "v1."@) {
        Some(t)
    } else if (quoted_by(t, '"') || quoted_by(t, '\'')) && starts(inner, "v1."@)
        && !inner.contains(t[0]) {
        Some(inner)
    } else {
        None
    }
}

/// The payload of an input, given the `payload` field that it has as a YAML mapping: the input
/// itself where it is a bare blob, else that field, else the first line that reads `payload:`.
/// What does not start with `v1.` is no payload.
pub open spec fn payload_of(input: Seq<char>, field: Option<Seq<char>>) -> Option<Seq<char>> {
    if bare_blob(input) is Some {
        bare_blob(input)
    } else if field matches Some(f) && starts(f, "v1."@) {
        field
    } else {
        payload_by_line(trimmed(input))
    }
}

/// The payload on the lines of `chars[from..to]`.
fn scan_lines(chars: &Vec<char>, from: usize, to: usize) -> (p: Option<String>)
    requires
        from <= to <= chars@.len(),
    ensures
        match p {
            Some(s) => payload_by_line(chars@.subrange(from as int, to as int)) == Some(s@),
            None => payload_by_line(chars@.subrange(from as int, to as int)) is None,
        },
{
    proof {
        reveal_strlit("payload:");
    }
    let ghost whole = chars@.subrange(from as int, to as int);
    let mut a: usize = from;
    loop
        invariant
            from <= a <= to <= chars@.len(),
            "payload:"@.len() == 8,
            whole == chars@.subrange(from as int, to as int),
            payload_by_line(whole) == payload_by_line(chars@.subrange(a as int, to as int)),
        decreases to - a,
    {
        let ghost rest = chars@.subrange(a as int, to as int);
        let mut e: usize = a;
        while e < to && chars[e] != '\n'
            invariant
                a <= e <= to <= chars@.len(),
                rest == chars@.subrange(a as int, to as int),
                first_line(rest) == (e - a) + first_line(chars@.subrange(e as int, to as int)),
            decreases to - e,
        {
            assert(chars@.subrange(e as int, to as int).drop_first() =~= chars@.subrange(
                e + 1,
                to as int,
            ));
            e = e + 1;
        }
        assert(first_line(rest) == e - a);
        assert(rest.take(e - a) =~= chars@.subrange(a as int, e as int));
        let (la, lb) = trim_range(chars, a, e);
        let ghost l = chars@.subrange(la as int, lb as int);
        let line: String = string_of(chars, la, lb);
        let line_chars: Vec<char> = chars_of(line.as_str());
        assert(line_chars@.skip(0) =~= l);
        if starts_at(&line_chars, 0, "payload:") {
            assert(l.skip(8) =~= chars@.subrange(la + 8, lb as int));
            let (va, vb) = unquote_range(chars, la + 8, lb);
            let value: String = string_of(chars, va, vb);
            let value_chars: Vec<char> = chars_of(value.as_str());
            assert(value_chars@.skip(0) =~= value@);
            if starts_at(&value_chars, 0, "v1.") {
                return Some(value);
            }
        }
        assert(payload_on(rest.take(e - a)) is None);
        if e >= to {
            return None;
        }
        assert(rest.skip(e - a + 1) =~= chars@.subrange(e + 1, to as int));
        a = e + 1;
    }
}

/// Whether a character stands in `chars[from..to]`.
fn holds_char(chars: &Vec<char>, from: usize, to: usize, c: char) -> (b: bool)
    requires
        from <= to <= chars@.len(),
    ensures
        b == chars@.subrange(from as int, to as int).contains(c),
{
    let ghost part = chars@.subrange(from as int, to as int);
    let mut i: usize = from;
    while i < to
        invariant
            from <= i <= to <= chars@.len(),
            part == chars@.subrange(from as int, to as int),
            forall|j: int| 0 <= j < i - from ==> #[trigger] part[j] != c,
        decreases to - i,
    {
        assert(part[i - from] == chars@[i as int]);
        if chars[i] == c {
            return true;
        }
        i = i + 1;
    }
    false
}

/// The bare blob that an input is, if it is one.
fn find_bare_blob(input: &str) -> (blob: Option<String>)
    ensures
        match blob {
            Some(s) => bare_blob(input@) == Some(s@),
            None => bare_blob(input@) is None,
        },
{
    let chars: Vec<char> = chars_of(input);
    assert(chars@.subrange(0, chars@.len() as int) =~= input@);
    let (a, b) = trim_range(&chars, 0, chars.len());
    let text: String = string_of(&chars, a, b);
    let text_chars: Vec<char> = chars_of(text.as_str());
    assert(text_chars@.skip(0) =~= text@);
    if starts_at(&text_chars, 0, "v1.") {
        return Some(text);
    }
    let (ia, ib) = unquote_range(&chars, 0, chars.len());
    let inner: String = string_of(&chars, ia, ib);
    let inner_chars: Vec<char> = chars_of(inner.as_str());
    assert(inner_chars@.skip(0) =~= inner@);
    if starts_at(&inner_chars, 0, "v1.") {
        assert(quoted_by(text@, '"') || quoted_by(text@, '\''));
        assert(chars@[a as int] == text@[0]);
        if !holds_char(&chars, ia, ib, chars[a]) {
            return Some(inner);
        }
    }
    None
}

/// The payload of an input, given its YAML `payload` field.
pub fn payload_with_field(input: &str, field: Option<String>) -> (p: Option<String>)
    ensures
        ({
            let f = match field {
                Some(s) => Some(s@),
                None => None,
            };
            match p {
                Some(s) => payload_of(input@, f) == Some(s@),
                None => payload_of(input@, f) is None,
            }
        }),
{
    if let Some(blob) = find_bare_blob(input) {
        return Some(blob);
    }
    let chars: Vec<char> = chars_of(input);
    assert(chars@.subrange(0, chars@.len() as int) =~= input@);
    let (a, b) = trim_range(&chars, 0, chars.len());
    if let Some(f) = field {
        let field_chars: Vec<char> = chars_of(f.as_str());
        assert(field_chars@.skip(0) =~= f@);
        if starts_at(&field_chars, 0, "v1.") {
            return Some(f);
        }
    }
    scan_lines(&chars, a, b)
}

/// The text of a field of a YAML mapping: none where the text is no YAML, no mapping, has no such
/// field, or one that is not a string.
pub uninterp spec fn yaml_text_field(text: Seq<char>, key: Seq<char>) -> Option<Seq<char>>;

/// Whether YAML text is a mapping: none where it is no YAML.
pub uninterp spec fn yaml_is_mapping(text: Seq<char>) -> Option<bool>;

/// `serde_yaml::from_str` into a value, and the string that the value, where it is a mapping,
/// holds under a key. What the parser makes of the text is not said.
#[verifier::external_body]
fn read_yaml_field(text: &str, key: &str) -> (field: Option<String>)
    ensures
        yaml_text_field(text@, key@) == match field {
            Some(s) => Some(s@),
            None => None,
        },
{
    match serde_yaml::from_str::<serde_yaml::Value>(text) {
        Ok(serde_yaml::Value::Mapping(map)) => {
            match map.get(serde_yaml::Value::String(key.to_owned())) {
                Some(v) => v.as_str().map(|s| s.to_owned()),
                None => None,
            }
        },
        _ => None,
    }
}

/// `serde_yaml::from_str` into a value: whether the value is a mapping, `None` where the text does
/// not parse. What the parser makes of the text is not said.
#[verifier::external_body]
fn read_yaml_root(text: &str) -> (mapping: Option<bool>)
    ensures
        mapping == yaml_is_mapping(text@),
{
    match serde_yaml::from_str::<serde_yaml::Value>(text) {
        Ok(value) => Some(value.is_mapping()),
        Err(_) => None,
    }
}

/// There is no payload in the input.
#[derive(Debug, PartialEq, Eq)]
pub struct NoPayload;

/// The payload of an input: a bare blob, quoted or not, or an alert body with a `payload` field.
pub fn extract_payload_blob(input: &str) -> (blob: Result<String, NoPayload>)
    ensures
        ({
            let found = payload_of(input@, yaml_text_field(trimmed(input@), "payload"@));
            match blob {
                Ok(s) => found == Some(s@),
                Err(_) => found is None,
            }
        }),
{
    let field: Option<String> = if find_bare_blob(input).is_some() {
        None
    } else {
        let chars: Vec<char> = chars_of(input);
        assert(chars@.subrange(0, chars@.len() as int) =~= input@);
        let (a, b) = trim_range(&chars, 0, chars.len());
        read_yaml_field(string_of(&chars, a, b).as_str(), "payload")
    };
    match payload_with_field(input, field) {
        Some(s) => Ok(s),
        None => Err(NoPayload),
    }
}

/// Why a template cannot be used.
#[derive(Clone, Copy, Debug, PartialEq, Eq, Structural)]
pub enum TemplateError {
    NotYaml,
    NotMapping,
}

/// Checks that a template is a YAML mapping.
pub fn check_template(text: &str) -> (r: Result<(), TemplateError>)
    ensures
        match yaml_is_mapping(text@) {
            None => r == Err::<(), TemplateError>(TemplateError::NotYaml),
            Some(false) => r == Err::<(), TemplateError>(TemplateError::NotMapping),
            Some(true) => r is Ok,
        },
{
    check_root(read_yaml_root(text))
}

/// What the root of a template comes to.
pub fn check_root(mapping: Option<bool>) -> (r: Result<(), TemplateError>)
    ensures
        match mapping {
            None => r == Err::<(), TemplateError>(TemplateError::NotYaml),
            Some(false) => r == Err::<(), TemplateError>(TemplateError::NotMapping),
            Some(true) => r is Ok,
        },
{
    match mapping {
        None => Err(TemplateError::NotYaml),
        Some(false) => Err(TemplateError::NotMapping),
        Some(true) => Ok(()),
    }
}

/// Why a text is not a key.
#[derive(Clone, Copy, Debug, PartialEq, Eq)]
pub enum KeyError {
    NotHex(HexError),
    /// The number of bytes is not that of a key.
    WrongLength,
}

/// The bytes of a trimmed key text: UTF-8 of what is left once white space is gone.
pub open spec fn key_digits(text: Seq<char>) -> Seq<u8> {
    vstd::utf8::encode_utf8(trimmed(text))
}

/// Reads a key: 64 hexadecimal digits, with white space around them allowed.
pub fn parse_key(text: &str) -> (key: Result<Vec<u8>, KeyError>)
    ensures
        ({
            let digits = key_digits(text@);
            match key {
                Ok(bytes) => {
                    &&& digits.len() == 2 * KEY_LEN
                    &&& all_hex(digits)
                    &&& bytes@ == bytes_of_digits(digits)
                },
                Err(KeyError::WrongLength) => {
                    &&& digits.len() % 2 == 0
                    &&& digits.len() != 2 * KEY_LEN
                    &&& all_hex(digits)
                },
                Err(KeyError::NotHex(HexError::OddLength)) => digits.len() % 2 == 1,
                Err(KeyError::NotHex(HexError::InvalidCharacter { c, index })) => {
                    &&& digits.len() % 2 == 0
                    &&& index < digits.len()
                    &&& hex_value(digits[index as int]) is None
                    &&& c == digits[index as int] as char
                    &&& all_hex(digits.take(index as int))
                },
                Err(KeyError::NotHex(HexError::InvalidStringLength)) => false,
            }
        }),
{
    let chars: Vec<char> = chars_of(text);
    assert(chars@.subrange(0, chars@.len() as int) =~= text@);
    let (a, b) = trim_range(&chars, 0, chars.len());
    match decode_hex(text.substring_char(a, b)) {
        Err(e) => Err(KeyError::NotHex(e)),
        Ok(bytes) => if bytes.len() == KEY_LEN {
            Ok(bytes)
        } else {
            Err(KeyError::WrongLength)
        },
    }
}

/// `getrandom::Error`, carried to whoever reports it.
#[verifier::external_type_specification]
#[verifier::external_body]
pub struct RandomSourceError(getrandom::Error);

/// There was no randomness to be had.
pub struct SuffixError {
    pub cause: getrandom::Error,
}

/// `getrandom::fill` on two bytes. Nothing is said of them: they are random.
#[verifier::external_body]
fn random_pair() -> (r: Result<[u8; 2], getrandom::Error>) {
    let mut bytes = [0u8; 2];
    getrandom::fill(&mut bytes).map(|()| bytes)
}

/// The suffix that two bytes give.
pub fn suffix_of(bytes: [u8; 2]) -> (s: String)
    ensures
        s@ == hex_text(bytes@),
        s@.len() == 4,
{
    encode_hex(&bytes)
}

/// The suffix that a draw of two bytes gives: their digits, or the reason why there are none.
pub fn suffix_of_draw(drawn: Result<[u8; 2], getrandom::Error>) -> (s: Result<String, SuffixError>)
    ensures
        match drawn {
            Ok(bytes) => s matches Ok(text) && text@ == hex_text(bytes@),
            Err(cause) => s == Err::<String, SuffixError>(SuffixError { cause }),
        },
{
    match drawn {
        Ok(bytes) => Ok(suffix_of(bytes)),
        Err(cause) => Err(SuffixError { cause }),
    }
}

/// A short random suffix for the ids of control envelopes: four lower-case hexadecimal digits.
/// There is one wherever the system gives two random bytes; whether it does is not said.
pub fn fresh_suffix() -> (s: Result<String, SuffixError>)
    ensures
        s matches Ok(text) ==> exists|bytes: Seq<u8>|
            bytes.len() == 2 && text@ == #[trigger] hex_text(bytes),
{
    let drawn: Result<[u8; 2], getrandom::Error> = random_pair();
    proof {
        if let Ok(bytes) = drawn {
            assert(bytes@.len() == 2);
        }
    }
    suffix_of_draw(drawn)
}

/// How far a veto goes.
#[derive(Clone, Copy, Debug, PartialEq, Eq, Structural)]
pub enum VetoLevel {
    /// Blocks the next entry.
    StopNextEntry,
    /// Cancels resting orders too.
    CancelPending,
    /// Closes open positions too.
    ClosePositions,
}

/// The level as it is sent. The plainest one is left out: the receiver takes its absence for it.
pub fn wire_level(level: VetoLevel) -> (sent: Option<VetoLevel>)
    ensures
        sent == if level == VetoLevel::StopNextEntry {
            None
        } else {
            Some(level)
        },
{
    match level {
        VetoLevel::StopNextEntry => None,
        other => Some(other),
    }
}

/// The names to suggest next time: the one used, then those it clears.
pub fn names_to_remember(name: &String, clears: &Vec<String>) -> (names: Vec<String>)
    ensures
        names@ == seq![*name] + clears@,
{
    let mut names: Vec<String> = Vec::new();
    names.push(name.clone());
    let mut i: usize = 0;
    assert(names@ =~= seq![*name] + clears@.take(0));
    while i < clears.len()
        invariant
            i <= clears@.len(),
            names@ == seq![*name] + clears@.take(i as int),
        decreases clears@.len() - i,
    {
        names.push(clears[i].clone());
        i = i + 1;
        assert(names@ =~= seq![*name] + clears@.take(i as int));
    }
    assert(clears@.take(i as int) =~= clears@);
    names
}

/// Where the input of a decryption comes from.
#[derive(Debug, PartialEq, Eq)]
pub enum InputSource {
    /// The text itself.
    Blob(String),
    /// The file under this path.
    File(String),
    Stdin,
}

/// A blob on the command line comes first, then a file, then standard input.
pub fn input_source(blob: Option<String>, file: Option<String>) -> (source: InputSource)
    ensures
        source == match (blob, file) {
            (Some(b), _) => InputSource::Blob(b),
            (None, Some(f)) => InputSource::File(f),
            (None, None) => InputSource::Stdin,
        },
{
    match (blob, file) {
        (Some(b), _) => InputSource::Blob(b),
        (None, Some(f)) => InputSource::File(f),
        (None, None) => InputSource::Stdin,
    }
}

/// The text with a line end after it, unless it has one.
pub open spec fn ending_line(text: Seq<char>) -> Seq<char> {
    if text.len() > 0 && text.last() == '\n' {
        text
    } else {
        text.push('\n')
    }
}

/// The text as it is printed: with a line end after it, unless it has one.
pub fn with_line_end(text: String) -> (out: String)
    ensures
        out@ == ending_line(text@),
{
    let chars: Vec<char> = chars_of(text.as_str());
    let mut out: String = text;
    if chars.len() == 0 || chars[chars.len() - 1] != '\n' {
        out.push('\n');
    }
    out
}

/// Where the template of an encryption comes from.
#[derive(Debug, PartialEq, Eq)]
pub enum TemplateSource {
    /// The file under this path.
    File(String),
    /// The user picks one.
    Ask,
    /// None is given and the user may not be asked.
    Missing,
}

/// A given template is used; without one the user is asked, unless nobody may be.
pub fn template_source(template: Option<String>, non_interactive: bool) -> (source: TemplateSource)
    ensures
        source == match template {
            Some(p) => TemplateSource::File(p),
            None => if non_interactive {
                TemplateSource::Missing
            } else {
                TemplateSource::Ask
            },
        },
{
    match template {
        Some(p) => TemplateSource::File(p),
        None => if non_interactive {
            TemplateSource::Missing
        } else {
            TemplateSource::Ask
        },
    }
}

/// A bare blob gives itself, whatever white space and whichever pair of quotes stand around it, as
/// long as it does not hold that quote mark itself.
pub proof fn a_bare_blob_is_its_own_payload(input: Seq<char>, field: Option<Seq<char>>)
    requires
        starts(unquoted(input), "v1."@),
        !unquoted(input).contains(trimmed(input)[0]) || starts(trimmed(input), "v1."@),
    ensures
        payload_of(input, field) == Some(unquoted(input)),
{
    reveal_strlit("v1.");
    let t = trimmed(input);
    trimming_is_idempotent(input);
    if starts(t, "v1."@) {
        assert(t.subrange(0, 3)[0] == 'v');
        assert(t[0] == 'v');
    }
}

/// White space around an input is no part of it: the input has the payload that it has trimmed.
pub proof fn space_around_an_input_does_not_matter(input: Seq<char>, field: Option<Seq<char>>)
    ensures
        payload_of(input, field) == payload_of(trimmed(input), field),
{
    trimming_is_idempotent(input);
}

/// What is trimmed has no white space at either end, so trimming it again changes nothing.
pub proof fn trimming_is_idempotent(text: Seq<char>)
    ensures
        trimmed(trimmed(text)) == trimmed(text),
{
    let s = trim_start(text);
    let t = trim_end(s);
    trim_start_leaves_no_space(text);
    trim_end_keeps_the_start(s);
    trim_end_leaves_no_space(s);
}

proof fn trim_start_leaves_no_space(text: Seq<char>)
    ensures
        ({
            let s = trim_start(text);
            s.len() > 0 ==> !is_space(s[0])
        }),
    decreases text.len(),
{
    if text.len() > 0 && is_space(text[0]) {
        trim_start_leaves_no_space(text.drop_first());
    }
}

proof fn trim_end_leaves_no_space(text: Seq<char>)
    ensures
        ({
            let s = trim_end(text);
            s.len() > 0 ==> !is_space(s.last())
        }),
    decreases text.len(),
{
    if text.len() > 0 && is_space(text.last()) {
        trim_end_leaves_no_space(text.drop_last());
    }
}

proof fn trim_end_keeps_the_start(text: Seq<char>)
    ensures
        ({
            let s = trim_end(text);
            s.len() <= text.len() && (s.len() > 0 ==> s[0] == text[0])
        }),
    decreases text.len(),
{
    if text.len() > 0 && is_space(text.last()) {
        trim_end_keeps_the_start(text.drop_last());
    }
}

/// Trimming takes white space off both ends and nothing else: what is left is a piece of the text
/// that neither starts nor ends with white space, and all around it is white space.
pub proof fn trimming_takes_the_space_around(text: Seq<char>) -> (r: (int, int))
    ensures
        0 <= r.0 <= r.1 <= text.len(),
        trimmed(text) == text.subrange(r.0, r.1),
        forall|i: int|
            0 <= i < r.0 || r.1 <= i < text.len() ==> is_space(#[trigger] text[i]),
        r.0 < r.1 ==> !is_space(text[r.0]) && !is_space(text[r.1 - 1]),
{
    let a = leading_space(text);
    let s = trim_start(text);
    let n = trailing_space(s);
    let b = text.len() - n;
    assert(s =~= text.subrange(a, text.len() as int));
    assert(trim_end(s) =~= text.subrange(a, b));
    assert forall|i: int| 0 <= i < a || b <= i < text.len() implies is_space(#[trigger] text[i]) by {
        if i >= b {
            assert(s[i - a] == text[i]);
        }
    }
    trim_start_leaves_no_space(text);
    if a < b {
        assert(s[0] == text[a]);
        trim_end_leaves_no_space(s);
        assert(trim_end(s).last() == text[b - 1]);
    }
    (a, b)
}

proof fn leading_space(text: Seq<char>) -> (a: int)
    ensures
        0 <= a <= text.len(),
        trim_start(text) == text.skip(a),
        forall|i: int| 0 <= i < a ==> is_space(#[trigger] text[i]),
    decreases text.len(),
{
    if text.len() > 0 && is_space(text[0]) {
        let a = leading_space(text.drop_first());
        assert(text.drop_first().skip(a) =~= text.skip(a + 1));
        assert forall|i: int| 0 <= i < a + 1 implies is_space(#[trigger] text[i]) by {
            if i > 0 {
                assert(text.drop_first()[i - 1] == text[i]);
            }
        }
        a + 1
    } else {
        assert(text.skip(0) =~= text);
        0
    }
}

proof fn trailing_space(text: Seq<char>) -> (n: int)
    ensures
        0 <= n <= text.len(),
        trim_end(text) == text.take(text.len() - n),
        forall|i: int| text.len() - n <= i < text.len() ==> is_space(#[trigger] text[i]),
    decreases text.len(),
{
    if text.len() > 0 && is_space(text.last()) {
        let less = text.drop_last();
        let n = trailing_space(less);
        assert(less.take(less.len() - n) =~= text.take(text.len() - (n + 1)));
        assert forall|i: int| text.len() - (n + 1) <= i < text.len() implies is_space(
            #[trigger] text[i],
        ) by {
            if i < less.len() {
                assert(less[i] == text[i]);
            }
        }
        n + 1
    } else {
        assert(text.take(text.len() as int) =~= text);
        0
    }
}

/// Quotes are taken off in pairs: of the trimmed text, the first and the last character where both
/// are the same quote mark and there are two of them, and nothing else.
pub proof fn quotes_are_taken_off_in_pairs(text: Seq<char>)
    ensures
        ({
            let t = trimmed(text);
            let n = t.len() as int;
            let paired = n >= 2 && t[0] == t[n - 1] && (t[0] == '"' || t[0] == '\'');
            &&& paired ==> unquoted(text) == t.subrange(1, n - 1)
            &&& !paired ==> unquoted(text) == t
        }),
{
}

/// `a..b` is a line of the text: it begins at the start or behind a line end, and runs to the next
/// one or to the end.
pub open spec fn is_line(text: Seq<char>, a: int, b: int) -> bool {
    &&& 0 <= a <= b <= text.len()
    &&& a == 0 || text[a - 1] == '\n'
    &&& b == text.len() || text[b] == '\n'
    &&& forall|i: int| a <= i < b ==> #[trigger] text[i] != '\n'
}

/// The line reads `payload:` and then a payload.
pub open spec fn line_holds(text: Seq<char>, a: int, b: int, p: Seq<char>) -> bool {
    let l = trimmed(text.subrange(a, b));
    &&& is_line(text, a, b)
    &&& l.len() >= 8 && l.take(8) == "payload:"@
    &&& p == unquoted(l.skip(8))
    &&& p.len() >= 3 && p.take(3) == "v1."@
}

proof fn the_first_line_ends_at_a_line_end(text: Seq<char>)
    ensures
        first_line(text) <= text.len(),
        first_line(text) == text.len() || text[first_line(text) as int] == '\n',
        forall|i: int| 0 <= i < first_line(text) ==> #[trigger] text[i] != '\n',
    decreases text.len(),
{
    if text.len() > 0 && text[0] != '\n' {
        let rest = text.drop_first();
        the_first_line_ends_at_a_line_end(rest);
        assert forall|i: int| 0 <= i < first_line(text) implies #[trigger] text[i] != '\n' by {
            if i > 0 {
                assert(rest[i - 1] == text[i]);
            }
        }
        if first_line(text) < text.len() {
            assert(rest[first_line(rest) as int] == text[first_line(text) as int]);
        }
    }
}

proof fn a_line_is_read_as_its_payload(text: Seq<char>, a: int, b: int)
    requires
        is_line(text, a, b),
    ensures
        match payload_on(text.subrange(a, b)) {
            Some(p) => line_holds(text, a, b, p),
            None => forall|p: Seq<char>| !#[trigger] line_holds(text, a, b, p),
        },
{
    reveal_strlit("payload:");
    reveal_strlit("v1.");
    let l = trimmed(text.subrange(a, b));
    let v = unquoted(l.skip(8));
    assert("payload:"@.len() == 8 && "v1."@.len() == 3);
    assert(l.len() >= 8 ==> l.take(8) =~= l.subrange(0, 8));
    assert(v.len() >= 3 ==> v.take(3) =~= v.subrange(0, 3));
}

proof fn lines_are_searched_from(text: Seq<char>, from: int)
    requires
        0 <= from <= text.len(),
        from == 0 || text[from - 1] == '\n',
    ensures
        match payload_by_line(text.skip(from)) {
            Some(p) => exists|a: int, b: int|
                {
                    &&& from <= a
                    &&& #[trigger] line_holds(text, a, b, p)
                    &&& forall|c: int, d: int, q: Seq<char>|
                        from <= c < a ==> !#[trigger] line_holds(text, c, d, q)
                },
            None => forall|c: int, d: int, q: Seq<char>|
                from <= c ==> !#[trigger] line_holds(text, c, d, q),
        },
    decreases text.len() - from,
{
    let rest = text.skip(from);
    let n = first_line(rest) as int;
    the_first_line_ends_at_a_line_end(rest);
    let end = from + n;
    assert(rest.take(n) =~= text.subrange(from, end));
    assert(forall|i: int| from <= i < text.len() ==> rest[i - from] == #[trigger] text[i]);
    assert(is_line(text, from, end)) by {
        assert forall|i: int| from <= i < end implies #[trigger] text[i] != '\n' by {
            assert(rest[i - from] == text[i]);
        }
    }
    a_line_is_read_as_its_payload(text, from, end);
    assert forall|c: int, d: int| from <= c && #[trigger] is_line(text, c, d) implies (c == from && d
        == end) || c > end by {
        if c == from {
            if d < end {
                assert(text[d] != '\n');
            }
            if d > end {
                assert(text[end] != '\n');
            }
        } else if c <= end {
            assert(text[c - 1] != '\n');
        }
    }
    match payload_on(rest.take(n)) {
        Some(p) => {
            assert(line_holds(text, from, end, p));
        },
        None => {
            if n < rest.len() {
                assert(rest.skip(n + 1) =~= text.skip(end + 1));
                lines_are_searched_from(text, end + 1);
            }
            assert forall|c: int, d: int, q: Seq<char>|
                from <= c <= end implies !#[trigger] line_holds(text, c, d, q) by {
                if line_holds(text, c, d, q) {
                    assert(is_line(text, c, d));
                }
            }
            if n >= rest.len() {
                assert forall|c: int, d: int, q: Seq<char>|
                    from <= c implies !#[trigger] line_holds(text, c, d, q) by {
                    if line_holds(text, c, d, q) {
                        assert(is_line(text, c, d));
                    }
                }
            }
        },
    }
}

/// The payload of a body that is read line by line is that of the first line that reads `payload:`
/// and then, unquoted, something that starts with `v1.`; there is none only where no line does.
pub proof fn the_first_line_with_a_payload_counts(text: Seq<char>)
    ensures
        match payload_by_line(text) {
            Some(p) => exists|a: int, b: int|
                {
                    &&& #[trigger] line_holds(text, a, b, p)
                    &&& forall|c: int, d: int, q: Seq<char>|
                        0 <= c < a ==> !#[trigger] line_holds(text, c, d, q)
                },
            None => forall|c: int, d: int, q: Seq<char>| !#[trigger] line_holds(text, c, d, q),
        },
{
    assert(text.skip(0) =~= text);
    lines_are_searched_from(text, 0);
}

/// Whatever is found as a payload starts with `v1.`, and it is looked for in this order: the input
/// as a bare blob, its YAML field, its lines.
pub proof fn a_payload_is_looked_for_in_order(input: Seq<char>, field: Option<Seq<char>>)
    ensures
        payload_of(input, field) matches Some(p) ==> p.len() >= 3 && p.take(3) == "v1."@,
        bare_blob(input) is Some ==> payload_of(input, field) == bare_blob(input),
        bare_blob(input) is None && field is Some && field->0.len() >= 3 && field->0.take(3)
            == "v1."@ ==> payload_of(input, field) == field,
        bare_blob(input) is None && !(field is Some && field->0.len() >= 3 && field->0.take(3)
            == "v1."@) ==> payload_of(input, field) == payload_by_line(trimmed(input)),
{
    reveal_strlit("v1.");
    let v1 = "v1."@;
    assert(v1.len() == 3);
    assert(forall|s: Seq<char>|
        #![trigger starts(s, v1)]
        starts(s, v1) ==> s.len() >= 3 && s.take(3) =~= s.subrange(0, 3) && s.take(3) == v1);
    assert(field is Some && field->0.len() >= 3 ==> field->0.take(3) =~= field->0.subrange(0, 3));
    if bare_blob(input) is Some {
        assert(starts(bare_blob(input)->0, v1));
    }
    the_first_line_with_a_payload_counts(trimmed(input));
}

/// A bare blob is the trimmed input where that starts with `v1.`, or what stands between its quotes
/// where it is in one pair of them and holds no such mark; nothing else is a bare blob.
pub proof fn a_bare_blob_stands_alone(input: Seq<char>)
    ensures
        ({
            let t = trimmed(input);
            let n = t.len() as int;
            let plain = n >= 3 && t.take(3) == "v1."@;
            let quoted = n >= 5 && t[0] == t[n - 1] && (t[0] == '"' || t[0] == '\'') && t.subrange(
                1,
                4,
            ) == "v1."@ && forall|i: int| 0 < i < n - 1 ==> #[trigger] t[i] != t[0];
            match bare_blob(input) {
                Some(b) => (plain && b == t) || (quoted && b == t.subrange(1, n - 1)),
                None => !plain && !quoted,
            }
        }),
{
    reveal_strlit("v1.");
    let t = trimmed(input);
    let n = t.len() as int;
    let inner = unquoted(input);
    assert("v1."@.len() == 3);
    assert(n >= 3 ==> t.take(3) =~= t.subrange(0, 3));
    if quoted_by(t, '"') || quoted_by(t, '\'') {
        assert(inner == t.subrange(1, n - 1));
        assert(inner.len() >= 3 ==> inner.subrange(0, 3) =~= t.subrange(1, 4));
        if !inner.contains(t[0]) {
            assert forall|i: int| 0 < i < n - 1 implies #[trigger] t[i] != t[0] by {
                assert(inner[i - 1] == t[i]);
                assert(inner.contains(inner[i - 1]));
            }
        } else {
            let j = choose|j: int| 0 <= j < inner.len() && inner[j] == t[0];
            assert(t[j + 1] == t[0]);
        }
    }
}

/// What is printed ends its line: a text that ends with a line end stays, and any other gets one.
pub proof fn a_printed_text_ends_its_line(text: Seq<char>)
    ensures
        ({
            let out = ending_line(text);
            &&& out.len() > 0 && out[out.len() - 1] == '\n'
            &&& out == text || out == text + seq!['\n']
            &&& text.len() > 0 && text[text.len() - 1] == '\n' ==> out == text
        }),
{
    assert(text.push('\n') =~= text + seq!['\n']);
}

} // verus!
