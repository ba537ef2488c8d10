//! The JSON reader of capture records: objects, strings, numbers, booleans
//! and null, read from the characters of one line.

use vstd::prelude::*;

use crate::text::{char_code, chars_of, concat, decimal, decimal_text, owned, string_from_chars};

verus! {

/// A JSON value. Numbers are kept as their numerals; an object keeps its
/// fields in the order they were read, each name once.
pub enum JsonView {
    Null,
    Bool(bool),
    Number(Seq<char>),
    Text(Seq<char>),
    Object(Seq<(Seq<char>, JsonView)>),
}

/// Why a line is not JSON, and the byte (counted from zero) where the reader
/// stood.
pub struct JsonError {
    pub message: Seq<char>,
    pub byte: int,
}

/// The number of bytes of a character in UTF-8.
pub open spec fn utf8_width(c: char) -> int {
    if (c as int) < 0x80 {
        1
    } else if (c as int) < 0x800 {
        2
    } else if (c as int) < 0x10000 {
        3
    } else {
        4
    }
}

/// The number of bytes of the first `k` characters in UTF-8.
pub open spec fn bytes_before(s: Seq<char>, k: int) -> int
    decreases k,
{
    if k <= 0 || s.len() == 0 {
        0
    } else if k > s.len() {
        bytes_before(s, s.len() as int)
    } else {
        bytes_before(s, k - 1) + utf8_width(s[k - 1])
    }
}

pub open spec fn fail<A>(s: Seq<char>, message: Seq<char>, at: int) -> Result<A, JsonError> {
    Err(JsonError { message, byte: bytes_before(s, at) })
}

pub open spec fn is_json_space(c: char) -> bool {
    c == ' ' || c == '\t' || c == '\r' || c == '\n'
}

pub open spec fn is_digit(c: char) -> bool {
    '0' <= c && c <= '9'
}

pub open spec fn hex_value(c: char) -> int {
    if '0' <= c && c <= '9' {
        c as int - '0' as int
    } else if 'a' <= c && c <= 'f' {
        c as int - 'a' as int + 10
    } else {
        c as int - 'A' as int + 10
    }
}

pub open spec fn is_hex_digit(c: char) -> bool {
    ('0' <= c && c <= '9') || ('a' <= c && c <= 'f') || ('A' <= c && c <= 'F')
}

/// The first position at or after `p` that is not JSON whitespace.
pub open spec fn skip_space(s: Seq<char>, p: int) -> int
    decreases s.len() - p,
{
    if 0 <= p < s.len() && is_json_space(s[p]) {
        skip_space(s, p + 1)
    } else {
        p
    }
}

/// The first position at or after `p` that is not a digit.
pub open spec fn skip_digits(s: Seq<char>, p: int) -> int
    decreases s.len() - p,
{
    if 0 <= p < s.len() && is_digit(s[p]) {
        skip_digits(s, p + 1)
    } else {
        p
    }
}

/// The character a one-letter escape stands for, or `None`.
pub open spec fn simple_escape(c: char) -> Option<char> {
    if c == '"' {
        Some('"')
    } else if c == '\\' {
        Some('\\')
    } else if c == '/' {
        Some('/')
    } else if c == 'b' {
        Some('\u{08}')
    } else if c == 'f' {
        Some('\u{0c}')
    } else if c == 'n' {
        Some('\n')
    } else if c == 'r' {
        Some('\r')
    } else if c == 't' {
        Some('\t')
    } else {
        None
    }
}

/// The code point of the four hexadecimal digits at `p`, read so far up to
/// `k` digits.
pub open spec fn hex_prefix(s: Seq<char>, p: int, k: int) -> int
    decreases k,
{
    if k <= 0 {
        0
    } else {
        hex_prefix(s, p, k - 1) * 16 + hex_value(s[p + k - 1])
    }
}

/// A code point that is a character: not a surrogate, at most `0x10FFFF`.
pub open spec fn is_scalar(value: int) -> bool {
    (0 <= value < 0xD800) || (0xE000 <= value <= 0x10FFFF)
}

/// The character of a `\u` escape whose digits start at `p`, and the
/// position after them.
pub open spec fn unicode_escape(s: Seq<char>, p: int) -> Result<(char, int), JsonError> {
    let k = first_bad_hex(s, p, 0);
    if k < 4 && p + k >= s.len() {
        fail(s, "short unicode escape"@, p + k)
    } else if k < 4 {
        Err(JsonError { message: "invalid unicode escape"@, byte: bytes_before(s, p + k) + 1 })
    } else if !is_scalar(hex_prefix(s, p, 4)) {
        fail(s, "invalid unicode code point"@, p + 4)
    } else {
        Ok((hex_prefix(s, p, 4) as char, p + 4))
    }
}

/// The first of the four escape digits at `p` that is missing or not
/// hexadecimal, counted from `k`.
pub open spec fn first_bad_hex(s: Seq<char>, p: int, k: int) -> int
    decreases 4 - k,
{
    if k >= 4 {
        4
    } else if p + k >= s.len() || !is_hex_digit(s[p + k]) {
        k
    } else {
        first_bad_hex(s, p, k + 1)
    }
}

/// The characters of a string whose opening quote is before `p`, read on
/// from `p` after `text`, and the position after the closing quote.
pub open spec fn string_body(s: Seq<char>, p: int, text: Seq<char>) -> Result<(Seq<char>, int), JsonError>
    decreases s.len() - p,
{
    if p < 0 || p >= s.len() {
        fail(s, "unterminated JSON string"@, p)
    } else {
        let c = s[p];
        if c == '"' {
            Ok((text, p + 1))
        } else if c == '\\' {
            if p + 1 >= s.len() {
                fail(s, "unterminated JSON escape"@, p + 1)
            } else if simple_escape(s[p + 1]) is Some {
                string_body(s, p + 2, text.push(simple_escape(s[p + 1]).unwrap()))
            } else if s[p + 1] == 'u' {
                match unicode_escape(s, p + 2) {
                    Ok((decoded, next)) => if p < next <= s.len() {
                        string_body(s, next, text.push(decoded))
                    } else {
                        fail(s, "unterminated JSON string"@, p)
                    },
                    Err(error) => Err(error),
                }
            } else {
                Err(JsonError { message: "invalid JSON escape"@, byte: bytes_before(s, p + 1) + 1 })
            }
        } else if (c as int) < 0x20 {
            fail(s, "control character in JSON string"@, p + 1)
        } else {
            string_body(s, p + 1, text.push(c))
        }
    }
}

/// A string starting at `p` with its opening quote.
pub open spec fn json_string(s: Seq<char>, p: int) -> Result<(Seq<char>, int), JsonError> {
    if 0 <= p < s.len() && s[p] == '"' {
        string_body(s, p + 1, Seq::empty())
    } else {
        fail(s, "expected '\"'"@, p)
    }
}

/// The end of the exponent part of a number from `i` on.
pub open spec fn after_fraction(s: Seq<char>, i: int) -> Result<int, JsonError> {
    if 0 <= i < s.len() && (s[i] == 'e' || s[i] == 'E') {
        let j = if i + 1 < s.len() && (s[i + 1] == '+' || s[i + 1] == '-') {
            i + 2
        } else {
            i + 1
        };
        if j < s.len() && is_digit(s[j]) {
            Ok(skip_digits(s, j))
        } else {
            fail(s, "invalid JSON number"@, j)
        }
    } else {
        Ok(i)
    }
}

/// The end of the fraction and exponent parts of a number from `i` on.
pub open spec fn after_integral(s: Seq<char>, i: int) -> Result<int, JsonError> {
    if 0 <= i < s.len() && s[i] == '.' {
        if i + 1 < s.len() && is_digit(s[i + 1]) {
            after_fraction(s, skip_digits(s, i + 1))
        } else {
            fail(s, "invalid JSON number"@, i + 1)
        }
    } else {
        after_fraction(s, i)
    }
}

/// The end of a number starting at `p`, or why it is not one.
pub open spec fn number_end(s: Seq<char>, p: int) -> Result<int, JsonError> {
    let q = if 0 <= p < s.len() && s[p] == '-' {
        p + 1
    } else {
        p
    };
    if 0 <= q < s.len() && s[q] == '0' {
        after_integral(s, q + 1)
    } else if 0 <= q < s.len() && '1' <= s[q] && s[q] <= '9' {
        after_integral(s, skip_digits(s, q + 1))
    } else {
        fail(s, "invalid JSON number"@, q)
    }
}

/// A literal word at `p`.
pub open spec fn json_literal(s: Seq<char>, p: int, word: Seq<char>, value: JsonView) -> Result<(JsonView, int), JsonError> {
    if 0 <= p && p + word.len() <= s.len() && s.subrange(p, p + word.len()) == word {
        Ok((value, p + word.len()))
    } else {
        fail(s, "invalid JSON literal"@, p)
    }
}

/// Whether a field of the name is among the fields.
pub open spec fn has_field(fields: Seq<(Seq<char>, JsonView)>, name: Seq<char>) -> bool {
    exists|i: int| 0 <= i < fields.len() && (#[trigger] fields[i]).0 == name
}

/// A JSON value starting at `p`, after any whitespace, and the position
/// after it.
pub open spec fn json_value(s: Seq<char>, p: int) -> Result<(JsonView, int), JsonError>
    decreases s.len() - p, 2int,
{
    let q = skip_space(s, p);
    if q < p || q < 0 || q >= s.len() {
        fail(s, "expected a JSON value"@, q)
    } else {
        let c = s[q];
        if c == 'n' {
            json_literal(s, q, "null"@, JsonView::Null)
        } else if c == 't' {
            json_literal(s, q, "true"@, JsonView::Bool(true))
        } else if c == 'f' {
            json_literal(s, q, "false"@, JsonView::Bool(false))
        } else if c == '"' {
            match json_string(s, q) {
                Ok((text, next)) => Ok((JsonView::Text(text), next)),
                Err(error) => Err(error),
            }
        } else if c == '{' {
            json_object(s, q)
        } else if c == '-' || is_digit(c) {
            match number_end(s, q) {
                Ok(end) => Ok((JsonView::Number(s.subrange(q, end)), end)),
                Err(error) => Err(error),
            }
        } else {
            fail(s, "expected a JSON value"@, q)
        }
    }
}

/// An object whose opening brace is at `p`.
pub open spec fn json_object(s: Seq<char>, p: int) -> Result<(JsonView, int), JsonError>
    decreases s.len() - p, 1int,
{
    if 0 <= p < s.len() && s[p] == '{' {
        let q = skip_space(s, p + 1);
        if q < p + 1 || q > s.len() {
            fail(s, "expected '{'"@, p)
        } else if q < s.len() && s[q] == '}' {
            Ok((JsonView::Object(Seq::empty()), q + 1))
        } else {
            match json_members(s, q, Seq::empty()) {
                Ok((fields, next)) => Ok((JsonView::Object(fields), next)),
                Err(error) => Err(error),
            }
        }
    } else {
        fail(s, "expected '{'"@, p)
    }
}

/// The fields of an object from `p` on, after `fields`, and the position
/// after its closing brace.
pub open spec fn json_members(s: Seq<char>, p: int, fields: Seq<(Seq<char>, JsonView)>) -> Result<
    (Seq<(Seq<char>, JsonView)>, int),
    JsonError,
>
    decreases s.len() - p, 0int,
{
    let q = skip_space(s, p);
    match json_string(s, q) {
        Err(error) => Err(error),
        Ok((name, after_name)) => {
            let colon = skip_space(s, after_name);
            if !(0 <= colon < s.len() && s[colon] == ':') {
                fail(s, "expected ':'"@, colon)
            } else if colon + 1 <= p {
                fail(s, "expected ':'"@, colon)
            } else {
                match json_value(s, colon + 1) {
                    Err(error) => Err(error),
                    Ok((value, after_value)) => {
                        if has_field(fields, name) {
                            fail(s, "duplicate object field"@, after_value)
                        } else {
                            let more = fields.push((name, value));
                            let next = skip_space(s, after_value);
                            if 0 <= next < s.len() && s[next] == '}' {
                                Ok((more, next + 1))
                            } else if 0 <= next < s.len() && s[next] == ',' {
                                if p < next + 1 <= s.len() {
                                    json_members(s, next + 1, more)
                                } else {
                                    fail(s, "expected ','"@, next)
                                }
                            } else {
                                fail(s, "expected ','"@, next)
                            }
                        }
                    },
                }
            }
        },
    }
}

/// The object of one record line: a JSON object and nothing after it but
/// whitespace.
pub open spec fn json_record(s: Seq<char>) -> Result<Seq<(Seq<char>, JsonView)>, JsonError> {
    match json_value(s, 0) {
        Err(error) => Err(error),
        Ok((value, next)) => {
            let end = skip_space(s, next);
            if end != s.len() {
                fail(s, "trailing characters"@, end)
            } else {
                match value {
                    JsonView::Object(fields) => Ok(fields),
                    _ => fail(s, "record must be a JSON object"@, end),
                }
            }
        },
    }
}

/// The message of a reading error on a line.
pub open spec fn json_error_text(line: nat, error: JsonError) -> Seq<char> {
    "line "@ + decimal(line) + ": "@ + error.message + " at byte "@ + decimal((error.byte + 1) as nat)
}


/// `char::from_u32`: the character of a code point, or `None` for a
/// surrogate or a value above `0x10FFFF`.
#[verifier::external_body]
fn char_from_u32(value: u32) -> (r: Option<char>)
    ensures
        r == (if is_scalar(value as int) {
            Some(value as char)
        } else {
            None
        }),
{
    char::from_u32(value)
}

/// A JSON value as read: numbers as numerals, object fields in order.
#[derive(Debug, PartialEq, Eq)]
pub enum Json {
    Null,
    Bool(bool),
    Number(String),
    Text(String),
    Object(Vec<(String, Json)>),
}

pub open spec fn json_view(value: Json) -> JsonView
    decreases value,
{
    match value {
        Json::Null => JsonView::Null,
        Json::Bool(b) => JsonView::Bool(b),
        Json::Number(n) => JsonView::Number(n@),
        Json::Text(t) => JsonView::Text(t@),
        Json::Object(fields) => JsonView::Object(fields_view(fields@)),
    }
}

pub open spec fn fields_view(fields: Seq<(String, Json)>) -> Seq<(Seq<char>, JsonView)>
    decreases fields,
{
    if fields.len() == 0 {
        Seq::empty()
    } else {
        let last = fields[fields.len() - 1];
        fields_view(fields.subrange(0, fields.len() - 1)).push((last.0@, json_view(last.1)))
    }
}

/// A reading error as computed: the message and the byte where it arose.
pub struct JsonFailure {
    pub message: String,
    pub byte: u64,
}

pub open spec fn failure_view(f: JsonFailure) -> JsonError {
    JsonError { message: f.message@, byte: f.byte as int }
}

pub open spec fn width_sum_fits(s: Seq<char>) -> bool {
    s.len() <= u64::MAX / 4
}

proof fn lemma_bytes_before_bound(s: Seq<char>, k: int)
    requires
        0 <= k <= s.len(),
    ensures
        0 <= bytes_before(s, k) <= 4 * k,
    decreases k,
{
    if k > 0 {
        lemma_bytes_before_bound(s, k - 1);
    }
}

fn byte_offset(s: &Vec<char>, k: usize) -> (r: u64)
    requires
        k <= s@.len(),
        width_sum_fits(s@),
    ensures
        r as int == bytes_before(s@, k as int),
{
    let mut total: u64 = 0;
    let mut i: usize = 0;
    while i < k
        invariant
            i <= k <= s@.len(),
            width_sum_fits(s@),
            total as int == bytes_before(s@, i as int),
        decreases k - i,
    {
        proof {
            lemma_bytes_before_bound(s@, i + 1);
        }
        let code = char_code(s[i]);
        let width: u64 = if code < 0x80 {
            1
        } else if code < 0x800 {
            2
        } else if code < 0x10000 {
            3
        } else {
            4
        };
        total = total + width;
        i += 1;
    }
    total
}

fn failure(s: &Vec<char>, message: &str, at: usize) -> (r: JsonFailure)
    requires
        at <= s@.len(),
        width_sum_fits(s@),
    ensures
        failure_view(r) == (JsonError { message: message@, byte: bytes_before(s@, at as int) }),
{
    JsonFailure { message: owned(message), byte: byte_offset(s, at) }
}

fn skip_space_exec(s: &Vec<char>, p: usize) -> (r: usize)
    requires
        p <= s@.len(),
    ensures
        r as int == skip_space(s@, p as int),
        p <= r <= s@.len(),
{
    let mut q = p;
    while q < s.len() && (s[q] == ' ' || s[q] == '\t' || s[q] == '\r' || s[q] == '\n')
        invariant
            p <= q <= s@.len(),
            skip_space(s@, p as int) == skip_space(s@, q as int),
        decreases s@.len() - q,
    {
        q += 1;
    }
    q
}

fn skip_digits_exec(s: &Vec<char>, p: usize) -> (r: usize)
    requires
        p <= s@.len(),
    ensures
        r as int == skip_digits(s@, p as int),
        p <= r <= s@.len(),
{
    let mut q = p;
    while q < s.len() && '0' <= s[q] && s[q] <= '9'
        invariant
            p <= q <= s@.len(),
            skip_digits(s@, p as int) == skip_digits(s@, q as int),
        decreases s@.len() - q,
    {
        q += 1;
    }
    q
}

fn hex_digit(c: char) -> (r: Option<u32>)
    ensures
        is_hex_digit(c) ==> (r matches Some(v) && v as int == hex_value(c)),
        !is_hex_digit(c) ==> r is None,
{
    let code = char_code(c);
    if '0' <= c && c <= '9' {
        Some((code - 48) as u32)
    } else if 'a' <= c && c <= 'f' {
        Some((code - 87) as u32)
    } else if 'A' <= c && c <= 'F' {
        Some((code - 55) as u32)
    } else {
        None
    }
}

fn unicode_exec(s: &Vec<char>, p: usize) -> (r: Result<(char, usize), JsonFailure>)
    requires
        p <= s@.len(),
        width_sum_fits(s@),
    ensures
        match unicode_escape(s@, p as int) {
            Ok((c, next)) => (r matches Ok((d, n)) && d == c && n as int == next && n == p + 4 && n <= s@.len()),
            Err(error) => (r matches Err(f) && failure_view(f) == error),
        },
{
    let n = s.len();
    let mut value: u32 = 0;
    let mut k: usize = 0;
    while k < 4
        invariant
            k <= 4,
            n == s@.len(),
            p + k <= n,
            width_sum_fits(s@),
            first_bad_hex(s@, p as int, 0) == first_bad_hex(s@, p as int, k as int),
            value as int == hex_prefix(s@, p as int, k as int),
            (value as int) < (if k == 0 {
                1int
            } else if k == 1 {
                16int
            } else if k == 2 {
                256int
            } else if k == 3 {
                4096int
            } else {
                65536int
            }),
        decreases 4 - k,
    {
        if p + k == n {
            return Err(failure(s, "short unicode escape", p + k));
        }
        match hex_digit(s[p + k]) {
            Some(digit) => {
                value = value * 16 + digit;
            },
            None => {
                let at = byte_offset(s, p + k);
                proof {
                    lemma_bytes_before_bound(s@, (p + k) as int);
                }
                return Err(JsonFailure { message: owned("invalid unicode escape"), byte: at + 1 });
            },
        }
        k += 1;
    }
    match char_from_u32(value) {
        Some(c) => Ok((c, p + 4)),
        None => Err(failure(s, "invalid unicode code point", p + 4)),
    }
}


fn simple_escape_exec(c: char) -> (r: Option<char>)
    ensures
        r == simple_escape(c),
{
    if c == '"' {
        Some('"')
    } else if c == '\\' {
        Some('\\')
    } else if c == '/' {
        Some('/')
    } else if c == 'b' {
        Some('\u{08}')
    } else if c == 'f' {
        Some('\u{0c}')
    } else if c == 'n' {
        Some('\n')
    } else if c == 'r' {
        Some('\r')
    } else if c == 't' {
        Some('\t')
    } else {
        None
    }
}

fn string_exec(s: &Vec<char>, p: usize) -> (r: Result<(String, usize), JsonFailure>)
    requires
        p <= s@.len(),
        width_sum_fits(s@),
    ensures
        match json_string(s@, p as int) {
            Ok((text, next)) => (r matches Ok((t, n)) && t@ == text && n as int == next && p < n <= s@.len()),
            Err(error) => (r matches Err(f) && failure_view(f) == error),
        },
{
    let n = s.len();
    if !(p < n && s[p] == '"') {
        return Err(failure(s, "expected '\"'", p));
    }
    let mut text: Vec<char> = Vec::new();
    let mut q = p + 1;
    while q < n
        invariant
            p < q <= n,
            n == s@.len(),
            width_sum_fits(s@),
            json_string(s@, p as int) == string_body(s@, q as int, text@),
        decreases n - q,
    {
        let c = s[q];
        if c == '"' {
            return Ok((string_from_chars(text.as_slice()), q + 1));
        } else if c == '\\' {
            if q + 1 == n {
                return Err(failure(s, "unterminated JSON escape", q + 1));
            }
            match simple_escape_exec(s[q + 1]) {
                Some(e) => {
                    text.push(e);
                    q = q + 2;
                },
                None => {
                    if s[q + 1] == 'u' {
                        match unicode_exec(s, q + 2) {
                            Ok((decoded, next)) => {
                                text.push(decoded);
                                q = next;
                            },
                            Err(f) => {
                                return Err(f);
                            },
                        }
                    } else {
                        let at = byte_offset(s, q + 1);
                        proof {
                            lemma_bytes_before_bound(s@, (q + 1) as int);
                        }
                        return Err(JsonFailure { message: owned("invalid JSON escape"), byte: at + 1 });
                    }
                },
            }
        } else if char_code(c) < 0x20 {
            return Err(failure(s, "control character in JSON string", q + 1));
        } else {
            text.push(c);
            q = q + 1;
        }
    }
    Err(failure(s, "unterminated JSON string", q))
}

fn after_fraction_exec(s: &Vec<char>, i: usize) -> (r: Result<usize, JsonFailure>)
    requires
        i <= s@.len(),
        width_sum_fits(s@),
    ensures
        match after_fraction(s@, i as int) {
            Ok(end) => (r matches Ok(e) && e as int == end && i <= e <= s@.len()),
            Err(error) => (r matches Err(f) && failure_view(f) == error),
        },
{
    let n = s.len();
    if i < n && (s[i] == 'e' || s[i] == 'E') {
        let j = if i + 1 < n && (s[i + 1] == '+' || s[i + 1] == '-') {
            i + 2
        } else {
            i + 1
        };
        if j < n && '0' <= s[j] && s[j] <= '9' {
            Ok(skip_digits_exec(s, j))
        } else {
            Err(failure(s, "invalid JSON number", j))
        }
    } else {
        Ok(i)
    }
}

pub(crate) fn number_exec(s: &Vec<char>, p: usize) -> (r: Result<usize, JsonFailure>)
    requires
        p < s@.len(),
        width_sum_fits(s@),
    ensures
        match number_end(s@, p as int) {
            Ok(end) => (r matches Ok(e) && e as int == end && p < e <= s@.len()),
            Err(error) => (r matches Err(f) && failure_view(f) == error),
        },
{
    let n = s.len();
    let q = if s[p] == '-' {
        p + 1
    } else {
        p
    };
    let integral = if q < n && s[q] == '0' {
        q + 1
    } else if q < n && '1' <= s[q] && s[q] <= '9' {
        skip_digits_exec(s, q + 1)
    } else {
        return Err(failure(s, "invalid JSON number", q));
    };
    if integral < n && s[integral] == '.' {
        if integral + 1 < n && '0' <= s[integral + 1] && s[integral + 1] <= '9' {
            let fraction = skip_digits_exec(s, integral + 1);
            after_fraction_exec(s, fraction)
        } else {
            Err(failure(s, "invalid JSON number", integral + 1))
        }
    } else {
        after_fraction_exec(s, integral)
    }
}

fn literal_exec(s: &Vec<char>, p: usize, word: &str, value: Json) -> (r: Result<(Json, usize), JsonFailure>)
    requires
        p <= s@.len(),
        width_sum_fits(s@),
        word@.len() > 0,
    ensures
        match json_literal(s@, p as int, word@, json_view(value)) {
            Ok((v, next)) => (r matches Ok((j, e)) && json_view(j) == v && e as int == next && p < e <= s@.len()),
            Err(error) => (r matches Err(f) && failure_view(f) == error),
        },
{
    let w = chars_of(word);
    let n = s.len();
    if w.len() > n - p {
        return Err(failure(s, "invalid JSON literal", p));
    }
    let mut k: usize = 0;
    while k < w.len()
        invariant
            k <= w@.len(),
            width_sum_fits(s@),
            p <= n,
            p + w@.len() <= n,
            n == s@.len(),
            w@ == word@,
            forall|j: int| 0 <= j < k ==> s@[p + j] == w@[j],
        decreases w@.len() - k,
    {
        if s[p + k] != w[k] {
            assert(s@.subrange(p as int, p + w@.len())[k as int] != word@[k as int]);
            return Err(failure(s, "invalid JSON literal", p));
        }
        k += 1;
    }
    assert(s@.subrange(p as int, p + w@.len()) =~= word@);
    Ok((value, p + w.len()))
}

fn has_field_exec(fields: &Vec<(String, Json)>, name: &String) -> (r: bool)
    ensures
        r == has_field(fields_view(fields@), name@),
{
    proof {
        lemma_fields_view(fields@);
    }
    let mut i: usize = 0;
    while i < fields.len()
        invariant
            i <= fields@.len(),
            fields_view(fields@).len() == fields@.len(),
            forall|j: int| 0 <= j < fields@.len() ==> (#[trigger] fields_view(fields@)[j]).0 == fields@[j].0@,
            forall|j: int| 0 <= j < i ==> fields@[j].0@ != name@,
        decreases fields@.len() - i,
    {
        if crate::text::str_eq(fields[i].0.as_str(), name.as_str()) {
            assert(fields_view(fields@)[i as int].0 == name@);
            return true;
        }
        i += 1;
    }
    false
}

pub(crate) proof fn lemma_fields_view(fields: Seq<(String, Json)>)
    ensures
        fields_view(fields).len() == fields.len(),
        forall|j: int| 0 <= j < fields.len() ==> (#[trigger] fields_view(fields)[j]).0 == fields[j].0@
            && fields_view(fields)[j].1 == json_view(fields[j].1),
    decreases fields.len(),
{
    if fields.len() > 0 {
        let rest = fields.subrange(0, fields.len() - 1);
        lemma_fields_view(rest);
        assert forall|j: int| 0 <= j < fields.len() implies (#[trigger] fields_view(fields)[j]).0 == fields[j].0@
            && fields_view(fields)[j].1 == json_view(fields[j].1) by {
            if j < fields.len() - 1 {
                assert(rest[j] == fields[j]);
            }
        }
    }
}

pub(crate) proof fn lemma_fields_view_push(fields: Seq<(String, Json)>, field: (String, Json))
    ensures
        fields_view(fields.push(field)) == fields_view(fields).push((field.0@, json_view(field.1))),
{
    assert(fields.push(field).subrange(0, fields.len() as int) =~= fields);
}

fn value_exec(s: &Vec<char>, p: usize) -> (r: Result<(Json, usize), JsonFailure>)
    requires
        p <= s@.len(),
        width_sum_fits(s@),
    ensures
        match json_value(s@, p as int) {
            Ok((v, next)) => (r matches Ok((j, e)) && json_view(j) == v && e as int == next && p < e <= s@.len()),
            Err(error) => (r matches Err(f) && failure_view(f) == error),
        },
    decreases s@.len() - p, 2int,
{
    let q = skip_space_exec(s, p);
    if q == s.len() {
        return Err(failure(s, "expected a JSON value", q));
    }
    let c = s[q];
    proof {
        reveal_strlit("null");
        reveal_strlit("true");
        reveal_strlit("false");
    }
    if c == 'n' {
        literal_exec(s, q, "null", Json::Null)
    } else if c == 't' {
        literal_exec(s, q, "true", Json::Bool(true))
    } else if c == 'f' {
        literal_exec(s, q, "false", Json::Bool(false))
    } else if c == '"' {
        match string_exec(s, q) {
            Ok((text, next)) => Ok((Json::Text(text), next)),
            Err(f) => Err(f),
        }
    } else if c == '{' {
        object_exec(s, q)
    } else if c == '-' || ('0' <= c && c <= '9') {
        match number_exec(s, q) {
            Ok(end) => {
                let mut numeral: Vec<char> = Vec::new();
                let mut k = q;
                while k < end
                    invariant
                        q <= k <= end <= s@.len(),
                        numeral@ == s@.subrange(q as int, k as int),
                    decreases end - k,
                {
                    numeral.push(s[k]);
                    assert(s@.subrange(q as int, k + 1) =~= s@.subrange(q as int, k as int).push(s@[k as int]));
                    k += 1;
                }
                Ok((Json::Number(string_from_chars(numeral.as_slice())), end))
            },
            Err(f) => Err(f),
        }
    } else {
        Err(failure(s, "expected a JSON value", q))
    }
}

fn object_exec(s: &Vec<char>, p: usize) -> (r: Result<(Json, usize), JsonFailure>)
    requires
        p < s@.len(),
        s@[p as int] == '{',
        width_sum_fits(s@),
    ensures
        match json_object(s@, p as int) {
            Ok((v, next)) => (r matches Ok((j, e)) && json_view(j) == v && e as int == next && p < e <= s@.len()),
            Err(error) => (r matches Err(f) && failure_view(f) == error),
        },
    decreases s@.len() - p, 1int,
{
    let n = s.len();
    let q = skip_space_exec(s, p + 1);
    if q < s.len() && s[q] == '}' {
        let fields: Vec<(String, Json)> = Vec::new();
        assert(fields_view(fields@) =~= Seq::<(Seq<char>, JsonView)>::empty());
        return Ok((Json::Object(fields), q + 1));
    }
    let fields: Vec<(String, Json)> = Vec::new();
    assert(fields_view(fields@) =~= Seq::<(Seq<char>, JsonView)>::empty());
    match members_exec(s, q, fields) {
        Ok((fields, next)) => Ok((Json::Object(fields), next)),
        Err(f) => Err(f),
    }
}

fn members_exec(s: &Vec<char>, p: usize, fields: Vec<(String, Json)>) -> (r: Result<
    (Vec<(String, Json)>, usize),
    JsonFailure,
>)
    requires
        p <= s@.len(),
        width_sum_fits(s@),
    ensures
        match json_members(s@, p as int, fields_view(fields@)) {
            Ok((v, next)) => (r matches Ok((f, e)) && fields_view(f@) == v && e as int == next && p < e <= s@.len()),
            Err(error) => (r matches Err(f) && failure_view(f) == error),
        },
    decreases s@.len() - p, 0int,
{
    let q = skip_space_exec(s, p);
    let (name, after_name) = match string_exec(s, q) {
        Ok(found) => found,
        Err(f) => {
            return Err(f);
        },
    };
    let colon = skip_space_exec(s, after_name);
    if !(colon < s.len() && s[colon] == ':') {
        return Err(failure(s, "expected ':'", colon));
    }
    let (value, after_value) = match value_exec(s, colon + 1) {
        Ok(found) => found,
        Err(f) => {
            return Err(f);
        },
    };
    if has_field_exec(&fields, &name) {
        return Err(failure(s, "duplicate object field", after_value));
    }
    let mut more = fields;
    let ghost before = more@;
    let field = (name, value);
    proof {
        lemma_fields_view_push(before, field);
    }
    more.push(field);
    let next = skip_space_exec(s, after_value);
    if next < s.len() && s[next] == '}' {
        Ok((more, next + 1))
    } else if next < s.len() && s[next] == ',' {
        members_exec(s, next + 1, more)
    } else {
        Err(failure(s, "expected ','", next))
    }
}

/// Read one record line: the fields of its JSON object.
pub fn read_record(line: &str) -> (r: Result<Vec<(String, Json)>, JsonFailure>)
    requires
        width_sum_fits(line@),
    ensures
        match json_record(line@) {
            Ok(fields) => (r matches Ok(f) && fields_view(f@) == fields),
            Err(error) => (r matches Err(f) && failure_view(f) == error),
        },
{
    let s = chars_of(line);
    match value_exec(&s, 0) {
        Err(f) => Err(f),
        Ok((value, next)) => {
            let end = skip_space_exec(&s, next);
            if end != s.len() {
                return Err(failure(&s, "trailing characters", end));
            }
            match value {
                Json::Object(fields) => Ok(fields),
                _ => Err(failure(&s, "record must be a JSON object", end)),
            }
        },
    }
}

} // verus!
