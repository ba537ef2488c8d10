//! Character-level helpers shared by the parsers and the value types.

use vstd::prelude::*;

verus! {

/// The characters of a string slice, in order.
pub fn chars_of(s: &str) -> (out: Vec<char>)
    ensures
        out@ == s@,
{
    let mut out: Vec<char> = Vec::new();
    for c in it: s.chars()
        invariant
            out@ == it.seq().take(it.index() as int),
    {
        out.push(c);
    }
    out
}

/// Two string slices are equal exactly when their characters are.
pub fn str_eq(a: &str, b: &str) -> (r: bool)
    ensures
        r == (a@ == b@),
{
    let x = chars_of(a);
    let y = chars_of(b);
    chars_eq(x.as_slice(), y.as_slice())
}

/// `String::push`: appends one character.
#[verifier::external_body]
pub fn push_char(s: &mut String, c: char)
    ensures
        final(s)@ == old(s)@.push(c),
{
    s.push(c)
}

/// A string holding exactly the given characters.
pub fn string_from_chars(chars: &[char]) -> (out: String)
    ensures
        out@ == chars@,
{
    let mut out = String::new();
    let mut i: usize = 0;
    while i < chars.len()
        invariant
            i <= chars@.len(),
            out@ == chars@.take(i as int),
        decreases chars@.len() - i,
    {
        push_char(&mut out, chars[i]);
        assert(chars@.take(i as int).push(chars@[i as int]) =~= chars@.take(i + 1));
        i += 1;
    }
    assert(chars@.take(chars@.len() as int) =~= chars@);
    out
}

/// An owned copy of a string slice.
pub fn owned(s: &str) -> (out: String)
    ensures
        out@ == s@,
{
    s.to_owned()
}

/// The concatenation of two string slices.
pub fn concat(a: &str, b: &str) -> (out: String)
    ensures
        out@ == a@ + b@,
{
    let mut out = a.to_owned();
    out.append(b);
    out
}

/// Unicode `White_Space`, the set used by `char::is_whitespace` and `str::trim`.
pub open spec fn is_whitespace_spec(c: char) -> bool {
    ||| c == '\t'
    ||| c == '\n'
    ||| c == '\u{0B}'
    ||| c == '\u{0C}'
    ||| c == '\r'
    ||| c == ' '
    ||| c == '\u{85}'
    ||| c == '\u{A0}'
    ||| c == '\u{1680}'
    ||| ('\u{2000}' <= c && c <= '\u{200A}')
    ||| c == '\u{2028}'
    ||| c == '\u{2029}'
    ||| c == '\u{202F}'
    ||| c == '\u{205F}'
    ||| c == '\u{3000}'
}

pub fn is_whitespace(c: char) -> (r: bool)
    ensures
        r == is_whitespace_spec(c),
{
    c == '\t' || c == '\n' || c == '\u{0B}' || c == '\u{0C}' || c == '\r' || c == ' '
        || c == '\u{85}' || c == '\u{A0}' || c == '\u{1680}' || ('\u{2000}' <= c && c
        <= '\u{200A}') || c == '\u{2028}' || c == '\u{2029}' || c == '\u{202F}' || c
        == '\u{205F}' || c == '\u{3000}'
}

/// A text is blank when trimming whitespace leaves nothing.
pub open spec fn is_blank_spec(s: Seq<char>) -> bool {
    forall|i: int| 0 <= i < s.len() ==> is_whitespace_spec(#[trigger] s[i])
}

pub fn is_blank(s: &str) -> (r: bool)
    ensures
        r == is_blank_spec(s@),
{
    let chars = chars_of(s);
    let mut i: usize = 0;
    while i < chars.len()
        invariant
            i <= chars@.len(),
            chars@ == s@,
            forall|j: int| 0 <= j < i ==> is_whitespace_spec(#[trigger] chars@[j]),
        decreases chars@.len() - i,
    {
        if !is_whitespace(chars[i]) {
            return false;
        }
        i += 1;
    }
    true
}

/// Lexicographic order of character sequences by code point, which is the
/// order of `str` and `String` (UTF-8 preserves code point order).
/// (`char` comparison is comparison of code points.)
pub open spec fn chars_le(a: Seq<char>, b: Seq<char>) -> bool
    decreases a.len(),
{
    if a.len() == 0 {
        true
    } else if b.len() == 0 {
        false
    } else if a[0] < b[0] {
        true
    } else if a[0] == b[0] {
        chars_le(a.drop_first(), b.drop_first())
    } else {
        false
    }
}

pub proof fn lemma_chars_le_reflexive(a: Seq<char>)
    ensures
        chars_le(a, a),
    decreases a.len(),
{
    if a.len() > 0 {
        lemma_chars_le_reflexive(a.drop_first());
    }
}

pub proof fn lemma_chars_le_total(a: Seq<char>, b: Seq<char>)
    ensures
        chars_le(a, b) || chars_le(b, a),
    decreases a.len(),
{
    if a.len() > 0 && b.len() > 0 && a[0] == b[0] {
        lemma_chars_le_total(a.drop_first(), b.drop_first());
    }
}

pub proof fn lemma_chars_le_antisymmetric(a: Seq<char>, b: Seq<char>)
    requires
        chars_le(a, b),
        chars_le(b, a),
    ensures
        a == b,
    decreases a.len(),
{
    if a.len() > 0 {
        assert(b.len() > 0);
        assert(a[0] == b[0]);
        lemma_chars_le_antisymmetric(a.drop_first(), b.drop_first());
        assert(a =~= seq![a[0]] + a.drop_first());
        assert(b =~= seq![b[0]] + b.drop_first());
    } else {
        assert(b.len() == 0);
        assert(a =~= b);
    }
}

pub proof fn lemma_chars_le_transitive(a: Seq<char>, b: Seq<char>, c: Seq<char>)
    requires
        chars_le(a, b),
        chars_le(b, c),
    ensures
        chars_le(a, c),
    decreases a.len(),
{
    if a.len() > 0 && b.len() > 0 && c.len() > 0 && a[0] == b[0] && b[0] == c[0] {
        lemma_chars_le_transitive(a.drop_first(), b.drop_first(), c.drop_first());
    }
}

/// Lexicographic comparison of two character sequences.
pub fn chars_le_exec(a: &[char], b: &[char]) -> (r: bool)
    ensures
        r == chars_le(a@, b@),
{
    let mut i: usize = 0;
    assert(a@.skip(0) =~= a@);
    assert(b@.skip(0) =~= b@);
    while i < a.len() && i < b.len()
        invariant
            i <= a@.len(),
            i <= b@.len(),
            a@.take(i as int) == b@.take(i as int),
            chars_le(a@, b@) == chars_le(a@.skip(i as int), b@.skip(i as int)),
        decreases a@.len() - i,
    {
        if a[i] < b[i] {
            return true;
        }
        if a[i] != b[i] {
            return false;
        }
        assert(a@.skip(i as int).drop_first() =~= a@.skip(i + 1));
        assert(b@.skip(i as int).drop_first() =~= b@.skip(i + 1));
        assert(a@.take(i + 1) =~= a@.take(i as int).push(a@[i as int]));
        assert(b@.take(i + 1) =~= b@.take(i as int).push(b@[i as int]));
        i += 1;
    }
    i == a.len()
}

/// Lexicographic comparison of two string slices.
pub fn str_le(a: &str, b: &str) -> (r: bool)
    ensures
        r == chars_le(a@, b@),
{
    let x = chars_of(a);
    let y = chars_of(b);
    chars_le_exec(x.as_slice(), y.as_slice())
}

/// `char::is_control`: the Unicode general category Cc.
pub open spec fn is_control_spec(c: char) -> bool {
    ('\u{0}' <= c && c <= '\u{1F}') || ('\u{7F}' <= c && c <= '\u{9F}')
}

pub fn is_control(c: char) -> (r: bool)
    ensures
        r == is_control_spec(c),
{
    ('\u{0}' <= c && c <= '\u{1F}') || ('\u{7F}' <= c && c <= '\u{9F}')
}

/// Leading whitespace removed.
pub open spec fn trim_start_spec(s: Seq<char>) -> Seq<char>
    decreases s.len(),
{
    if s.len() > 0 && is_whitespace_spec(s[0]) {
        trim_start_spec(s.drop_first())
    } else {
        s
    }
}

/// Trailing whitespace removed.
pub open spec fn trim_end_spec(s: Seq<char>) -> Seq<char>
    decreases s.len(),
{
    if s.len() > 0 && is_whitespace_spec(s.last()) {
        trim_end_spec(s.drop_last())
    } else {
        s
    }
}

/// `str::trim`: leading and trailing whitespace removed.
pub open spec fn trim_spec(s: Seq<char>) -> Seq<char> {
    trim_end_spec(trim_start_spec(s))
}

/// The characters of `str::trim` applied to `s`.
pub fn trim_chars(s: &str) -> (r: Vec<char>)
    ensures
        r@ == trim_spec(s@),
{
    let chars = chars_of(s);
    let n = chars.len();
    let mut i: usize = 0;
    assert(chars@.skip(0) =~= chars@);
    while i < n && is_whitespace(chars[i])
        invariant
            i <= n,
            n == chars@.len(),
            trim_start_spec(chars@) == trim_start_spec(chars@.skip(i as int)),
        decreases n - i,
    {
        assert(chars@.skip(i as int).drop_first() =~= chars@.skip(i + 1));
        i += 1;
    }
    assert(trim_start_spec(chars@.skip(i as int)) == chars@.skip(i as int));
    let mut j: usize = n;
    assert(chars@.subrange(i as int, n as int) =~= chars@.skip(i as int));
    while j > i && is_whitespace(chars[j - 1])
        invariant
            i <= j <= n,
            n == chars@.len(),
            trim_end_spec(chars@.skip(i as int)) == trim_end_spec(chars@.subrange(i as int, j as int)),
        decreases j,
    {
        assert(chars@.subrange(i as int, j as int).drop_last() =~= chars@.subrange(i as int, j - 1));
        j -= 1;
    }
    let mut out: Vec<char> = Vec::new();
    let mut k = i;
    while k < j
        invariant
            i <= k <= j <= n,
            n == chars@.len(),
            out@ == chars@.subrange(i as int, k as int),
        decreases j - k,
    {
        out.push(chars[k]);
        assert(chars@.subrange(i as int, k + 1) =~= chars@.subrange(i as int, k as int).push(chars@[k as int]));
        k += 1;
    }
    out
}


/// The Unicode scalar value of a character.
pub fn char_code(c: char) -> (r: i64)
    ensures
        r as int == c as int,
        0 <= r <= u32::MAX,
{
    let code: u32 = c as u32;
    code as i64
}


/// Two character sequences are equal.
pub fn chars_eq(a: &[char], b: &[char]) -> (r: bool)
    ensures
        r == (a@ == b@),
{
    if a.len() != b.len() {
        return false;
    }
    let mut i: usize = 0;
    while i < a.len()
        invariant
            i <= a@.len(),
            a@.len() == b@.len(),
            forall|j: int| 0 <= j < i ==> a@[j] == b@[j],
        decreases a@.len() - i,
    {
        if a[i] != b[i] {
            return false;
        }
        i += 1;
    }
    assert(a@ =~= b@);
    true
}

/// `str::trim` leaves the text unchanged.
pub fn is_trimmed(s: &str) -> (r: bool)
    ensures
        r == (trim_spec(s@) == s@),
{
    let trimmed = trim_chars(s);
    let chars = chars_of(s);
    chars_eq(trimmed.as_slice(), chars.as_slice())
}

/// `str::contains` with a single character.
pub fn contains_char(s: &str, c: char) -> (r: bool)
    ensures
        r == s@.contains(c),
{
    let chars = chars_of(s);
    let mut i: usize = 0;
    while i < chars.len()
        invariant
            i <= chars@.len(),
            chars@ == s@,
            forall|j: int| 0 <= j < i ==> chars@[j] != c,
        decreases chars@.len() - i,
    {
        if chars[i] == c {
            assert(s@[i as int] == c);
            return true;
        }
        i += 1;
    }
    false
}

/// What `format!("{:?}", s)` writes for a string: the text between double
/// quotes, escaped as Rust's `Debug` escapes a string.
pub uninterp spec fn debug_text(s: Seq<char>) -> Seq<char>;

/// `format!("{:?}", s)` on a string slice. Its result is named, not spelled
/// out: which non-ASCII characters `Debug` escapes follows Unicode tables.
#[verifier::external_body]
pub fn debug_quoted(s: &str) -> (r: String)
    ensures
        r@ == debug_text(s@),
{
    format!("{s:?}")
}

/// The lowercase hexadecimal digit for a value below sixteen.
pub open spec fn hex_digit_char(d: nat) -> char {
    if d < 10 {
        (d + 48) as char
    } else {
        (d + 87) as char
    }
}

/// The lowercase hexadecimal digits of a number, without leading zeros.
pub open spec fn hex_lower(n: nat) -> Seq<char>
    decreases n,
{
    if n < 16 {
        seq![hex_digit_char(n)]
    } else {
        hex_lower(n / 16).push(hex_digit_char(n % 16))
    }
}

/// `char::escape_default`: tab, carriage return and line feed as `\t`,
/// `\r`, `\n`; quotes and the backslash behind a backslash; printable
/// ASCII unchanged; every other character as `\u{..}` with its code point in
/// lowercase hexadecimal.
pub open spec fn escape_char(c: char) -> Seq<char> {
    if c == '\t' {
        seq!['\\', 't']
    } else if c == '\r' {
        seq!['\\', 'r']
    } else if c == '\n' {
        seq!['\\', 'n']
    } else if c == '\'' || c == '"' || c == '\\' {
        seq!['\\', c]
    } else if 0x20 <= c as int <= 0x7e {
        seq![c]
    } else {
        seq!['\\', 'u', '{'] + hex_lower(c as nat) + seq!['}']
    }
}

/// `str::escape_default`: each character escaped in turn.
pub open spec fn escape_text(s: Seq<char>) -> Seq<char>
    decreases s.len(),
{
    if s.len() == 0 {
        Seq::empty()
    } else {
        escape_text(s.drop_last()) + escape_char(s.last())
    }
}

fn push_hex(out: &mut String, n: u32)
    ensures
        final(out)@ == old(out)@ + hex_lower(n as nat),
    decreases n,
{
    if n >= 16 {
        push_hex(out, n / 16);
    }
    let d: u8 = (n % 16) as u8;
    let c: char = if d < 10 {
        (d + 48) as char
    } else {
        (d + 87) as char
    };
    push_char(out, c);
}

fn push_escaped(out: &mut String, c: char)
    ensures
        final(out)@ == old(out)@ + escape_char(c),
{
    let code = char_code(c);
    if c == '\t' {
        push_char(out, '\\');
        push_char(out, 't');
    } else if c == '\r' {
        push_char(out, '\\');
        push_char(out, 'r');
    } else if c == '\n' {
        push_char(out, '\\');
        push_char(out, 'n');
    } else if c == '\'' || c == '"' || c == '\\' {
        push_char(out, '\\');
        push_char(out, c);
    } else if 0x20 <= code && code <= 0x7e {
        push_char(out, c);
    } else {
        push_char(out, '\\');
        push_char(out, 'u');
        push_char(out, '{');
        push_hex(out, code as u32);
        push_char(out, '}');
    }
}

/// The text with each character escaped as `str::escape_default` does.
pub fn escape_default(s: &str) -> (r: String)
    ensures
        r@ == escape_text(s@),
{
    let chars = chars_of(s);
    let mut r = String::new();
    let mut i: usize = 0;
    while i < chars.len()
        invariant
            i <= chars@.len(),
            chars@ == s@,
            r@ == escape_text(chars@.take(i as int)),
        decreases chars@.len() - i,
    {
        proof {
            assert(chars@.take(i + 1).drop_last() =~= chars@.take(i as int));
        }
        push_escaped(&mut r, chars[i]);
        i += 1;
    }
    assert(chars@.take(chars@.len() as int) =~= chars@);
    r
}

/// The ASCII digit for a value below ten.
pub open spec fn digit_char(d: nat) -> char {
    (d + 48) as char
}

/// The decimal digits of a number, most significant first, without leading
/// zeros: what `format!("{}", n)` writes.
pub open spec fn decimal(n: nat) -> Seq<char>
    decreases n,
{
    if n < 10 {
        seq![digit_char(n)]
    } else {
        decimal(n / 10).push(digit_char(n % 10))
    }
}

/// The decimal text of a number.
pub fn decimal_text(n: u64) -> (r: String)
    ensures
        r@ == decimal(n as nat),
    decreases n,
{
    let digit: u8 = (n % 10) as u8 + 48;
    let c: char = digit as char;
    if n < 10 {
        let mut r = String::new();
        push_char(&mut r, c);
        assert(r@ =~= seq![c]);
        r
    } else {
        let mut r = decimal_text(n / 10);
        push_char(&mut r, c);
        r
    }
}


/// An owned copy of a byte slice.
pub fn byte_vec(bytes: &[u8]) -> (r: Vec<u8>)
    ensures
        r@ == bytes@,
{
    let mut r: Vec<u8> = Vec::new();
    let mut i: usize = 0;
    while i < bytes.len()
        invariant
            i <= bytes@.len(),
            r@ == bytes@.take(i as int),
        decreases bytes@.len() - i,
    {
        r.push(bytes[i]);
        assert(bytes@.take(i + 1) =~= bytes@.take(i as int).push(bytes@[i as int]));
        i += 1;
    }
    assert(bytes@.take(bytes@.len() as int) =~= bytes@);
    r
}


/// `needle` occurs in `s` at position `at`.
pub open spec fn occurs_at(s: Seq<char>, needle: Seq<char>, at: int) -> bool {
    0 <= at && at + needle.len() <= s.len() && s.subrange(at, at + needle.len()) == needle
}

/// `needle` occurs somewhere in `s`.
pub open spec fn has_substring(s: Seq<char>, needle: Seq<char>) -> bool {
    exists|at: int| #[trigger] occurs_at(s, needle, at)
}

fn occurs_at_exec(s: &Vec<char>, needle: &Vec<char>, at: usize) -> (r: bool)
    requires
        at + needle@.len() <= s@.len(),
    ensures
        r == occurs_at(s@, needle@, at as int),
{
    let mut k: usize = 0;
    while k < needle.len()
        invariant
            k <= needle@.len(),
            at + needle@.len() <= s.len(),
            forall|j: int| 0 <= j < k ==> s@[at + j] == needle@[j],
        decreases needle@.len() - k,
    {
        if s[at + k] != needle[k] {
            assert(s@.subrange(at as int, at + needle@.len())[k as int] != needle@[k as int]);
            return false;
        }
        k += 1;
    }
    assert(s@.subrange(at as int, at + needle@.len()) =~= needle@);
    true
}

/// `str::contains` with a string pattern.
pub fn contains_str(s: &str, needle: &str) -> (r: bool)
    ensures
        r == has_substring(s@, needle@),
{
    let chars = chars_of(s);
    let pattern = chars_of(needle);
    if pattern.len() == 0 {
        assert(s@.subrange(0, 0) =~= needle@);
        assert(occurs_at(s@, needle@, 0));
        return true;
    }
    if pattern.len() > chars.len() {
        return false;
    }
    let last = chars.len() - pattern.len();
    let mut at: usize = 0;
    while at <= last
        invariant
            chars@ == s@,
            pattern@ == needle@,
            pattern.len() > 0,
            pattern.len() <= chars.len(),
            last == chars.len() - pattern.len(),
            at <= last + 1,
            forall|p: int| 0 <= p < at ==> !#[trigger] occurs_at(s@, needle@, p),
        decreases chars@.len() - at,
    {
        if occurs_at_exec(&chars, &pattern, at) {
            return true;
        }
        at += 1;
    }
    assert forall|p: int| !#[trigger] occurs_at(s@, needle@, p) by {
        if 0 <= p && p < at {
        }
    }
    false
}

/// `str::starts_with` with a string pattern.
pub fn starts_with_str(s: &str, prefix: &str) -> (r: bool)
    ensures
        r == occurs_at(s@, prefix@, 0),
{
    let chars = chars_of(s);
    let pattern = chars_of(prefix);
    if pattern.len() > chars.len() {
        return false;
    }
    occurs_at_exec(&chars, &pattern, 0)
}

} // verus!
