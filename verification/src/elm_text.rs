//! The text layer of ELM327 responses: lines, tokens, case and hex bytes.

use vstd::prelude::*;

use crate::text::{chars_of, trim_chars, trim_spec};

verus! {

pub open spec fn is_line_break(c: char) -> bool {
    c == '\r' || c == '\n'
}

/// The pieces of a text between line breaks (`str::split` on `\r` and `\n`):
/// one more piece than there are breaks.
pub open spec fn split_lines(s: Seq<char>) -> Seq<Seq<char>>
    decreases s.len(),
{
    if s.len() == 0 {
        seq![Seq::empty()]
    } else {
        let rest = split_lines(s.drop_last());
        if is_line_break(s.last()) {
            rest.push(Seq::empty())
        } else {
            rest.drop_last().push(rest.last().push(s.last()))
        }
    }
}

proof fn lemma_split_lines_nonempty(s: Seq<char>)
    ensures
        split_lines(s).len() >= 1,
    decreases s.len(),
{
    if s.len() > 0 {
        lemma_split_lines_nonempty(s.drop_last());
    }
}

/// The pieces of a text between line breaks.
pub fn split_response_lines(response: &str) -> (r: Vec<Vec<char>>)
    ensures
        r@.map_values(|l: Vec<char>| l@) == split_lines(response@),
{
    let chars = chars_of(response);
    let mut lines: Vec<Vec<char>> = Vec::new();
    let mut current: Vec<char> = Vec::new();
    let mut i: usize = 0;
    while i < chars.len()
        invariant
            i <= chars@.len(),
            chars@ == response@,
            lines@.map_values(|l: Vec<char>| l@).push(current@) == split_lines(chars@.take(i as int)),
        decreases chars@.len() - i,
    {
        proof {
            lemma_split_lines_nonempty(chars@.take(i as int));
        }
        let ghost before_lines = lines@.map_values(|l: Vec<char>| l@);
        let ghost before_current = current@;
        assert(chars@.take(i + 1).drop_last() =~= chars@.take(i as int));
        let c = chars[i];
        if c == '\r' || c == '\n' {
            let finished = current;
            lines.push(finished);
            current = Vec::new();
            assert(lines@.map_values(|l: Vec<char>| l@) =~= before_lines.push(before_current));
            assert(lines@.map_values(|l: Vec<char>| l@).push(current@) =~= split_lines(chars@.take(i + 1)));
        } else {
            current.push(c);
            assert(split_lines(chars@.take(i as int)).drop_last() =~= before_lines);
            assert(lines@.map_values(|l: Vec<char>| l@).push(current@) =~= split_lines(chars@.take(i + 1)));
        }
        i += 1;
    }
    assert(chars@.take(chars@.len() as int) =~= chars@);
    lines.push(current);
    lines
}

/// Trailing prompt characters removed (`trim_end_matches('>')`).
pub open spec fn strip_prompts(s: Seq<char>) -> Seq<char>
    decreases s.len(),
{
    if s.len() > 0 && s.last() == '>' {
        strip_prompts(s.drop_last())
    } else {
        s
    }
}

/// A response line as the normalizers read it: trimmed, trailing prompts
/// removed, and trimmed again.
pub open spec fn clean_line(raw: Seq<char>) -> Seq<char> {
    trim_spec(strip_prompts(trim_spec(raw)))
}

fn chars_text(chars: &Vec<char>) -> (r: String)
    ensures
        r@ == chars@,
{
    crate::text::string_from_chars(chars.as_slice())
}

/// Clean one raw response line.
pub fn clean(raw: &Vec<char>) -> (r: Vec<char>)
    ensures
        r@ == clean_line(raw@),
{
    let raw_text = chars_text(raw);
    let trimmed = trim_chars(raw_text.as_str());
    let mut end = trimmed.len();
    assert(trimmed@.take(end as int) =~= trimmed@);
    while end > 0 && trimmed[end - 1] == '>'
        invariant
            end <= trimmed@.len(),
            strip_prompts(trimmed@) == strip_prompts(trimmed@.take(end as int)),
        decreases end,
    {
        assert(trimmed@.take(end as int).drop_last() =~= trimmed@.take(end - 1));
        end -= 1;
    }
    let mut stripped: Vec<char> = Vec::new();
    let mut k: usize = 0;
    while k < end
        invariant
            k <= end <= trimmed@.len(),
            stripped@ == trimmed@.take(k as int),
        decreases end - k,
    {
        stripped.push(trimmed[k]);
        assert(trimmed@.take(k + 1) =~= trimmed@.take(k as int).push(trimmed@[k as int]));
        k += 1;
    }
    let stripped_text = chars_text(&stripped);
    trim_chars(stripped_text.as_str())
}

/// `u8::is_ascii_whitespace` on characters.
pub open spec fn is_ascii_ws(c: char) -> bool {
    c == ' ' || c == '\t' || c == '\n' || c == '\u{0C}' || c == '\r'
}

/// The non-empty runs between ASCII whitespace
/// (`str::split_ascii_whitespace`), with the run still being read.
pub open spec fn token_scan(s: Seq<char>) -> (Seq<Seq<char>>, Seq<char>)
    decreases s.len(),
{
    if s.len() == 0 {
        (Seq::empty(), Seq::empty())
    } else {
        let (done, current) = token_scan(s.drop_last());
        if is_ascii_ws(s.last()) {
            if current.len() > 0 {
                (done.push(current), Seq::empty())
            } else {
                (done, Seq::empty())
            }
        } else {
            (done, current.push(s.last()))
        }
    }
}

/// The ASCII-whitespace separated tokens of a text.
pub open spec fn ascii_tokens(s: Seq<char>) -> Seq<Seq<char>> {
    let (done, current) = token_scan(s);
    if current.len() > 0 {
        done.push(current)
    } else {
        done
    }
}

/// The tokens of a line.
pub fn tokens(line: &Vec<char>) -> (r: Vec<Vec<char>>)
    ensures
        r@.map_values(|t: Vec<char>| t@) == ascii_tokens(line@),
{
    let mut done: Vec<Vec<char>> = Vec::new();
    let mut current: Vec<char> = Vec::new();
    let mut i: usize = 0;
    while i < line.len()
        invariant
            i <= line@.len(),
            (done@.map_values(|t: Vec<char>| t@), current@) == token_scan(line@.take(i as int)),
        decreases line@.len() - i,
    {
        let ghost before_done = done@.map_values(|t: Vec<char>| t@);
        let ghost before_current = current@;
        assert(line@.take(i + 1).drop_last() =~= line@.take(i as int));
        let c = line[i];
        if c == ' ' || c == '\t' || c == '\n' || c == '\u{0C}' || c == '\r' {
            if current.len() > 0 {
                let finished = current;
                done.push(finished);
                current = Vec::new();
                assert(done@.map_values(|t: Vec<char>| t@) =~= before_done.push(before_current));
            }
            assert(current@ =~= Seq::<char>::empty());
        } else {
            current.push(c);
        }
        i += 1;
    }
    assert(line@.take(line@.len() as int) =~= line@);
    if current.len() > 0 {
        let ghost before_done = done@.map_values(|t: Vec<char>| t@);
        let ghost before_current = current@;
        done.push(current);
        assert(done@.map_values(|t: Vec<char>| t@) =~= before_done.push(before_current));
    }
    done
}

/// ASCII letters in upper case, everything else unchanged.
pub open spec fn upper_char(c: char) -> char {
    if 'a' <= c && c <= 'z' {
        ((c as u32) - 32) as char
    } else {
        c
    }
}

pub open spec fn ascii_upper(s: Seq<char>) -> Seq<char> {
    s.map_values(|c: char| upper_char(c))
}

fn upper_one(c: char) -> (r: char)
    ensures
        r == upper_char(c),
{
    if 'a' <= c && c <= 'z' {
        let code: u32 = c as u32 - 32;
        let byte: u8 = code as u8;
        byte as char
    } else {
        c
    }
}

/// `str::to_ascii_uppercase` on characters.
pub fn to_upper(s: &Vec<char>) -> (r: Vec<char>)
    ensures
        r@ == ascii_upper(s@),
{
    let mut r: Vec<char> = Vec::new();
    let mut i: usize = 0;
    while i < s.len()
        invariant
            i <= s@.len(),
            r@ == ascii_upper(s@.take(i as int)),
        decreases s@.len() - i,
    {
        r.push(upper_one(s[i]));
        assert(ascii_upper(s@.take(i + 1)) =~= ascii_upper(s@.take(i as int)).push(upper_char(s@[i as int])));
        i += 1;
    }
    assert(s@.take(s@.len() as int) =~= s@);
    r
}

pub open spec fn is_hex_char(c: char) -> bool {
    ('0' <= c && c <= '9') || ('a' <= c && c <= 'f') || ('A' <= c && c <= 'F')
}

pub open spec fn all_hex(s: Seq<char>) -> bool {
    forall|i: int| 0 <= i < s.len() ==> is_hex_char(#[trigger] s[i])
}

pub open spec fn hex_value(c: char) -> int {
    if '0' <= c && c <= '9' {
        c as int - '0' as int
    } else if 'a' <= c && c <= 'f' {
        c as int - 'a' as int + 10
    } else {
        c as int - 'A' as int + 10
    }
}

/// The bytes of an even-length run of hex digits, two digits per byte.
pub open spec fn hex_bytes(s: Seq<char>) -> Seq<u8> {
    Seq::new(s.len() / 2, |i: int| (hex_value(s[2 * i]) * 16 + hex_value(s[2 * i + 1])) as u8)
}

pub fn all_hex_exec(s: &Vec<char>) -> (r: bool)
    ensures
        r == all_hex(s@),
{
    let mut i: usize = 0;
    while i < s.len()
        invariant
            i <= s@.len(),
            forall|j: int| 0 <= j < i ==> is_hex_char(#[trigger] s@[j]),
        decreases s@.len() - i,
    {
        let c = s[i];
        if !(('0' <= c && c <= '9') || ('a' <= c && c <= 'f') || ('A' <= c && c <= 'F')) {
            return false;
        }
        i += 1;
    }
    true
}

fn hex_digit(c: char) -> (r: u8)
    requires
        is_hex_char(c),
    ensures
        r as int == hex_value(c),
        r < 16,
{
    if '0' <= c && c <= '9' {
        (c as u32 - '0' as u32) as u8
    } else if 'a' <= c && c <= 'f' {
        (c as u32 - 'a' as u32 + 10) as u8
    } else {
        (c as u32 - 'A' as u32 + 10) as u8
    }
}

/// Append the bytes of an even-length hex token.
pub fn push_hex_bytes(bytes: &mut Vec<u8>, token: &Vec<char>)
    requires
        all_hex(token@),
        token@.len() % 2 == 0,
    ensures
        final(bytes)@ == old(bytes)@ + hex_bytes(token@),
{
    let ghost start = bytes@;
    let mut i: usize = 0;
    while i + 1 < token.len()
        invariant
            i % 2 == 0,
            i <= token@.len(),
            token@.len() % 2 == 0,
            all_hex(token@),
            bytes@ == start + hex_bytes(token@).take(i as int / 2),
        decreases token@.len() - i,
    {
        let high = hex_digit(token[i]);
        let low = hex_digit(token[i + 1]);
        let byte: u8 = high * 16 + low;
        bytes.push(byte);
        assert(hex_bytes(token@).take(i as int / 2 + 1) =~= hex_bytes(token@).take(i as int / 2).push(
            byte,
        ));
        i += 2;
    }
    assert(hex_bytes(token@).take(token@.len() as int / 2) =~= hex_bytes(token@));
}

/// The two upper-case hex digits of a byte.
pub open spec fn hex2(byte: u8) -> Seq<char> {
    seq![hex_char(byte as int / 16), hex_char(byte as int % 16)]
}

pub open spec fn hex_char(nibble: int) -> char {
    if nibble < 10 {
        (nibble + '0' as int) as char
    } else {
        (nibble - 10 + 'A' as int) as char
    }
}

fn nibble_char(nibble: u8) -> (r: char)
    requires
        nibble < 16,
    ensures
        r == hex_char(nibble as int),
{
    if nibble < 10 {
        let byte: u8 = nibble + 0x30;
        byte as char
    } else {
        let byte: u8 = nibble - 10 + 0x41;
        byte as char
    }
}

/// `format!("{byte:02X}")`.
pub fn hex2_chars(byte: u8) -> (r: Vec<char>)
    ensures
        r@ == hex2(byte),
{
    let mut r: Vec<char> = Vec::new();
    r.push(nibble_char(byte / 16));
    r.push(nibble_char(byte % 16));
    assert(r@ =~= hex2(byte));
    r
}

/// The concatenation of a sequence of texts.
pub open spec fn concat_all(parts: Seq<Seq<char>>) -> Seq<char>
    decreases parts.len(),
{
    if parts.len() == 0 {
        Seq::empty()
    } else {
        concat_all(parts.drop_last()) + parts.last()
    }
}

/// Concatenate texts.
pub fn join_compact(parts: &Vec<Vec<char>>) -> (r: Vec<char>)
    ensures
        r@ == concat_all(parts@.map_values(|t: Vec<char>| t@)),
{
    let ghost views = parts@.map_values(|t: Vec<char>| t@);
    let mut r: Vec<char> = Vec::new();
    let mut i: usize = 0;
    while i < parts.len()
        invariant
            i <= parts@.len(),
            views == parts@.map_values(|t: Vec<char>| t@),
            r@ == concat_all(views.take(i as int)),
        decreases parts@.len() - i,
    {
        let part = &parts[i];
        let ghost before = r@;
        let mut k: usize = 0;
        while k < part.len()
            invariant
                k <= part@.len(),
                r@ == before + part@.take(k as int),
            decreases part@.len() - k,
        {
            r.push(part[k]);
            assert(part@.take(k + 1) =~= part@.take(k as int).push(part@[k as int]));
            k += 1;
        }
        assert(part@.take(part@.len() as int) =~= part@);
        assert(views.take(i + 1).drop_last() =~= views.take(i as int));
        assert(views[i as int] == part@);
        i += 1;
    }
    assert(views.take(parts@.len() as int) =~= views);
    r
}

} // verus!
