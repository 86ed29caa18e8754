//! Lines, fields and numbers of file lists and commands.

use vstd::prelude::*;
use crate::text;

verus! {

/// The views of a list of texts.
pub open spec fn views(texts: Seq<String>) -> Seq<Seq<char>> {
    texts.map_values(|text: String| text@)
}

/// The place of the first line feed from `p` on, or the end.
pub open spec fn line_end(s: Seq<char>, p: int) -> int
    decreases s.len() - p,
{
    if p < 0 || p >= s.len() || s[p] == '\n' {
        p
    } else {
        line_end(s, p + 1)
    }
}

pub proof fn lemma_line_end(s: Seq<char>, p: int)
    requires
        0 <= p <= s.len(),
    ensures
        p <= line_end(s, p) <= s.len(),
        line_end(s, p) < s.len() ==> s[line_end(s, p)] == '\n',
    decreases s.len() - p,
{
    if p < s.len() && s[p] != '\n' {
        lemma_line_end(s, p + 1);
    }
}

/// The line from `p` up to `end`, without the carriage return that is part of
/// its ending.
pub open spec fn line_at(s: Seq<char>, p: int, end: int) -> Seq<char> {
    let line = s.subrange(p, end);
    if end < s.len() && line.len() > 0 && line.last() == '\r' {
        line.drop_last()
    } else {
        line
    }
}

/// `seen` and the lines from `p` on.
pub open spec fn lines_from(s: Seq<char>, p: int, seen: Seq<Seq<char>>) -> Seq<Seq<char>>
    decreases s.len() - p + 1,
{
    if p < 0 || p >= s.len() {
        seen
    } else {
        proof {
            lemma_line_end(s, p);
        }
        let end = line_end(s, p);
        lines_from(s, end + 1, seen.push(line_at(s, p, end)))
    }
}

/// The lines of a text.
pub open spec fn lines(s: Seq<char>) -> Seq<Seq<char>> {
    lines_from(s, 0, Seq::empty())
}

/// Splits a text into its lines.
pub fn split_lines(source: &str) -> (r: Vec<String>)
    ensures
        views(r@) == lines(source@),
{
    let s: Vec<char> = text::chars_of(source);
    let mut out: Vec<String> = Vec::new();
    let mut p: usize = 0;
    assert(views(out@) =~= Seq::empty());
    while p < s.len()
        invariant
            s@ == source@,
            p <= s@.len(),
            lines_from(s@, p as int, views(out@)) == lines(source@),
        decreases s@.len() - p,
    {
        let mut end: usize = p;
        while end < s.len() && s[end] != '\n'
            invariant
                p <= end <= s@.len(),
                line_end(s@, end as int) == line_end(s@, p as int),
            decreases s@.len() - end,
        {
            end = end + 1;
        }
        let stop: usize = if end < s.len() && end > p && s[end - 1] == '\r' {
            end - 1
        } else {
            end
        };
        let line: &[char] = vstd::slice::slice_subrange(s.as_slice(), p, stop);
        assert(line@ =~= line_at(s@, p as int, end as int));
        let ghost before = out@;
        out.push(text::text_of(line));
        assert(views(out@) =~= views(before).push(line_at(s@, p as int, end as int)));
        if end >= s.len() {
            assert(lines_from(s@, end + 1, views(out@)) == views(out@));
            return out;
        }
        p = end + 1;
    }
    out
}

/// White space of Unicode.
pub open spec fn is_white(c: char) -> bool {
    let v = c as u32;
    9 <= v <= 13 || v == 0x20 || v == 0x85 || v == 0xa0 || v == 0x1680 || 0x2000 <= v <= 0x200a || v
        == 0x2028 || v == 0x2029 || v == 0x202f || v == 0x205f || v == 0x3000
}

fn white(c: char) -> (r: bool)
    ensures
        r == is_white(c),
{
    let v: u32 = c as u32;
    (9 <= v && v <= 13) || v == 0x20 || v == 0x85 || v == 0xa0 || v == 0x1680 || (0x2000 <= v && v
        <= 0x200a) || v == 0x2028 || v == 0x2029 || v == 0x202f || v == 0x205f || v == 0x3000
}

/// A text without white space at its start.
pub open spec fn without_start(s: Seq<char>) -> Seq<char>
    decreases s.len(),
{
    if s.len() > 0 && is_white(s[0]) {
        without_start(s.skip(1))
    } else {
        s
    }
}

/// A text without white space at its end.
pub open spec fn without_end(s: Seq<char>) -> Seq<char>
    decreases s.len(),
{
    if s.len() > 0 && is_white(s.last()) {
        without_end(s.drop_last())
    } else {
        s
    }
}

/// A text without white space around it.
pub open spec fn trimmed(s: Seq<char>) -> Seq<char> {
    without_end(without_start(s))
}

pub fn trim(source: &str) -> (r: String)
    ensures
        r@ == trimmed(source@),
{
    let s: Vec<char> = text::chars_of(source);
    let mut from: usize = 0;
    assert(s@.skip(0) =~= s@);
    while from < s.len() && white(s[from])
        invariant
            from <= s@.len(),
            without_start(s@.skip(from as int)) == without_start(s@),
        decreases s@.len() - from,
    {
        assert(s@.skip(from as int).skip(1) =~= s@.skip(from + 1));
        from = from + 1;
    }
    let mut to: usize = s.len();
    assert(s@.subrange(from as int, to as int) =~= s@.skip(from as int));
    while to > from && white(s[to - 1])
        invariant
            from <= to <= s@.len(),
            without_end(s@.subrange(from as int, to as int)) == trimmed(s@),
        decreases to,
    {
        assert(s@.subrange(from as int, to as int).drop_last() =~= s@.subrange(
            from as int,
            to - 1,
        ));
        to = to - 1;
    }
    let inner: &[char] = vstd::slice::slice_subrange(s.as_slice(), from, to);
    text::text_of(inner)
}

/// The value of a digit below sixteen.
pub open spec fn digit_of(c: char) -> Option<nat> {
    let v = c as u32;
    if 48 <= v <= 57 {
        Some((v - 48) as nat)
    } else if 97 <= v <= 102 {
        Some((v - 87) as nat)
    } else if 65 <= v <= 70 {
        Some((v - 55) as nat)
    } else {
        None
    }
}

fn digit_value(c: char) -> (r: Option<u64>)
    ensures
        match r {
            Some(v) => digit_of(c) == Some(v as nat),
            None => digit_of(c) is None,
        },
{
    let v: u32 = c as u32;
    if 48 <= v && v <= 57 {
        Some((v - 48) as u64)
    } else if 97 <= v && v <= 102 {
        Some((v - 87) as u64)
    } else if 65 <= v && v <= 70 {
        Some((v - 55) as u64)
    } else {
        None
    }
}

/// The number that digits of a radix spell.
pub open spec fn digits_value(s: Seq<char>, radix: nat) -> Option<nat>
    decreases s.len(),
{
    if s.len() == 0 {
        Some(0)
    } else {
        match (digits_value(s.drop_last(), radix), digit_of(s.last())) {
            (Some(value), Some(digit)) if digit < radix => Some(value * radix + digit),
            _ => None,
        }
    }
}

/// The number that a text spells, with or without a plus sign, if it is not
/// above a limit.
pub open spec fn number(s: Seq<char>, radix: nat, limit: nat) -> Option<nat> {
    let digits = if s.len() > 0 && s[0] == '+' {
        s.skip(1)
    } else {
        s
    };
    match digits_value(digits, radix) {
        Some(value) if digits.len() > 0 && value <= limit => Some(value),
        _ => None,
    }
}

proof fn lemma_digits_prefix(s: Seq<char>, n: int, radix: nat)
    requires
        0 <= n <= s.len(),
        radix >= 1,
    ensures
        digits_value(s, radix) matches Some(whole) ==> (digits_value(s.take(n), radix) matches Some(
            part,
        ) && part <= whole),
    decreases s.len() - n,
{
    if n == s.len() {
        assert(s.take(n) =~= s);
    } else {
        lemma_digits_prefix(s, n + 1, radix);
        assert(s.take(n + 1).drop_last() =~= s.take(n));
        if digits_value(s, radix) is Some {
            let part = digits_value(s.take(n), radix)->0;
            assert(part <= part * radix) by (nonlinear_arith)
                requires
                    radix >= 1,
                    part >= 0,
            ;
        }
    }
}

pub fn parse_number(source: &str, radix: u64, limit: u64) -> (r: Option<u64>)
    requires
        2 <= radix <= 16,
    ensures
        match r {
            Some(v) => number(source@, radix as nat, limit as nat) == Some(v as nat),
            None => number(source@, radix as nat, limit as nat) is None,
        },
{
    let s: Vec<char> = text::chars_of(source);
    let from: usize = if s.len() > 0 && s[0] == '+' {
        1
    } else {
        0
    };
    if from >= s.len() {
        return None;
    }
    let ghost digits = s@.skip(from as int);
    assert(from == 0 ==> digits =~= s@);
    let mut value: u128 = 0;
    let mut i: usize = from;
    assert(digits.take(0) =~= Seq::empty());
    while i < s.len()
        invariant
            from <= i <= s@.len(),
            digits == s@.skip(from as int),
            2 <= radix <= 16,
            value <= limit,
            digits_value(digits.take(i - from), radix as nat) == Some(value as nat),
            number(source@, radix as nat, limit as nat) == (match digits_value(
                digits,
                radix as nat,
            ) {
                Some(value) if value <= limit => Some(value),
                _ => None,
            }),
        decreases s@.len() - i,
    {
        proof {
            lemma_digits_prefix(digits, i - from + 1, radix as nat);
            assert(digits.take(i - from + 1).drop_last() =~= digits.take(i - from));
            assert(digits.take(i - from + 1).last() == s@[i as int]);
            assert(value * radix <= 0xffff_ffff_ffff_ffff * 16) by (nonlinear_arith)
                requires
                    value <= 0xffff_ffff_ffff_ffff,
                    radix <= 16,
            ;
        }
        match digit_value(s[i]) {
            Some(digit) if digit < radix => {
                value = value * radix as u128 + digit as u128;
                if value > limit as u128 {
                    return None;
                }
            },
            _ => {
                return None;
            },
        }
        i = i + 1;
    }
    assert(digits.take(s@.len() - from) =~= digits);
    Some(value as u64)
}

/// Whether a text holds another.
pub open spec fn holds(s: Seq<char>, part: Seq<char>) -> bool {
    exists|i: int|
        0 <= i <= s.len() - part.len() && #[trigger] s.subrange(i, i + part.len()) == part
}

/// Whether a text starts with another.
pub open spec fn starts_with(s: Seq<char>, part: Seq<char>) -> bool {
    part.len() <= s.len() && s.take(part.len() as int) == part
}

fn matches_at(s: &Vec<char>, at: usize, part: &Vec<char>) -> (r: bool)
    requires
        at + part@.len() <= s@.len(),
    ensures
        r == (s@.subrange(at as int, at + part@.len()) == part@),
{
    let total: usize = s.len();
    let mut i: usize = 0;
    while i < part.len()
        invariant
            total == s@.len(),
            at + part@.len() <= total,
            i <= part@.len(),
            forall|k: int| 0 <= k < i ==> s@[at + k] == part@[k],
        decreases part@.len() - i,
    {
        if s[at + i] != part[i] {
            assert(s@.subrange(at as int, at + part@.len())[i as int] != part@[i as int]);
            return false;
        }
        i = i + 1;
    }
    assert(s@.subrange(at as int, at + part@.len()) =~= part@);
    true
}

pub fn text_holds(source: &str, part: &str) -> (r: bool)
    ensures
        r == holds(source@, part@),
{
    let s: Vec<char> = text::chars_of(source);
    let p: Vec<char> = text::chars_of(part);
    if p.len() > s.len() {
        return false;
    }
    let mut at: usize = 0;
    while at <= s.len() - p.len()
        invariant
            s@ == source@,
            p@ == part@,
            p@.len() <= s@.len(),
            at <= s@.len() - p@.len() + 1,
            forall|i: int|
                0 <= i < at ==> #[trigger] s@.subrange(i, i + p@.len()) != p@,
        decreases s@.len() - p@.len() + 1 - at,
    {
        if matches_at(&s, at, &p) {
            return true;
        }
        if at == s.len() - p.len() {
            return false;
        }
        at = at + 1;
    }
    false
}

/// The rest of a text behind a start that it has.
pub fn strip_start(source: &str, part: &str) -> (r: Option<String>)
    ensures
        match r {
            Some(rest) => starts_with(source@, part@) && rest@ == source@.skip(part@.len() as int),
            None => !starts_with(source@, part@),
        },
{
    let s: Vec<char> = text::chars_of(source);
    let p: Vec<char> = text::chars_of(part);
    if p.len() > s.len() {
        return None;
    }
    assert(s@.subrange(0, p@.len() as int) =~= s@.take(p@.len() as int));
    if !matches_at(&s, 0, &p) {
        return None;
    }
    let rest: &[char] = vstd::slice::slice_subrange(s.as_slice(), p.len(), s.len());
    assert(rest@ =~= s@.skip(p@.len() as int));
    Some(text::text_of(rest))
}

/// The part of a text before the first occurrence of a character, or all of it.
pub open spec fn before(s: Seq<char>, c: char) -> Seq<char>
    decreases s.len(),
{
    if s.len() == 0 || s[0] == c {
        Seq::empty()
    } else {
        seq![s[0]] + before(s.skip(1), c)
    }
}

pub fn part_before(source: &str, c: char) -> (r: String)
    ensures
        r@ == before(source@, c),
{
    let s: Vec<char> = text::chars_of(source);
    let mut i: usize = 0;
    assert(s@.skip(0) =~= s@);
    assert(s@.take(0) + before(s@, c) =~= before(s@, c));
    while i < s.len() && s[i] != c
        invariant
            s@ == source@,
            i <= s@.len(),
            s@.take(i as int) + before(s@.skip(i as int), c) == before(s@, c),
        decreases s@.len() - i,
    {
        let ghost rest = s@.skip(i as int);
        assert(rest.skip(1) =~= s@.skip(i + 1));
        assert(s@.take(i as int) + (seq![rest[0]] + before(rest.skip(1), c)) =~= s@.take(i + 1)
            + before(s@.skip(i + 1), c));
        i = i + 1;
    }
    let start: &[char] = vstd::slice::slice_subrange(s.as_slice(), 0, i);
    assert(start@ =~= s@.take(i as int) + Seq::<char>::empty());
    assert(before(s@.skip(i as int), c) =~= Seq::<char>::empty());
    text::text_of(start)
}

/// White space of ASCII.
pub open spec fn is_blank(byte: u8) -> bool {
    byte == 32 || byte == 9 || byte == 10 || byte == 12 || byte == 13
}

fn blank(byte: u8) -> (r: bool)
    ensures
        r == is_blank(byte),
{
    byte == 32 || byte == 9 || byte == 10 || byte == 12 || byte == 13
}

/// The value of a hexadecimal digit.
pub open spec fn hex_of(byte: u8) -> Option<u8> {
    if 48 <= byte <= 57 {
        Some((byte - 48) as u8)
    } else if 97 <= byte <= 102 {
        Some((byte - 87) as u8)
    } else if 65 <= byte <= 70 {
        Some((byte - 55) as u8)
    } else {
        None
    }
}

fn hex(byte: u8) -> (r: Option<u8>)
    ensures
        r == hex_of(byte),
{
    if 48 <= byte && byte <= 57 {
        Some(byte - 48)
    } else if 97 <= byte && byte <= 102 {
        Some(byte - 87)
    } else if 65 <= byte && byte <= 70 {
        Some(byte - 55)
    } else {
        None
    }
}

/// The byte that two hexadecimal digits spell.
pub open spec fn hex_pair(high: u8, low: u8) -> Option<u8> {
    match (hex_of(high), hex_of(low)) {
        (Some(h), Some(l)) => Some((h * 16 + l) as u8),
        _ => None,
    }
}

fn pair(high: u8, low: u8) -> (r: Option<u8>)
    ensures
        r == hex_pair(high, low),
{
    match (hex(high), hex(low)) {
        (Some(h), Some(l)) => Some(h * 16 + l),
        _ => None,
    }
}

/// The place of the first byte from `p` on that is white space (`blank`) or
/// that is not.
pub open spec fn run_end(s: Seq<u8>, p: int, blank: bool) -> int
    decreases s.len() - p,
{
    if p < 0 || p >= s.len() || is_blank(s[p]) != blank {
        p
    } else {
        run_end(s, p + 1, blank)
    }
}

pub proof fn lemma_run_end(s: Seq<u8>, p: int, blank: bool)
    requires
        0 <= p <= s.len(),
    ensures
        p <= run_end(s, p, blank) <= s.len(),
        run_end(s, p, blank) < s.len() ==> is_blank(s[run_end(s, p, blank)]) != blank,
    decreases s.len() - p,
{
    if p < s.len() && is_blank(s[p]) == blank {
        lemma_run_end(s, p + 1, blank);
    }
}

fn skip_run(s: &Vec<u8>, p: usize, of_blank: bool) -> (r: usize)
    requires
        p <= s@.len(),
    ensures
        r == run_end(s@, p as int, of_blank),
        p <= r <= s@.len(),
{
    let mut at: usize = p;
    while at < s.len() && blank(s[at]) == of_blank
        invariant
            p <= at <= s@.len(),
            run_end(s@, at as int, of_blank) == run_end(s@, p as int, of_blank),
        decreases s@.len() - at,
    {
        at = at + 1;
    }
    at
}

/// What a one-letter escape stands for.
pub open spec fn escaped(byte: u8) -> Option<u8> {
    if byte == 34 || byte == 92 || byte == 39 {
        Some(byte)
    } else if byte == 110 {
        Some(10)
    } else if byte == 114 {
        Some(13)
    } else if byte == 116 {
        Some(9)
    } else {
        None
    }
}

/// The quoted field whose contents go on at `p` behind `seen`, and where it
/// ends.
pub open spec fn quoted(s: Seq<u8>, p: int, seen: Seq<u8>) -> Option<(Seq<u8>, int)>
    decreases s.len() - p,
{
    if p < 0 || p >= s.len() {
        None
    } else if s[p] == 34 {
        Some((seen, p + 1))
    } else if s[p] == 92 {
        if p + 1 >= s.len() {
            None
        } else if s[p + 1] == 120 {
            if p + 3 >= s.len() {
                None
            } else {
                match hex_pair(s[p + 2], s[p + 3]) {
                    Some(byte) => quoted(s, p + 4, seen.push(byte)),
                    None => None,
                }
            }
        } else {
            match escaped(s[p + 1]) {
                Some(byte) => quoted(s, p + 2, seen.push(byte)),
                None => None,
            }
        }
    } else if s[p] == 10 {
        None
    } else {
        quoted(s, p + 1, seen.push(s[p]))
    }
}

pub proof fn lemma_quoted(s: Seq<u8>, p: int, seen: Seq<u8>)
    ensures
        quoted(s, p, seen) matches Some((_, end)) ==> 0 <= p < end <= s.len(),
    decreases s.len() - p,
{
    if 0 <= p < s.len() && s[p] != 34 {
        if s[p] == 92 {
            if p + 1 < s.len() && s[p + 1] == 120 {
                if p + 3 < s.len() && hex_pair(s[p + 2], s[p + 3]) is Some {
                    lemma_quoted(s, p + 4, seen.push(hex_pair(s[p + 2], s[p + 3])->0));
                }
            } else if p + 1 < s.len() && escaped(s[p + 1]) is Some {
                lemma_quoted(s, p + 2, seen.push(escaped(s[p + 1])->0));
            }
        } else if s[p] != 10 {
            lemma_quoted(s, p + 1, seen.push(s[p]));
        }
    }
}

fn read_quoted(s: &Vec<u8>, p: usize) -> (r: Option<(Vec<u8>, usize)>)
    requires
        p <= s@.len(),
    ensures
        match r {
            Some((field, end)) => quoted(s@, p as int, Seq::empty()) == Some((field@, end as int))
                && p < end <= s@.len(),
            None => quoted(s@, p as int, Seq::empty()) is None,
        },
{
    let mut field: Vec<u8> = Vec::new();
    let mut at: usize = p;
    assert(field@ =~= Seq::empty());
    while at < s.len()
        invariant
            p <= at <= s@.len(),
            quoted(s@, at as int, field@) == quoted(s@, p as int, Seq::empty()),
        decreases s@.len() - at,
    {
        let byte: u8 = s[at];
        if byte == 34 {
            return Some((field, at + 1));
        }
        if byte == 92 {
            if s.len() - at < 2 {
                return None;
            }
            let code: u8 = s[at + 1];
            if code == 120 {
                if s.len() - at < 4 {
                    return None;
                }
                match pair(s[at + 2], s[at + 3]) {
                    Some(value) => {
                        field.push(value);
                        at = at + 4;
                    },
                    None => {
                        return None;
                    },
                }
            } else {
                let value: u8 = if code == 34 || code == 92 || code == 39 {
                    code
                } else if code == 110 {
                    10
                } else if code == 114 {
                    13
                } else if code == 116 {
                    9
                } else {
                    return None;
                };
                field.push(value);
                at = at + 2;
            }
        } else if byte == 10 {
            return None;
        } else {
            field.push(byte);
            at = at + 1;
        }
    }
    None
}

/// `seen` and the fields from `p` on, unless one is malformed.
pub open spec fn fields_from(s: Seq<u8>, p: int, seen: Seq<Seq<char>>) -> Option<Seq<Seq<char>>>
    decreases s.len() - p,
{
    if p < 0 || p >= s.len() {
        Some(seen)
    } else {
        proof {
            lemma_run_end(s, p, true);
        }
        let start = run_end(s, p, true);
        if start >= s.len() {
            Some(seen)
        } else if s[start] == 34 {
            proof {
                lemma_quoted(s, start + 1, Seq::empty());
            }
            match quoted(s, start + 1, Seq::empty()) {
                None => None,
                Some((field, end)) => if vstd::utf8::valid_utf8(field) {
                    fields_from(s, end, seen.push(vstd::utf8::decode_utf8(field)))
                } else {
                    None
                },
            }
        } else {
            proof {
                lemma_run_end(s, start, false);
                assert(run_end(s, start, false) == run_end(s, start + 1, false));
                lemma_run_end(s, start + 1, false);
            }
            let end = run_end(s, start, false);
            let field = s.subrange(start, end);
            if vstd::utf8::valid_utf8(field) {
                fields_from(s, end, seen.push(vstd::utf8::decode_utf8(field)))
            } else {
                None
            }
        }
    }
}

/// The fields of a line: words, or text in quotes with escapes.
pub open spec fn fields(line: Seq<char>) -> Option<Seq<Seq<char>>> {
    fields_from(vstd::utf8::encode_utf8(line), 0, Seq::empty())
}

/// Splits a line into its fields.
pub fn split_fields(line: &str) -> (r: Option<Vec<String>>)
    ensures
        match r {
            Some(found) => fields(line@) == Some(views(found@)),
            None => fields(line@) is None,
        },
{
    let s: Vec<u8> = text::bytes_of(line);
    let mut out: Vec<String> = Vec::new();
    let mut at: usize = 0;
    assert(views(out@) =~= Seq::empty());
    while at < s.len()
        invariant
            at <= s@.len(),
            fields_from(s@, at as int, views(out@)) == fields(line@),
        decreases s@.len() - at,
    {
        let start: usize = skip_run(&s, at, true);
        if start >= s.len() {
            return Some(out);
        }
        let (field, end): (Vec<u8>, usize) = if s[start] == 34 {
            match read_quoted(&s, start + 1) {
                Some(found) => found,
                None => {
                    return None;
                },
            }
        } else {
            let end: usize = skip_run(&s, start, false);
            proof {
                lemma_run_end(s@, at as int, true);
                assert(run_end(s@, start as int, false) == run_end(s@, start + 1, false));
                lemma_run_end(s@, start + 1, false);
            }
            let word: Vec<u8> = crate::bytes::copy_range(s.as_slice(), start, end - start);
            assert(word@ =~= s@.subrange(start as int, end as int));
            (word, end)
        };
        let ghost before = out@;
        match text::from_utf8(field) {
            Some(value) => {
                out.push(value);
                assert(views(out@) =~= views(before).push(value@));
            },
            None => {
                return None;
            },
        }
        at = end;
    }
    Some(out)
}

/// `seen` and the bytes that the pairs of digits from `p` on spell.
pub open spec fn unhex_from(s: Seq<u8>, p: int, seen: Seq<u8>) -> Option<Seq<u8>>
    decreases s.len() - p,
{
    if p < 0 || p + 1 >= s.len() {
        Some(seen)
    } else {
        match hex_pair(s[p], s[p + 1]) {
            Some(byte) => unhex_from(s, p + 2, seen.push(byte)),
            None => None,
        }
    }
}

/// Reads pairs of hexadecimal digits.
pub fn decode_pairs(s: &[u8]) -> (r: Option<Vec<u8>>)
    requires
        s@.len() % 2 == 0,
    ensures
        match r {
            Some(data) => unhex_from(s@, 0, Seq::empty()) == Some(data@),
            None => unhex_from(s@, 0, Seq::empty()) is None,
        },
{
    let mut out: Vec<u8> = Vec::new();
    let mut at: usize = 0;
    assert(out@ =~= Seq::empty());
    while at < s.len()
        invariant
            at <= s@.len(),
            at % 2 == 0,
            s@.len() % 2 == 0,
            unhex_from(s@, at as int, out@) == unhex_from(s@, 0, Seq::empty()),
        decreases s@.len() - at,
    {
        match pair(s[at], s[at + 1]) {
            Some(byte) => {
                out.push(byte);
            },
            None => {
                return None;
            },
        }
        at = at + 2;
    }
    Some(out)
}

/// Whether a text can be the name of a file.
pub open spec fn is_name(name: Seq<char>) -> bool {
    name.len() > 0 && name != "."@ && name != ".."@ && !name.contains('/') && !name.contains('\0')
}

pub fn valid_name(name: &str) -> (r: bool)
    ensures
        r == is_name(name@),
{
    let first: Vec<char> = text::chars_of(name);
    first.len() > 0 && !text::same(name, ".") && !text::same(name, "..") && !text::has_char(
        name,
        '/',
    ) && !text::has_char(name, '\0')
}

/// Digits are the characters from 48 (`0`) and from 97 (`a`) on.
pub proof fn law_digits(value: nat)
    requires
        value < 16,
    ensures
        text::digit(value) as int == if value < 10 {
            48 + value
        } else {
            87 + value
        },
        digit_of(text::digit(value)) == Some(value),
{
}

/// A number that is written in decimal or in hexadecimal is read as that number.
pub proof fn law_written_number_is_read(value: nat, radix: nat)
    requires
        radix == 10 || radix == 16,
    ensures
        digits_value(text::numeral(value, radix), radix) == Some(value),
        text::numeral(value, radix).len() > 0,
    decreases value,
{
    let s = text::numeral(value, radix);
    if value < radix {
        law_digits(value);
        assert(s.drop_last() =~= Seq::empty());
        assert(digits_value(s.drop_last(), radix) == Some(0nat));
        assert(0 * radix == 0) by (nonlinear_arith);
    } else {
        let high = value / radix;
        assert(high < value) by (nonlinear_arith)
            requires
                high == value / radix,
                2 <= radix <= value,
        ;
        law_written_number_is_read(high, radix);
        law_digits(value % radix);
        assert(s.drop_last() =~= text::numeral(high, radix));
        assert(value == high * radix + value % radix) by (nonlinear_arith)
            requires
                high == value / radix,
                radix > 0,
        ;
    }
}

/// A number that is written with leading zeros is read as that number, and has as
/// many digits as were asked for, or more.
pub proof fn law_padded_number_is_read(value: nat, width: nat)
    ensures
        digits_value(text::padded(value, width), 10) == Some(value),
        text::padded(value, width).len() >= width,
{
    law_written_number_is_read(value, 10);
    let digits = text::decimal(value);
    if digits.len() < width {
        let zeros = Seq::new((width - digits.len()) as nat, |i: int| '0');
        lemma_zeros(zeros, digits);
    }
}

proof fn lemma_zeros(zeros: Seq<char>, digits: Seq<char>)
    requires
        forall|i: int| 0 <= i < zeros.len() ==> zeros[i] == '0',
    ensures
        digits_value(zeros + digits, 10) == digits_value(digits, 10),
    decreases zeros.len() + digits.len(),
{
    if digits.len() > 0 {
        assert((zeros + digits).drop_last() =~= zeros + digits.drop_last());
        lemma_zeros(zeros, digits.drop_last());
    } else if zeros.len() > 0 {
        assert((zeros + digits).drop_last() =~= zeros.drop_last() + digits);
        lemma_zeros(zeros.drop_last(), digits);
        assert((zeros + digits).last() == '0');
    } else {
        assert(zeros + digits =~= digits);
    }
}

} // verus!
