//! Text: conversions between bytes, characters and numbers, and the order of texts.

use vstd::prelude::*;
use vstd::string::StringExecFns;
use vstd::utf8::{encode_utf8_decode_utf8, encode_utf8_valid_utf8};
use crate::bytes;

verus! {

/// `String::push` appends a character.
pub assume_specification[ std::string::String::push ](s: &mut std::string::String, ch: char)
    ensures
        final(s)@ == old(s)@.push(ch),
;

/// Calls `String::from_utf8`, which takes exactly the byte sequences that are
/// UTF-8 and gives the characters that they encode.
#[verifier::external_body]
pub(crate) fn from_utf8(data: Vec<u8>) -> (r: Option<String>)
    ensures
        match r {
            Some(text) => vstd::utf8::valid_utf8(data@) && text@ == vstd::utf8::decode_utf8(
                data@,
            ),
            None => !vstd::utf8::valid_utf8(data@),
        },
{
    String::from_utf8(data).ok()
}

/// The characters of a text.
pub fn chars_of(text: &str) -> (r: Vec<char>)
    ensures
        r@ == text@,
{
    let mut out: Vec<char> = Vec::new();
    for c in iter: text.chars()
        invariant
            out@ == iter.seq().take(iter.index() as int),
            iter.seq() == text@,
    {
        out.push(c);
        assert(iter.seq().take(iter.index() + 1) =~= iter.seq().take(iter.index() as int).push(c));
    }
    assert(out@ =~= text@);
    out
}

/// Puts characters together.
pub fn text_of(chars: &[char]) -> (r: String)
    ensures
        r@ == chars@,
{
    let mut out: String = String::new();
    let mut i: usize = 0;
    assert(out@ =~= chars@.take(0));
    while i < chars.len()
        invariant
            i <= chars.len(),
            out@ == chars@.take(i as int),
        decreases chars.len() - i,
    {
        out.push(chars[i]);
        assert(chars@.take(i + 1) =~= chars@.take(i as int).push(chars@[i as int]));
        i = i + 1;
    }
    assert(chars@.take(i as int) =~= chars@);
    out
}

/// Two texts put together.
pub fn joined(a: &str, b: &str) -> (r: String)
    ensures
        r@ == a@ + b@,
{
    let mut out: String = a.to_owned();
    out.append(b);
    out
}

/// Whether two texts are the same.
pub fn same(a: &str, b: &str) -> (r: bool)
    ensures
        r == (a@ == b@),
{
    proof {
        encode_utf8_decode_utf8(a@);
        encode_utf8_decode_utf8(b@);
    }
    bytes::same(a.as_bytes(), b.as_bytes())
}

/// The bytes of a text.
pub fn bytes_of(text: &str) -> (r: Vec<u8>)
    ensures
        r@ == vstd::utf8::encode_utf8(text@),
        vstd::utf8::valid_utf8(r@),
        vstd::utf8::decode_utf8(r@) == text@,
{
    proof {
        encode_utf8_valid_utf8(text@);
        encode_utf8_decode_utf8(text@);
    }
    let data: &[u8] = text.as_bytes();
    let out: Vec<u8> = bytes::copy_range(data, 0, data.len());
    assert(out@ =~= data@);
    out
}

/// A digit below sixteen.
pub open spec fn digit(value: nat) -> char {
    if value == 0 {
        '0'
    } else if value == 1 {
        '1'
    } else if value == 2 {
        '2'
    } else if value == 3 {
        '3'
    } else if value == 4 {
        '4'
    } else if value == 5 {
        '5'
    } else if value == 6 {
        '6'
    } else if value == 7 {
        '7'
    } else if value == 8 {
        '8'
    } else if value == 9 {
        '9'
    } else if value == 10 {
        'a'
    } else if value == 11 {
        'b'
    } else if value == 12 {
        'c'
    } else if value == 13 {
        'd'
    } else if value == 14 {
        'e'
    } else {
        'f'
    }
}

fn digit_char(value: u64) -> (r: char)
    ensures
        r == digit(value as nat),
{
    match value {
        0 => '0',
        1 => '1',
        2 => '2',
        3 => '3',
        4 => '4',
        5 => '5',
        6 => '6',
        7 => '7',
        8 => '8',
        9 => '9',
        10 => 'a',
        11 => 'b',
        12 => 'c',
        13 => 'd',
        14 => 'e',
        _ => 'f',
    }
}

/// A number in a radix of at least two.
pub open spec fn numeral(value: nat, radix: nat) -> Seq<char>
    decreases value,
{
    if radix < 2 || value < radix {
        seq![digit(value)]
    } else {
        proof {
            assert(value / radix < value) by (nonlinear_arith)
                requires
                    2 <= radix <= value,
            ;
        }
        numeral(value / radix, radix).push(digit(value % radix))
    }
}

/// A number in decimal.
pub open spec fn decimal(value: nat) -> Seq<char> {
    numeral(value, 10)
}

/// A number in hexadecimal.
pub open spec fn hexadecimal(value: nat) -> Seq<char> {
    numeral(value, 16)
}

/// A signed number in decimal.
pub open spec fn signed(value: int) -> Seq<char> {
    if value < 0 {
        seq!['-'] + decimal((-value) as nat)
    } else {
        decimal(value as nat)
    }
}

/// A decimal number of at least `width` digits.
pub open spec fn padded(value: nat, width: nat) -> Seq<char> {
    let digits = decimal(value);
    if digits.len() >= width {
        digits
    } else {
        Seq::new((width - digits.len()) as nat, |i: int| '0') + digits
    }
}

fn write_numeral(value: u64, radix: u64) -> (r: Vec<char>)
    requires
        2 <= radix,
    ensures
        r@ == numeral(value as nat, radix as nat),
    decreases value,
{
    if value < radix {
        let mut out: Vec<char> = Vec::new();
        out.push(digit_char(value));
        assert(out@ =~= seq![digit(value as nat)]);
        out
    } else {
        assert(value / radix < value) by (nonlinear_arith)
            requires
                2 <= radix <= value,
        ;
        let mut out: Vec<char> = write_numeral(value / radix, radix);
        out.push(digit_char(value % radix));
        out
    }
}

pub fn decimal_text(value: u64) -> (r: String)
    ensures
        r@ == decimal(value as nat),
{
    let out: Vec<char> = write_numeral(value, 10);
    text_of(out.as_slice())
}

pub fn hexadecimal_text(value: u64) -> (r: String)
    ensures
        r@ == hexadecimal(value as nat),
{
    let out: Vec<char> = write_numeral(value, 16);
    text_of(out.as_slice())
}

pub fn signed_text(value: i32) -> (r: String)
    ensures
        r@ == signed(value as int),
{
    if value < 0 {
        let digits: String = decimal_text((-(value as i64)) as u64);
        let mut out: String = String::new();
        out.push('-');
        assert(out@ =~= seq!['-']);
        out.append(digits.as_str());
        out
    } else {
        decimal_text(value as u64)
    }
}

pub fn padded_text(value: u64, width: usize) -> (r: String)
    ensures
        r@ == padded(value as nat, width as nat),
{
    let digits: Vec<char> = write_numeral(value, 10);
    let mut out: Vec<char> = Vec::new();
    if digits.len() < width {
        out.resize(width - digits.len(), '0');
    }
    let mut rest: Vec<char> = digits;
    out.append(&mut rest);
    assert(out@ =~= padded(value as nat, width as nat));
    text_of(out.as_slice())
}

/// The place of the last occurrence of a character, or -1.
pub open spec fn last_place(text: Seq<char>, c: char) -> int
    decreases text.len(),
{
    if text.len() == 0 {
        -1
    } else if text.last() == c {
        text.len() - 1
    } else {
        last_place(text.drop_last(), c)
    }
}

/// The part of a text up to and with the last occurrence of a character.
pub open spec fn through_last(text: Seq<char>, c: char) -> Seq<char> {
    text.take(last_place(text, c) + 1)
}

pub proof fn lemma_last_place(text: Seq<char>, c: char)
    ensures
        -1 <= last_place(text, c) < text.len(),
        last_place(text, c) >= 0 ==> text[last_place(text, c)] == c,
        forall|i: int| last_place(text, c) < i < text.len() ==> text[i] != c,
    decreases text.len(),
{
    if text.len() > 0 && text.last() != c {
        lemma_last_place(text.drop_last(), c);
        assert forall|i: int| last_place(text, c) < i < text.len() implies text[i] != c by {
            if i < text.len() - 1 {
                assert(text.drop_last()[i] == text[i]);
            }
        }
    }
}

/// The part of a text up to and with the last occurrence of a character, if
/// there is one.
pub fn up_to_last(text: &str, c: char) -> (r: Option<String>)
    ensures
        match r {
            Some(part) => last_place(text@, c) >= 0 && part@ == through_last(text@, c),
            None => last_place(text@, c) < 0,
        },
{
    let chars: Vec<char> = chars_of(text);
    let mut n: usize = chars.len();
    assert(chars@.take(n as int) =~= chars@);
    while n > 0
        invariant
            n <= chars.len(),
            chars@ == text@,
            last_place(text@, c) == last_place(text@.take(n as int), c),
        decreases n,
    {
        if chars[n - 1] == c {
            let mut part: Vec<char> = chars;
            part.truncate(n);
            assert(part@ =~= text@.take(n as int));
            return Some(text_of(part.as_slice()));
        }
        assert(text@.take(n as int).drop_last() =~= text@.take(n - 1));
        n = n - 1;
    }
    None
}

/// Whether a character occurs in a text.
pub fn has_char(text: &str, c: char) -> (r: bool)
    ensures
        r == text@.contains(c),
{
    let chars: Vec<char> = chars_of(text);
    let mut i: usize = 0;
    while i < chars.len()
        invariant
            i <= chars.len(),
            chars@ == text@,
            forall|j: int| 0 <= j < i ==> text@[j] != c,
        decreases chars.len() - i,
    {
        if chars[i] == c {
            assert(text@[i as int] == c);
            return true;
        }
        i = i + 1;
    }
    false
}

/// Whether a text starts with a character.
pub fn starts_with_char(text: &str, c: char) -> (r: bool)
    ensures
        r == (text@.len() > 0 && text@[0] == c),
{
    let chars: Vec<char> = chars_of(text);
    chars.len() > 0 && chars[0] == c
}

/// A text without its first character.
pub fn without_first(text: &str) -> (r: String)
    requires
        text@.len() > 0,
    ensures
        r@ == text@.skip(1),
{
    let chars: Vec<char> = chars_of(text);
    let mut rest: Vec<char> = Vec::new();
    let mut i: usize = 1;
    while i < chars.len()
        invariant
            1 <= i <= chars.len(),
            rest@ == chars@.subrange(1, i as int),
        decreases chars.len() - i,
    {
        rest.push(chars[i]);
        assert(chars@.subrange(1, i + 1) =~= chars@.subrange(1, i as int).push(chars@[i as int]));
        i = i + 1;
    }
    assert(rest@ =~= text@.skip(1));
    text_of(rest.as_slice())
}

/// A text without the occurrences of a character at its end.
pub open spec fn trimmed_end(text: Seq<char>, c: char) -> Seq<char>
    decreases text.len(),
{
    if text.len() > 0 && text.last() == c {
        trimmed_end(text.drop_last(), c)
    } else {
        text
    }
}

pub fn trim_end(text: &str, c: char) -> (r: String)
    ensures
        r@ == trimmed_end(text@, c),
{
    let mut chars: Vec<char> = chars_of(text);
    let mut n: usize = chars.len();
    assert(chars@.take(n as int) =~= chars@);
    while n > 0 && chars[n - 1] == c
        invariant
            n <= chars.len(),
            chars@ == text@,
            trimmed_end(text@, c) == trimmed_end(text@.take(n as int), c),
        decreases n,
    {
        assert(text@.take(n as int).drop_last() =~= text@.take(n - 1));
        n = n - 1;
    }
    chars.truncate(n);
    assert(chars@ =~= text@.take(n as int));
    text_of(chars.as_slice())
}

/// A hexadecimal number of at least `width` digits.
pub open spec fn padded_hexadecimal(value: nat, width: nat) -> Seq<char> {
    let digits = hexadecimal(value);
    if digits.len() >= width {
        digits
    } else {
        Seq::new((width - digits.len()) as nat, |i: int| '0') + digits
    }
}

pub fn padded_hexadecimal_text(value: u64, width: usize) -> (r: String)
    ensures
        r@ == padded_hexadecimal(value as nat, width as nat),
{
    let digits: Vec<char> = write_numeral(value, 16);
    let mut out: Vec<char> = Vec::new();
    if digits.len() < width {
        out.resize(width - digits.len(), '0');
    }
    let mut rest: Vec<char> = digits;
    out.append(&mut rest);
    assert(out@ =~= padded_hexadecimal(value as nat, width as nat));
    text_of(out.as_slice())
}

/// Whether a text comes before another in the order of their characters.
pub open spec fn precedes(a: Seq<char>, b: Seq<char>) -> bool
    decreases a.len(),
{
    if b.len() == 0 {
        false
    } else if a.len() == 0 {
        true
    } else if a[0] != b[0] {
        (a[0] as int) < (b[0] as int)
    } else {
        precedes(a.skip(1), b.skip(1))
    }
}

pub fn text_precedes(a: &str, b: &str) -> (r: bool)
    ensures
        r == precedes(a@, b@),
{
    let x: Vec<char> = chars_of(a);
    let y: Vec<char> = chars_of(b);
    let mut i: usize = 0;
    assert(x@.skip(0) =~= x@ && y@.skip(0) =~= y@);
    while i < x.len() && i < y.len() && x[i] == y[i]
        invariant
            x@ == a@,
            y@ == b@,
            i <= x@.len(),
            i <= y@.len(),
            precedes(x@.skip(i as int), y@.skip(i as int)) == precedes(x@, y@),
        decreases x@.len() - i,
    {
        assert(x@.skip(i as int).skip(1) =~= x@.skip(i + 1));
        assert(y@.skip(i as int).skip(1) =~= y@.skip(i + 1));
        i = i + 1;
    }
    if i >= y.len() {
        false
    } else if i >= x.len() {
        true
    } else {
        let c: char = x[i];
        let d: char = y[i];
        c < d
    }
}

/// Of two different texts exactly one comes first.
pub proof fn lemma_precedes_total(a: Seq<char>, b: Seq<char>)
    ensures
        a == b ==> !precedes(a, b),
        a != b ==> precedes(a, b) != precedes(b, a),
    decreases a.len(),
{
    if a.len() > 0 && b.len() > 0 && a[0] == b[0] {
        lemma_precedes_total(a.skip(1), b.skip(1));
        if a.skip(1) == b.skip(1) {
            assert(a =~= seq![a[0]] + a.skip(1));
            assert(b =~= seq![b[0]] + b.skip(1));
            assert(a =~= b);
        }
    } else if a.len() == 0 && b.len() == 0 {
        assert(a =~= b);
    }
}

/// The order of texts is transitive.
pub proof fn lemma_precedes_transitive(a: Seq<char>, b: Seq<char>, c: Seq<char>)
    requires
        precedes(a, b),
        precedes(b, c),
    ensures
        precedes(a, c),
    decreases a.len(),
{
    if a.len() > 0 && b.len() > 0 && c.len() > 0 && a[0] == b[0] && b[0] == c[0] {
        lemma_precedes_transitive(a.skip(1), b.skip(1), c.skip(1));
    }
}

} // verus!
