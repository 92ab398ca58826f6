//! Text: building strings and writing numbers.

use vstd::prelude::*;
use vstd::slice::{slice_subrange, slice_to_vec};

verus! {

/// `std::string::String::push`: appends the character.
pub assume_specification[ std::string::String::push ](s: &mut std::string::String, ch: char)
    ensures
        final(s)@ == old(s)@.push(ch),
;

/// `std::string::String::push_str`: appends the text.
pub assume_specification[ std::string::String::push_str ](
    s: &mut std::string::String,
    string: &str,
)
    ensures
        final(s)@ == old(s)@ + string@,
;

/// The character for a digit below ten.
pub open spec fn digit(d: nat) -> char {
    if d == 0 {
        '0'
    } else if d == 1 {
        '1'
    } else if d == 2 {
        '2'
    } else if d == 3 {
        '3'
    } else if d == 4 {
        '4'
    } else if d == 5 {
        '5'
    } else if d == 6 {
        '6'
    } else if d == 7 {
        '7'
    } else if d == 8 {
        '8'
    } else {
        '9'
    }
}

/// A number in decimal, without leading zeros.
pub open spec fn decimal(n: nat) -> Seq<char>
    decreases n,
{
    if n < 10 {
        seq![digit(n)]
    } else {
        decimal(n / 10).push(digit(n % 10))
    }
}

fn digit_char(d: u64) -> (c: char)
    requires
        d < 10,
    ensures
        c == digit(d as nat),
{
    match d {
        0 => '0',
        1 => '1',
        2 => '2',
        3 => '3',
        4 => '4',
        5 => '5',
        6 => '6',
        7 => '7',
        8 => '8',
        _ => '9',
    }
}

/// Append a number in decimal.
pub fn push_decimal(out: &mut String, n: u64)
    ensures
        final(out)@ == old(out)@ + decimal(n as nat),
    decreases n,
{
    let ghost before = out@;
    if n >= 10 {
        push_decimal(out, n / 10);
    }
    out.push(digit_char(n % 10));
    assert(out@ =~= before + decimal(n as nat));
}

/// The character for a hexadecimal digit below sixteen.
pub open spec fn hex_digit(d: nat) -> char {
    if d < 10 {
        digit(d)
    } else if d == 10 {
        'a'
    } else if d == 11 {
        'b'
    } else if d == 12 {
        'c'
    } else if d == 13 {
        'd'
    } else if d == 14 {
        'e'
    } else {
        'f'
    }
}

/// A byte as two hexadecimal digits.
pub open spec fn hex_byte(b: u8) -> Seq<char> {
    seq![hex_digit((b / 16) as nat), hex_digit((b % 16) as nat)]
}

fn hex_digit_char(d: u8) -> (c: char)
    requires
        d < 16,
    ensures
        c == hex_digit(d as nat),
{
    match d {
        10 => 'a',
        11 => 'b',
        12 => 'c',
        13 => 'd',
        14 => 'e',
        15 => 'f',
        _ => digit_char(d as u64),
    }
}

/// Append a byte as two hexadecimal digits.
pub fn push_hex_byte(out: &mut String, b: u8)
    ensures
        final(out)@ == old(out)@ + hex_byte(b),
{
    let ghost before = out@;
    out.push(hex_digit_char(b / 16));
    out.push(hex_digit_char(b % 16));
    assert(out@ =~= before + hex_byte(b));
}

/// The characters of a text.
pub fn chars_of(s: &str) -> (out: Vec<char>)
    ensures
        out@ == s@,
{
    let mut out: Vec<char> = Vec::new();
    for c in it: s.chars()
        invariant
            it.seq() == s@,
            out@ == s@.take(it.index()),
    {
        out.push(c);
        assert(out@ =~= s@.take(it.index() + 1));
    }
    assert(s@.take(s@.len() as int) =~= s@);
    out
}

/// The text of the given characters.
pub fn text_of(chars: &[char]) -> (s: String)
    ensures
        s@ == chars@,
{
    let mut s = String::new();
    let n: usize = chars.len();
    for i in 0..n
        invariant
            n == chars@.len(),
            s@ == chars@.take(i as int),
    {
        s.push(chars[i]);
        assert(s@ =~= chars@.take(i + 1));
    }
    assert(chars@.take(n as int) =~= chars@);
    s
}

/// The two texts are the same.
pub fn same_text(a: &str, b: &str) -> (same: bool)
    ensures
        same == (a@ == b@),
{
    let left = chars_of(a);
    let right = chars_of(b);
    same_chars(left.as_slice(), right.as_slice())
}

/// The two runs of characters are the same.
pub fn same_chars(a: &[char], b: &[char]) -> (same: bool)
    ensures
        same == (a@ == b@),
{
    if a.len() != b.len() {
        return false;
    }
    let n: usize = a.len();
    for i in 0..n
        invariant
            n == a@.len() == b@.len(),
            forall|j: int| 0 <= j < i ==> a@[j] == b@[j],
    {
        if a[i] != b[i] {
            assert(a@[i as int] != b@[i as int]);
            return false;
        }
    }
    assert(a@ =~= b@);
    true
}

/// `text` starts with `prefix`.
pub open spec fn starts_with(text: Seq<char>, prefix: Seq<char>) -> bool {
    text.len() >= prefix.len() && text.take(prefix.len() as int) == prefix
}

/// `text` ends with `suffix`.
pub open spec fn ends_with(text: Seq<char>, suffix: Seq<char>) -> bool {
    text.len() >= suffix.len() && text.skip(text.len() - suffix.len()) == suffix
}

/// `part` occurs in `text`.
pub open spec fn contains_text(text: Seq<char>, part: Seq<char>) -> bool {
    exists|i: int|
        0 <= i <= text.len() - part.len() && #[trigger] text.subrange(i, i + part.len()) == part
}

/// The part of `chars` from `from` to `to`.
pub fn chars_at(chars: &[char], from: usize, to: usize) -> (part: &[char])
    requires
        from <= to <= chars@.len(),
    ensures
        part@ == chars@.subrange(from as int, to as int),
{
    slice_subrange(chars, from, to)
}

/// What follows the prefix, if the text starts with it.
pub fn strip_prefix<'a>(chars: &'a [char], prefix: &str) -> (r: Option<&'a [char]>)
    ensures
        match r {
            Some(rest) => starts_with(chars@, prefix@) && rest@ == chars@.skip(prefix@.len() as int),
            None => !starts_with(chars@, prefix@),
        },
{
    let p = chars_of(prefix);
    if chars.len() < p.len() {
        return None;
    }
    let front = chars_at(chars, 0, p.len());
    assert(front@ =~= chars@.take(p@.len() as int));
    if same_chars(front, p.as_slice()) {
        let rest = chars_at(chars, p.len(), chars.len());
        assert(rest@ =~= chars@.skip(p@.len() as int));
        Some(rest)
    } else {
        None
    }
}

/// The text ends with the suffix.
pub fn has_suffix(chars: &[char], suffix: &str) -> (yes: bool)
    ensures
        yes == ends_with(chars@, suffix@),
{
    let s = chars_of(suffix);
    if chars.len() < s.len() {
        return false;
    }
    let back = chars_at(chars, chars.len() - s.len(), chars.len());
    assert(back@ =~= chars@.skip(chars@.len() - s@.len()));
    same_chars(back, s.as_slice())
}

/// The text contains the part.
pub fn has_part(chars: &[char], part: &str) -> (yes: bool)
    ensures
        yes == contains_text(chars@, part@),
{
    let p = chars_of(part);
    let n: usize = p.len();
    if chars.len() < n {
        return false;
    }
    let last: usize = chars.len() - n;
    let mut i: usize = 0;
    loop
        invariant
            n == p@.len(),
            p@ == part@,
            last + n == chars@.len(),
            i <= last,
            forall|j: int| 0 <= j < i ==> #[trigger] chars@.subrange(j, j + n) != p@,
        decreases last - i,
    {
        let total: usize = chars.len();
        assert(i + n <= total);
        if same_chars(chars_at(chars, i, i + n), p.as_slice()) {
            return true;
        }
        if i == last {
            return false;
        }
        i = i + 1;
    }
}

/// The place of the first `c`.
pub fn find_char(chars: &[char], c: char) -> (r: Option<usize>)
    ensures
        match r {
            Some(i) => {
                &&& i < chars@.len()
                &&& chars@[i as int] == c
                &&& forall|j: int| 0 <= j < i ==> chars@[j] != c
            },
            None => forall|j: int| 0 <= j < chars@.len() ==> chars@[j] != c,
        },
{
    let n: usize = chars.len();
    for i in 0..n
        invariant
            n == chars@.len(),
            forall|j: int| 0 <= j < i ==> chars@[j] != c,
    {
        if chars[i] == c {
            return Some(i);
        }
    }
    None
}

/// A white space character, as Unicode defines it.
pub open spec fn is_white(c: char) -> bool {
    let n = c as int;
    9 <= n <= 13 || n == 0x20 || n == 0x85 || n == 0xA0 || n == 0x1680 || 0x2000 <= n <= 0x200A || n
        == 0x2028 || n == 0x2029 || n == 0x202F || n == 0x205F || n == 0x3000
}

/// The character is white space.
pub fn is_white_char(c: char) -> (yes: bool)
    ensures
        yes == is_white(c),
{
    let n: u32 = c as u32;
    (9 <= n && n <= 13) || n == 0x20 || n == 0x85 || n == 0xA0 || n == 0x1680 || (0x2000 <= n && n
        <= 0x200A) || n == 0x2028 || n == 0x2029 || n == 0x202F || n == 0x205F || n == 0x3000
}

/// How many characters in front are not white space.
pub open spec fn word_len(text: Seq<char>) -> nat
    decreases text.len(),
{
    if text.len() == 0 || is_white(text[0]) {
        0
    } else {
        1 + word_len(text.skip(1))
    }
}

proof fn word_len_bound(text: Seq<char>)
    ensures
        word_len(text) <= text.len(),
        forall|i: int| 0 <= i < word_len(text) ==> !is_white(#[trigger] text[i]),
        word_len(text) < text.len() ==> is_white(text[word_len(text) as int]),
    decreases text.len(),
{
    if text.len() > 0 && !is_white(text[0]) {
        word_len_bound(text.skip(1));
        assert forall|i: int| 0 <= i < word_len(text) implies !is_white(#[trigger] text[i]) by {
            if i > 0 {
                assert(text[i] == text.skip(1)[i - 1]);
            }
        }
    }
}

/// The words of a text: what lies between white space.
pub open spec fn words(text: Seq<char>) -> Seq<Seq<char>>
    decreases text.len(),
    via words_decreases
{
    if text.len() == 0 {
        Seq::empty()
    } else if is_white(text[0]) {
        words(text.skip(1))
    } else {
        let n = word_len(text) as int;
        seq![text.take(n)] + words(text.skip(n))
    }
}

#[via_fn]
proof fn words_decreases(text: Seq<char>) {
    word_len_bound(text);
}

/// What the runs of characters hold.
pub open spec fn char_views(parts: Seq<Vec<char>>) -> Seq<Seq<char>> {
    parts.map_values(|part: Vec<char>| part@)
}

/// The words of a text.
pub fn split_words(chars: &[char]) -> (out: Vec<Vec<char>>)
    ensures
        char_views(out@) == words(chars@),
{
    let mut out: Vec<Vec<char>> = Vec::new();
    let n: usize = chars.len();
    let mut i: usize = 0;
    assert(chars@.skip(0) =~= chars@);
    assert(char_views(out@) =~= Seq::empty());
    while i < n
        invariant
            i <= n == chars@.len(),
            words(chars@) == char_views(out@) + words(chars@.skip(i as int)),
        decreases n - i,
    {
        let ghost rest = chars@.skip(i as int);
        if is_white_char(chars[i]) {
            assert(rest.skip(1) =~= chars@.skip(i + 1));
            i = i + 1;
        } else {
            let mut j: usize = i;
            proof {
                word_len_bound(rest);
            }
            while j < n && !is_white_char(chars[j])
                invariant
                    i <= j <= n == chars@.len(),
                    rest == chars@.skip(i as int),
                    j - i <= word_len(rest) <= rest.len(),
                    word_len(rest) < rest.len() ==> is_white(rest[word_len(rest) as int]),
                    forall|k: int| 0 <= k < word_len(rest) ==> !is_white(#[trigger] rest[k]),
                decreases n - j,
            {
                assert(rest[j - i] == chars@[j as int]);
                j = j + 1;
            }
            assert(j - i == word_len(rest)) by {
                if j < n {
                    assert(rest[j - i] == chars@[j as int]);
                }
            }
            let word = chars_at(chars, i, j);
            let ghost before = char_views(out@);
            out.push(slice_to_vec(word));
            proof {
                let k = word_len(rest) as int;
                word_not_empty(rest);
                assert(word@ =~= rest.take(k));
                assert(rest.skip(k) =~= chars@.skip(j as int));
                assert(char_views(out@) =~= before.push(rest.take(k)));
                assert(before + (seq![rest.take(k)] + words(rest.skip(k))) =~= before.push(
                    rest.take(k),
                ) + words(rest.skip(k)));
            }
            i = j;
        }
    }
    assert(words(chars@.skip(n as int)) =~= Seq::empty());
    assert(char_views(out@) + Seq::<Seq<char>>::empty() =~= char_views(out@));
    out
}

proof fn word_not_empty(text: Seq<char>)
    requires
        text.len() > 0,
        !is_white(text[0]),
    ensures
        word_len(text) > 0,
{
}

/// A text without white space.
pub open spec fn is_word(text: Seq<char>) -> bool {
    text.len() > 0 && forall|i: int| 0 <= i < text.len() ==> !is_white(#[trigger] text[i])
}

proof fn word_len_of_word(word: Seq<char>, rest: Seq<char>)
    requires
        forall|i: int| 0 <= i < word.len() ==> !is_white(#[trigger] word[i]),
        rest.len() > 0 ==> is_white(rest[0]),
    ensures
        word_len(word + rest) == word.len(),
    decreases word.len(),
{
    if word.len() == 0 {
        assert(word + rest =~= rest);
    } else {
        assert((word + rest)[0] == word[0]);
        assert((word + rest).skip(1) =~= word.skip(1) + rest);
        assert forall|i: int| 0 <= i < word.len() - 1 implies !is_white(
            #[trigger] word.skip(1)[i],
        ) by {
            assert(!is_white(word[i + 1]));
        }
        word_len_of_word(word.skip(1), rest);
    }
}

/// A word in front of a space is the first word, and the rest follows.
pub proof fn words_of_joined(word: Seq<char>, rest: Seq<char>)
    requires
        is_word(word),
    ensures
        words(word + seq![' '] + rest) == seq![word] + words(rest),
        words(word) == seq![word],
{
    let tail = seq![' '] + rest;
    let all = word + seq![' '] + rest;
    assert(all =~= word + tail);
    word_len_of_word(word, tail);
    assert(!is_white(word[0]));
    assert(all[0] == word[0]);
    assert(all.take(word.len() as int) =~= word);
    assert(all.skip(word.len() as int) =~= tail);
    assert(tail[0] == ' ');
    assert(tail.skip(1) =~= rest);
    assert(words(tail) == words(rest));
    assert(words(all) == seq![word] + words(tail));
    word_len_of_word(word, Seq::empty());
    assert(word + Seq::<char>::empty() =~= word);
    assert(word.take(word.len() as int) =~= word);
    assert(words(word.skip(word.len() as int)) =~= Seq::empty());
}

/// The value of a decimal digit.
pub open spec fn digit_value(c: char) -> Option<nat> {
    let n = c as int;
    if 0x30 <= n <= 0x39 {
        Some((n - 0x30) as nat)
    } else {
        None
    }
}

/// The value of a run of decimal digits.
pub open spec fn digits_value(text: Seq<char>) -> Option<nat>
    decreases text.len(),
{
    if text.len() == 0 {
        Some(0)
    } else {
        match (digits_value(text.drop_last()), digit_value(text.last())) {
            (Some(front), Some(d)) => Some(10 * front + d),
            _ => None,
        }
    }
}

/// A decimal number that is at most `max`; a plus sign may stand in front.
pub open spec fn parsed_number(text: Seq<char>, max: nat) -> Option<nat> {
    let digits = if text.len() > 0 && text[0] == '+' {
        text.skip(1)
    } else {
        text
    };
    match digits_value(digits) {
        Some(n) => if digits.len() > 0 && n <= max {
            Some(n)
        } else {
            None
        },
        None => None,
    }
}

/// Leading digits give at most the value of all.
proof fn digits_value_grows(text: Seq<char>, k: int)
    requires
        0 <= k <= text.len(),
        digits_value(text) is Some,
    ensures
        digits_value(text.take(k)) is Some,
        digits_value(text.take(k))->0 <= digits_value(text)->0,
    decreases text.len() - k,
{
    if k == text.len() {
        assert(text.take(k) =~= text);
    } else {
        digits_value_grows(text, k + 1);
        assert(text.take(k + 1).drop_last() =~= text.take(k));
    }
}

/// The code point of a character.
pub fn char_code(c: char) -> (n: u32)
    ensures
        n == c as int,
{
    c as u32
}

/// Read a decimal number.
pub fn parse_number(chars: &[char], max: u64) -> (r: Option<u64>)
    ensures
        match r {
            Some(n) => parsed_number(chars@, max as nat) == Some(n as nat),
            None => parsed_number(chars@, max as nat) is None,
        },
{
    let total: usize = chars.len();
    let start: usize = if total > 0 && chars[0] == '+' {
        1
    } else {
        0
    };
    let digits = chars_at(chars, start, total);
    proof {
        assert(chars@.subrange(0, total as int) =~= chars@);
        assert(total > 0 ==> chars@.subrange(1, total as int) =~= chars@.skip(1));
    }
    let n: usize = digits.len();
    if n == 0 {
        return None;
    }
    let mut value: u64 = 0;
    for i in 0..n
        invariant
            n == digits@.len(),
            digits_value(digits@.take(i as int)) == Some(value as nat),
            value <= max,
            parsed_number(chars@, max as nat) == (match digits_value(digits@) {
                Some(v) => if v <= max {
                    Some(v)
                } else {
                    None
                },
                None => None,
            }),
    {
        let ch: char = digits[i];
        let c: u32 = char_code(ch);
        proof {
            assert(digits@.take(i + 1).drop_last() =~= digits@.take(i as int));
            assert(digits@.take(i + 1).last() == digits@[i as int]);
            if digits_value(digits@) is Some {
                digits_value_grows(digits@, i + 1);
            }
        }
        if c < 0x30 || c > 0x39 {
            return None;
        }
        let d: u64 = (c - 0x30) as u64;
        assert(digit_value(ch) == Some(d as nat));
        if value > (u64::MAX - d) / 10 || value * 10 + d > max {
            return None;
        }
        assert(digits_value(digits@.take(i + 1)) == Some((10 * (value as nat) + d as nat) as nat));
        value = value * 10 + d;
    }
    assert(digits@.take(n as int) =~= digits@);
    Some(value)
}

proof fn digit_has_value(d: nat)
    requires
        d < 10,
    ensures
        digit_value(digit(d)) == Some(d),
        !is_white(digit(d)),
        digit(d) != '+',
{
}

/// A number written in decimal is read back.
pub proof fn decimal_round_trip(n: nat, max: nat)
    requires
        n <= max,
    ensures
        parsed_number(decimal(n), max) == Some(n),
        is_word(decimal(n)),
{
    decimal_value(n);
}

proof fn decimal_value(n: nat)
    ensures
        digits_value(decimal(n)) == Some(n),
        is_word(decimal(n)),
        decimal(n)[0] != '+',
    decreases n,
{
    digit_has_value(n % 10);
    if n < 10 {
        digit_has_value(n);
        assert(decimal(n).drop_last() =~= Seq::empty());
        assert(digits_value(decimal(n).drop_last()) == Some(0nat));
        assert(decimal(n).last() == digit(n));
    } else {
        decimal_value(n / 10);
        assert(decimal(n).drop_last() =~= decimal(n / 10));
    }
}

/// The text without white space in front.
pub open spec fn trimmed_front(text: Seq<char>) -> Seq<char>
    decreases text.len(),
{
    if text.len() > 0 && is_white(text[0]) {
        trimmed_front(text.skip(1))
    } else {
        text
    }
}

/// The text without white space at the end.
pub open spec fn trimmed_back(text: Seq<char>) -> Seq<char>
    decreases text.len(),
{
    if text.len() > 0 && is_white(text.last()) {
        trimmed_back(text.drop_last())
    } else {
        text
    }
}

/// The text without white space around it.
pub open spec fn trimmed(text: Seq<char>) -> Seq<char> {
    trimmed_back(trimmed_front(text))
}

/// The text without white space around it.
pub fn trim(chars: &[char]) -> (part: &[char])
    ensures
        part@ == trimmed(chars@),
{
    let n: usize = chars.len();
    let mut i: usize = 0;
    assert(chars@.subrange(0, n as int) =~= chars@);
    while i < n && is_white_char(chars[i])
        invariant
            i <= n == chars@.len(),
            trimmed_front(chars@) == trimmed_front(chars@.subrange(i as int, n as int)),
        decreases n - i,
    {
        assert(chars@.subrange(i as int, n as int).skip(1) =~= chars@.subrange(i + 1, n as int));
        i = i + 1;
    }
    let mut j: usize = n;
    while j > i && is_white_char(chars[j - 1])
        invariant
            i <= j <= n == chars@.len(),
            trimmed(chars@) == trimmed_back(chars@.subrange(i as int, j as int)),
        decreases j,
    {
        assert(chars@.subrange(i as int, j as int).drop_last() =~= chars@.subrange(
            i as int,
            j - 1,
        ));
        j = j - 1;
    }
    chars_at(chars, i, j)
}

/// How many characters lie in front of the first line feed.
pub open spec fn line_len(text: Seq<char>) -> nat
    decreases text.len(),
{
    if text.len() == 0 || text[0] == '\n' {
        0
    } else {
        1 + line_len(text.skip(1))
    }
}

/// A line without the carriage return of its line ending.
pub open spec fn without_return(line: Seq<char>) -> Seq<char> {
    if line.len() > 0 && line.last() == '\r' {
        line.drop_last()
    } else {
        line
    }
}

/// The lines of a text. A line ends with a line feed, in front of which a
/// carriage return may stand; the last line need not end.
pub open spec fn lines(text: Seq<char>) -> Seq<Seq<char>>
    decreases text.len(),
    via lines_decreases
{
    if text.len() == 0 {
        Seq::empty()
    } else {
        let n = line_len(text) as int;
        if n < text.len() {
            seq![without_return(text.take(n))] + lines(text.skip(n + 1))
        } else {
            seq![text]
        }
    }
}

#[via_fn]
proof fn lines_decreases(text: Seq<char>) {
}

proof fn line_len_bound(text: Seq<char>)
    ensures
        line_len(text) <= text.len(),
        forall|i: int| 0 <= i < line_len(text) ==> #[trigger] text[i] != '\n',
        line_len(text) < text.len() ==> text[line_len(text) as int] == '\n',
    decreases text.len(),
{
    if text.len() > 0 && text[0] != '\n' {
        line_len_bound(text.skip(1));
        assert forall|i: int| 0 <= i < line_len(text) implies #[trigger] text[i] != '\n' by {
            if i > 0 {
                assert(text[i] == text.skip(1)[i - 1]);
            }
        }
    }
}

/// The lines of a text.
pub fn split_lines(chars: &[char]) -> (out: Vec<Vec<char>>)
    ensures
        char_views(out@) == lines(chars@),
{
    let mut out: Vec<Vec<char>> = Vec::new();
    let n: usize = chars.len();
    let mut i: usize = 0;
    assert(chars@.skip(0) =~= chars@);
    assert(char_views(out@) =~= Seq::empty());
    while i < n
        invariant
            i <= n == chars@.len(),
            lines(chars@) == char_views(out@) + lines(chars@.skip(i as int)),
        decreases n - i,
    {
        let ghost rest = chars@.skip(i as int);
        proof {
            line_len_bound(rest);
        }
        let mut j: usize = i;
        while j < n && chars[j] != '\n'
            invariant
                i <= j <= n == chars@.len(),
                rest == chars@.skip(i as int),
                j - i <= line_len(rest) <= rest.len(),
                line_len(rest) < rest.len() ==> rest[line_len(rest) as int] == '\n',
                forall|k: int| 0 <= k < line_len(rest) ==> #[trigger] rest[k] != '\n',
            decreases n - j,
        {
            assert(rest[j - i] == chars@[j as int]);
            j = j + 1;
        }
        assert(j - i == line_len(rest)) by {
            if j < n {
                assert(rest[j - i] == chars@[j as int]);
            }
        }
        let ghost before = char_views(out@);
        let mut end: usize = j;
        if j < n && j > i && chars[j - 1] == '\r' {
            end = j - 1;
        }
        let line = chars_at(chars, i, end);
        out.push(slice_to_vec(line));
        proof {
            let k = line_len(rest) as int;
            assert(char_views(out@) =~= before.push(line@));
            if j < n {
                assert(line@ =~= without_return(rest.take(k)));
                assert(rest.skip(k + 1) =~= chars@.skip(j + 1));
                assert(before + (seq![line@] + lines(rest.skip(k + 1))) =~= before.push(line@)
                    + lines(rest.skip(k + 1)));
            } else {
                assert(line@ =~= rest);
                assert(lines(chars@.skip(n as int)) =~= Seq::empty());
                assert(before + seq![rest] =~= before.push(rest) + Seq::<Seq<char>>::empty());
            }
        }
        i = if j < n {
            j + 1
        } else {
            j
        };
    }
    assert(lines(chars@.skip(n as int)) =~= Seq::empty());
    assert(char_views(out@) + Seq::<Seq<char>>::empty() =~= char_views(out@));
    out
}

// ── What holds of the parts of a text ────────────────────────────────────────
/// The words of a text are words, and together they are the text without its
/// white space, in order.
pub proof fn words_are_all_but_white(text: Seq<char>)
    ensures
        forall|k: int| 0 <= k < words(text).len() ==> is_word(#[trigger] words(text)[k]),
        words(text).flatten() == text.filter(|c: char| !is_white(c)),
    decreases text.len(),
{
    let dark = |c: char| !is_white(c);
    if text.len() == 0 {
        reveal(Seq::filter);
        assert(words(text).flatten() =~= text.filter(dark));
    } else if is_white(text[0]) {
        words_are_all_but_white(text.skip(1));
        assert(text =~= seq![text[0]] + text.skip(1));
        Seq::filter_distributes_over_add(seq![text[0]], text.skip(1), dark);
        filter_of_one(text[0], dark);
        assert(text.filter(dark) =~= text.skip(1).filter(dark));
    } else {
        word_len_bound(text);
        let n = word_len(text) as int;
        let word = text.take(n);
        let rest = words(text.skip(n));
        words_are_all_but_white(text.skip(n));
        assert(is_word(word));
        assert forall|k: int| 0 <= k < words(text).len() implies is_word(
            #[trigger] words(text)[k],
        ) by {
            if k > 0 {
                assert(words(text)[k] == rest[k - 1]);
            }
        }
        assert(text =~= word + text.skip(n));
        Seq::filter_distributes_over_add(word, text.skip(n), dark);
        filter_of_all(word, dark);
        assert((seq![word] + rest).drop_first() =~= rest);
        assert(words(text).flatten() == word + rest.flatten());
    }
}

proof fn filter_of_one(c: char, keep: spec_fn(char) -> bool)
    ensures
        seq![c].filter(keep) == (if keep(c) {
            seq![c]
        } else {
            Seq::empty()
        }),
{
    reveal(Seq::filter);
    assert(seq![c].drop_last() =~= Seq::empty());
    assert(Seq::<char>::empty().filter(keep) =~= Seq::empty());
    assert(seq![c].filter(keep) =~= if keep(c) {
        seq![c]
    } else {
        Seq::empty()
    });
}

proof fn filter_of_all(text: Seq<char>, keep: spec_fn(char) -> bool)
    requires
        forall|i: int| 0 <= i < text.len() ==> keep(#[trigger] text[i]),
    ensures
        text.filter(keep) == text,
    decreases text.len(),
{
    reveal(Seq::filter);
    if text.len() > 0 {
        let front = text.drop_last();
        assert forall|i: int| 0 <= i < front.len() implies keep(#[trigger] front[i]) by {
            assert(front[i] == text[i]);
        }
        filter_of_all(front, keep);
        assert(keep(text[text.len() - 1]));
        assert(front.push(text.last()) =~= text);
    } else {
        assert(text.filter(keep) =~= text);
    }
}

/// A trimmed text starts and ends with no white space, and what was cut off was
/// nothing else.
pub proof fn trimming_cuts_white_space(text: Seq<char>) -> (cut: (int, int))
    ensures
        0 <= cut.0 <= cut.1 <= text.len(),
        trimmed(text) == text.subrange(cut.0, cut.1),
        forall|i: int| 0 <= i < cut.0 ==> is_white(#[trigger] text[i]),
        forall|i: int| cut.1 <= i < text.len() ==> is_white(#[trigger] text[i]),
        trimmed(text).len() > 0 ==> !is_white(trimmed(text)[0]) && !is_white(trimmed(text).last()),
{
    let from = cut_front(text);
    let rest = text.skip(from);
    let to = cut_back(rest);
    assert(trimmed(text) =~= text.subrange(from, from + to));
    assert forall|i: int| from + to <= i < text.len() implies is_white(#[trigger] text[i]) by {
        assert(rest[i - from] == text[i]);
    }
    (from, from + to)
}

proof fn cut_front(text: Seq<char>) -> (from: int)
    ensures
        0 <= from <= text.len(),
        trimmed_front(text) == text.skip(from),
        forall|i: int| 0 <= i < from ==> is_white(#[trigger] text[i]),
        from < text.len() ==> !is_white(text[from]),
    decreases text.len(),
{
    if text.len() > 0 && is_white(text[0]) {
        let rest = text.skip(1);
        let from = cut_front(rest);
        assert(rest.skip(from) =~= text.skip(from + 1));
        assert forall|i: int| 0 <= i < from + 1 implies is_white(#[trigger] text[i]) by {
            if i > 0 {
                assert(rest[i - 1] == text[i]);
            }
        }
        from + 1
    } else {
        assert(text.skip(0) =~= text);
        0
    }
}

proof fn cut_back(text: Seq<char>) -> (to: int)
    ensures
        0 <= to <= text.len(),
        trimmed_back(text) == text.take(to),
        forall|i: int| to <= i < text.len() ==> is_white(#[trigger] text[i]),
        to > 0 ==> !is_white(text[to - 1]),
    decreases text.len(),
{
    if text.len() > 0 && is_white(text.last()) {
        let front = text.drop_last();
        let to = cut_back(front);
        assert(front.take(to) =~= text.take(to));
        assert forall|i: int| to <= i < text.len() implies is_white(#[trigger] text[i]) by {
            if i < front.len() {
                assert(front[i] == text[i]);
            }
        }
        to
    } else {
        assert(text.take(text.len() as int) =~= text);
        text.len() as int
    }
}

/// A line ends with a line feed, in front of which one carriage return counts as
/// part of the ending; what follows has its own lines. A text without a line feed
/// is one line as it is, unless it is empty.
pub proof fn lines_end_with_line_feeds(line: Seq<char>, rest: Seq<char>)
    requires
        !line.contains('\n'),
    ensures
        lines(line + seq!['\n'] + rest) == seq![
            if line.len() > 0 && line.last() == '\r' {
                line.drop_last()
            } else {
                line
            },
        ] + lines(rest),
        line.len() > 0 ==> lines(line) == seq![line],
        lines(Seq::empty()).len() == 0,
{
    let all = line + seq!['\n'] + rest;
    let n = line.len() as int;
    line_len_bound(all);
    line_len_bound(line);
    let k = line_len(all) as int;
    assert(all[n] == '\n');
    assert(k == n) by {
        if k < n {
            assert(all[k] == line[k]);
            assert(line.contains(line[k]));
        }
    }
    assert(all.take(n) =~= line);
    assert(all.skip(n + 1) =~= rest);
    if line_len(line) < line.len() {
        assert(line.contains(line[line_len(line) as int]));
    }
}

} // verus!
