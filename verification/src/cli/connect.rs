//! How the two ends of a transfer find each other: the connection line that
//! the remote worker prints, and quoting for the remote shell.

use crate::crypto::keys::array_32_at;
use crate::handshake::hybrid_keys::{pk_from_bytes, pk_to_bytes, KemPublicKey};
use crate::handshake::kem::KEM_PUBLIC_LEN;
use crate::text::{
    chars_of, decimal, decimal_round_trip, hex_digit, is_white, is_word, parse_number,
    parsed_number, push_decimal, split_words, starts_with, strip_prefix, text_of, words,
    words_of_joined, char_views,
};
use vstd::prelude::*;

verus! {

/// Bytes in hexadecimal, lower case.
pub open spec fn hex_text(data: Seq<u8>) -> Seq<char> {
    Seq::new(
        2 * data.len(),
        |i: int|
            if i % 2 == 0 {
                hex_digit((data[i / 2] / 16) as nat)
            } else {
                hex_digit((data[i / 2] % 16) as nat)
            },
    )
}

/// The value of a hexadecimal digit of either case.
pub open spec fn hex_value(c: char) -> Option<int> {
    let n = c as int;
    if 0x30 <= n <= 0x39 {
        Some(n - 0x30)
    } else if 0x61 <= n <= 0x66 {
        Some(n - 0x61 + 10)
    } else if 0x41 <= n <= 0x46 {
        Some(n - 0x41 + 10)
    } else {
        None
    }
}

/// An even number of hexadecimal digits.
pub open spec fn is_hex(text: Seq<char>) -> bool {
    text.len() % 2 == 0 && forall|i: int|
        0 <= i < text.len() ==> hex_value(#[trigger] text[i]) is Some
}

/// The bytes that hexadecimal digits spell.
pub open spec fn unhex(text: Seq<char>) -> Seq<u8> {
    Seq::new(
        text.len() / 2,
        |i: int| (16 * hex_value(text[2 * i])->0 + hex_value(text[2 * i + 1])->0) as u8,
    )
}

/// `hex::encode`: the bytes in hexadecimal, lower case.
#[verifier::external_body]
pub(crate) fn hex_encode(data: &[u8]) -> (text: String)
    ensures
        text@ == hex_text(data@),
{
    hex::encode(data)
}

/// `hex::decode`: the bytes that an even number of hexadecimal digits spell;
/// it fails on any other text.
#[verifier::external_body]
pub(crate) fn hex_decode(text: &str) -> (r: Option<Vec<u8>>)
    ensures
        match r {
            Some(data) => is_hex(text@) && data@ == unhex(text@),
            None => !is_hex(text@),
        },
{
    hex::decode(text).ok()
}

/// What is written in hexadecimal is read back.
pub proof fn hex_round_trip(data: Seq<u8>)
    ensures
        is_hex(hex_text(data)),
        unhex(hex_text(data)) == data,
        forall|i: int| 0 <= i < hex_text(data).len() ==> !is_white(#[trigger] hex_text(data)[i]),
{
    let text = hex_text(data);
    assert forall|i: int| 0 <= i < text.len() implies hex_value(#[trigger] text[i]) is Some
        && !is_white(text[i]) by {
        let b = data[i / 2];
    }
    assert forall|i: int| 0 <= i < data.len() implies unhex(text)[i] == data[i] by {
        assert(text[2 * i] == hex_digit((data[i] / 16) as nat));
        assert(text[2 * i + 1] == hex_digit((data[i] % 16) as nat));
    }
    assert(unhex(text) =~= data);
}

// ── Shell quoting ────────────────────────────────────────────────────────────
/// The text with every single quote replaced by the four characters that stand
/// for one inside single quotes: end of quotes, an escaped quote, quotes again.
pub open spec fn quotes_escaped(text: Seq<char>) -> Seq<char>
    decreases text.len(),
{
    if text.len() == 0 {
        Seq::empty()
    } else if text.last() == '\'' {
        quotes_escaped(text.drop_last()) + seq!['\'', '\\', '\'', '\'']
    } else {
        quotes_escaped(text.drop_last()).push(text.last())
    }
}

/// The text as one word of a shell command.
pub open spec fn quoted(text: Seq<char>) -> Seq<char> {
    seq!['\''] + quotes_escaped(text) + seq!['\'']
}

/// How a shell reads characters from left to right: the words that are
/// complete, the word that it reads, if one has begun, whether single quotes are
/// open, and whether a backslash stood just before.
#[verifier::ext_equal]
pub struct ShellReader {
    pub words: Seq<Seq<char>>,
    pub word: Option<Seq<char>>,
    pub in_quotes: bool,
    pub escaped: bool,
}

impl ShellReader {
    /// A reader that has read nothing.
    pub open spec fn new() -> ShellReader {
        ShellReader { words: Seq::empty(), word: None, in_quotes: false, escaped: false }
    }

    /// The word that is read, with nothing in it if it has just begun.
    pub open spec fn so_far(self) -> Seq<char> {
        match self.word {
            Some(word) => word,
            None => Seq::empty(),
        }
    }
}

pub open spec fn shell_reads(r: ShellReader, c: char) -> ShellReader {
    if r.in_quotes {
        if c == '\'' {
            ShellReader { in_quotes: false, ..r }
        } else {
            ShellReader { word: Some(r.so_far().push(c)), ..r }
        }
    } else if r.escaped {
        ShellReader { word: Some(r.so_far().push(c)), escaped: false, ..r }
    } else if c == '\\' {
        ShellReader { word: Some(r.so_far()), escaped: true, ..r }
    } else if c == '\'' {
        ShellReader { word: Some(r.so_far()), in_quotes: true, ..r }
    } else if c == ' ' || c == '\t' || c == '\n' {
        ShellReader {
            words: match r.word {
                Some(word) => r.words.push(word),
                None => r.words,
            },
            word: None,
            ..r
        }
    } else {
        ShellReader { word: Some(r.so_far().push(c)), ..r }
    }
}

/// The reader after a text.
pub open spec fn shell_read(text: Seq<char>) -> ShellReader
    decreases text.len(),
{
    if text.len() == 0 {
        ShellReader::new()
    } else {
        shell_reads(shell_read(text.drop_last()), text.last())
    }
}

/// Shell-quote a single argument (for SSH command construction).
pub fn shell_quote(s: &str) -> (out: String)
    ensures
        out@ == quoted(s@),
{
    let chars = chars_of(s);
    let n: usize = chars.len();
    let mut out = String::new();
    out.push('\'');
    assert(quotes_escaped(chars@.take(0)) =~= Seq::empty());
    assert(out@ =~= seq!['\''] + quotes_escaped(chars@.take(0)));
    for i in 0..n
        invariant
            n == chars@.len(),
            out@ == seq!['\''] + quotes_escaped(chars@.take(i as int)),
    {
        let ghost before = chars@.take(i as int);
        proof {
            assert(chars@.take(i + 1).drop_last() =~= before);
        }
        let ghost out_before = out@;
        if chars[i] == '\'' {
            out.push('\'');
            out.push('\\');
            out.push('\'');
            out.push('\'');
            assert(out@ =~= out_before + seq!['\'', '\\', '\'', '\'']);
        } else {
            out.push(chars[i]);
        }
        assert(out@ =~= seq!['\''] + quotes_escaped(chars@.take(i + 1)));
    }
    assert(chars@.take(n as int) =~= chars@);
    out.push('\'');
    assert(out@ =~= quoted(s@));
    out
}

proof fn escaped_is_read(text: Seq<char>)
    ensures
        shell_read(seq!['\''] + quotes_escaped(text)) == (ShellReader {
            word: Some(text),
            in_quotes: true,
            ..ShellReader::new()
        }),
    decreases text.len(),
{
    let open = seq!['\''];
    if text.len() == 0 {
        let start = open + quotes_escaped(text);
        assert(start =~= open);
        assert(start.drop_last() =~= Seq::empty());
        assert(start.last() == '\'');
        assert(shell_read(Seq::empty()) == ShellReader::new());
        assert(text =~= Seq::empty());
    } else {
        let front = open + quotes_escaped(text.drop_last());
        escaped_is_read(text.drop_last());
        assert(text =~= text.drop_last().push(text.last()));
        if text.last() == '\'' {
            let one = front.push('\'');
            let two = one.push('\\');
            let three = two.push('\'');
            let four = three.push('\'');
            assert(open + quotes_escaped(text) =~= four);
            assert(one.drop_last() =~= front);
            assert(two.drop_last() =~= one);
            assert(three.drop_last() =~= two);
            assert(four.drop_last() =~= three);
            assert(shell_read(one) == shell_reads(shell_read(front), '\''));
            assert(shell_read(two) == shell_reads(shell_read(one), '\\'));
            assert(shell_read(three) == shell_reads(shell_read(two), '\''));
            assert(shell_read(four) == shell_reads(shell_read(three), '\''));
        } else {
            let all = front.push(text.last());
            assert(open + quotes_escaped(text) =~= all);
            assert(all.drop_last() =~= front);
        }
    }
}

/// A shell reads a quoted text as one word, and as exactly that text, whatever
/// is in it.
pub proof fn quoted_is_read_back(text: Seq<char>)
    ensures
        shell_read(quoted(text)) == (ShellReader { word: Some(text), ..ShellReader::new() }),
{
    let front = seq!['\''] + quotes_escaped(text);
    escaped_is_read(text);
    assert(quoted(text).drop_last() =~= front);
    assert(quoted(text).last() == '\'');
}

// ── The connection line ──────────────────────────────────────────────────────
/// What is wrong with a connection line.
#[derive(Debug, Clone, Copy, PartialEq, Eq, Structural)]
pub enum LineError {
    BadPort,
    BadX25519Hex,
    X25519Length,
    BadKemHex,
    InvalidKem,
    MissingPort,
    MissingX25519,
    MissingKem,
}

impl LineError {
    pub open spec fn text(self) -> Seq<char> {
        match self {
            LineError::BadPort => "bad PORT"@,
            LineError::BadX25519Hex => "bad X25519 hex"@,
            LineError::X25519Length => "X25519 must be 32 bytes"@,
            LineError::BadKemHex => "bad KEM hex"@,
            LineError::InvalidKem => "invalid KEM public key"@,
            LineError::MissingPort => "missing PORT in SEAM line"@,
            LineError::MissingX25519 => "missing X25519 in SEAM line"@,
            LineError::MissingKem => "missing KEM in SEAM line"@,
        }
    }

    /// The error in words.
    pub fn message(self) -> (text: &'static str)
        ensures
            text@ == self.text(),
    {
        match self {
            LineError::BadPort => "bad PORT",
            LineError::BadX25519Hex => "bad X25519 hex",
            LineError::X25519Length => "X25519 must be 32 bytes",
            LineError::BadKemHex => "bad KEM hex",
            LineError::InvalidKem => "invalid KEM public key",
            LineError::MissingPort => "missing PORT in SEAM line",
            LineError::MissingX25519 => "missing X25519 in SEAM line",
            LineError::MissingKem => "missing KEM in SEAM line",
        }
    }
}

/// The fields of a line, as far as it has been read.
#[verifier::ext_equal]
pub struct LineFields {
    pub port: Option<u16>,
    pub x25519: Option<Seq<u8>>,
    pub kem: Option<Seq<u8>>,
}

/// The fields after one more word. A word of another kind is ignored; a later
/// word counts more than an earlier one of the same kind.
pub open spec fn take_word(fields: LineFields, word: Seq<char>) -> Result<LineFields, LineError> {
    if starts_with(word, "PORT="@) {
        match parsed_number(word.skip("PORT="@.len() as int), 65535) {
            Some(port) => Ok(LineFields { port: Some(port as u16), ..fields }),
            None => Err(LineError::BadPort),
        }
    } else if starts_with(word, "X25519="@) {
        let text = word.skip("X25519="@.len() as int);
        if !is_hex(text) {
            Err(LineError::BadX25519Hex)
        } else if unhex(text).len() != 32 {
            Err(LineError::X25519Length)
        } else {
            Ok(LineFields { x25519: Some(unhex(text)), ..fields })
        }
    } else if starts_with(word, "KEM="@) {
        let text = word.skip("KEM="@.len() as int);
        if !is_hex(text) {
            Err(LineError::BadKemHex)
        } else if unhex(text).len() != KEM_PUBLIC_LEN {
            Err(LineError::InvalidKem)
        } else {
            Ok(LineFields { kem: Some(unhex(text)), ..fields })
        }
    } else {
        Ok(fields)
    }
}

/// The fields after all words: the first error counts.
pub open spec fn take_words(list: Seq<Seq<char>>) -> Result<LineFields, LineError>
    decreases list.len(),
{
    if list.len() == 0 {
        Ok(LineFields { port: None, x25519: None, kem: None })
    } else {
        match take_words(list.drop_last()) {
            Ok(fields) => take_word(fields, list.last()),
            Err(e) => Err(e),
        }
    }
}

/// All words but the first.
pub open spec fn after_first(list: Seq<Seq<char>>) -> Seq<Seq<char>> {
    if list.len() == 0 {
        list
    } else {
        list.skip(1)
    }
}

/// What a connection line says: port, X25519 key and KEM public key. Its first
/// word is not looked at.
pub open spec fn parsed_line(line: Seq<char>) -> Result<(u16, Seq<u8>, Seq<u8>), LineError> {
    match take_words(after_first(words(line))) {
        Err(e) => Err(e),
        Ok(fields) => match (fields.port, fields.x25519, fields.kem) {
            (None, _, _) => Err(LineError::MissingPort),
            (_, None, _) => Err(LineError::MissingX25519),
            (_, _, None) => Err(LineError::MissingKem),
            (Some(port), Some(x25519), Some(kem)) => Ok((port, x25519, kem)),
        },
    }
}

/// A connection line.
pub open spec fn seam_line(port: u16, x25519: Seq<u8>, kem: Seq<u8>) -> Seq<char> {
    "SEAM PORT="@ + decimal(port as nat) + " X25519="@ + hex_text(x25519) + " KEM="@ + hex_text(kem)
}

/// The connection line for a worker that listens on `port`.
pub fn format_seam_line(port: u16, x25519: &[u8; 32], kem: &KemPublicKey) -> (line: String)
    ensures
        line@ == seam_line(port, x25519@, kem@),
{
    let mut line = String::new();
    line.push_str("SEAM PORT=");
    push_decimal(&mut line, port as u64);
    line.push_str(" X25519=");
    line.push_str(hex_encode(x25519.as_slice()).as_str());
    line.push_str(" KEM=");
    let pk_bytes = pk_to_bytes(kem);
    line.push_str(hex_encode(pk_bytes.as_slice()).as_str());
    assert(line@ =~= seam_line(port, x25519@, kem@));
    line
}

fn parse_x25519(text: &[char]) -> (r: Result<[u8; 32], LineError>)
    ensures
        match r {
            Ok(key) => is_hex(text@) && unhex(text@) == key@,
            Err(e) => e == (if !is_hex(text@) {
                LineError::BadX25519Hex
            } else {
                LineError::X25519Length
            }) && (is_hex(text@) ==> unhex(text@).len() != 32),
        },
{
    match hex_decode(text_of(text).as_str()) {
        Some(data) => {
            if data.len() != 32 {
                return Err(LineError::X25519Length);
            }
            let key = array_32_at(data.as_slice(), 0);
            assert(key@ =~= data@);
            Ok(key)
        },
        None => Err(LineError::BadX25519Hex),
    }
}

fn parse_kem(text: &[char]) -> (r: Result<KemPublicKey, LineError>)
    ensures
        match r {
            Ok(pk) => is_hex(text@) && unhex(text@) == pk@ && pk@.len() == KEM_PUBLIC_LEN,
            Err(e) => e == (if !is_hex(text@) {
                LineError::BadKemHex
            } else {
                LineError::InvalidKem
            }) && (is_hex(text@) ==> unhex(text@).len() != KEM_PUBLIC_LEN),
        },
{
    match hex_decode(text_of(text).as_str()) {
        Some(data) => match pk_from_bytes(data.as_slice()) {
            Some(pk) => Ok(pk),
            None => Err(LineError::InvalidKem),
        },
        None => Err(LineError::BadKemHex),
    }
}

spec fn fields_shown(
    port: Option<u16>,
    x25519: Option<[u8; 32]>,
    kem: Option<KemPublicKey>,
) -> LineFields {
    LineFields {
        port,
        x25519: match x25519 {
            Some(key) => Some(key@),
            None => None,
        },
        kem: match kem {
            Some(pk) => Some(pk@),
            None => None,
        },
    }
}

/// Read a connection line.
pub fn parse_seam_line(line: &str) -> (r: Result<(u16, [u8; 32], KemPublicKey), LineError>)
    ensures
        match r {
            Ok(fields) => parsed_line(line@) == Ok::<(u16, Seq<u8>, Seq<u8>), LineError>(
                (fields.0, fields.1@, fields.2@),
            ),
            Err(e) => parsed_line(line@) == Err::<(u16, Seq<u8>, Seq<u8>), LineError>(e),
        },
{
    let chars = chars_of(line);
    let list = split_words(chars.as_slice());
    let ghost rest = after_first(words(line@));
    let n: usize = list.len();
    let mut port: Option<u16> = None;
    let mut x25519: Option<[u8; 32]> = None;
    let mut kem: Option<KemPublicKey> = None;
    let mut i: usize = 1;
    proof {
        assert(rest.take(0) =~= Seq::empty());
        assert(char_views(list@).len() == n);
    }
    while i < n
        invariant
            char_views(list@) == words(line@),
            n == list@.len(),
            i >= 1,
            n >= 1 ==> i <= n,
            rest == after_first(words(line@)),
            n >= 1 ==> take_words(rest.take(i - 1)) == Ok::<LineFields, LineError>(
                fields_shown(port, x25519, kem),
            ),
            n == 0 ==> port is None && x25519 is None && kem is None,
        decreases n - i,
    {
        let word = list[i].as_slice();
        proof {
            assert(word@ == words(line@)[i as int]);
            assert(rest.take(i as int).drop_last() =~= rest.take(i - 1));
            assert(rest.take(i as int).last() == word@);
            take_words_prefix(rest, i as int);
        }
        if let Some(v) = strip_prefix(word, "PORT=") {
            match parse_number(v, 65535) {
                Some(p) => {
                    port = Some(p as u16);
                },
                None => {
                    return Err(LineError::BadPort);
                },
            }
        } else if let Some(v) = strip_prefix(word, "X25519=") {
            match parse_x25519(v) {
                Ok(key) => {
                    x25519 = Some(key);
                },
                Err(e) => {
                    return Err(e);
                },
            }
        } else if let Some(v) = strip_prefix(word, "KEM=") {
            match parse_kem(v) {
                Ok(pk) => {
                    kem = Some(pk);
                },
                Err(e) => {
                    return Err(e);
                },
            }
        }
        i = i + 1;
    }
    proof {
        if n >= 1 {
            assert(rest.take(n - 1) =~= rest);
        } else {
            assert(rest =~= Seq::empty());
        }
        assert(take_words(rest) == Ok::<LineFields, LineError>(fields_shown(port, x25519, kem)));
    }
    let port: u16 = match port {
        Some(port) => port,
        None => {
            return Err(LineError::MissingPort);
        },
    };
    let x25519 = match x25519 {
        Some(key) => key,
        None => {
            return Err(LineError::MissingX25519);
        },
    };
    match kem {
        Some(kem) => Ok((port, x25519, kem)),
        None => Err(LineError::MissingKem),
    }
}

/// An error in the first words is the error of all.
proof fn take_words_prefix(list: Seq<Seq<char>>, k: int)
    requires
        0 <= k <= list.len(),
    ensures
        take_words(list.take(k)) is Err ==> take_words(list) == take_words(list.take(k)),
    decreases list.len() - k,
{
    if k == list.len() {
        assert(list.take(k) =~= list);
    } else {
        take_words_prefix(list, k + 1);
        assert(list.take(k + 1).drop_last() =~= list.take(k));
    }
}

proof fn prefixed_word(prefix: Seq<char>, value: Seq<char>)
    requires
        is_word(prefix),
        forall|i: int| 0 <= i < value.len() ==> !is_white(#[trigger] value[i]),
    ensures
        is_word(prefix + value),
        starts_with(prefix + value, prefix),
        (prefix + value).skip(prefix.len() as int) == value,
{
    let all = prefix + value;
    assert forall|i: int| 0 <= i < all.len() implies !is_white(#[trigger] all[i]) by {
        if i < prefix.len() {
            assert(!is_white(prefix[i]));
        } else {
            assert(!is_white(value[i - prefix.len()]));
        }
    }
    assert(all.take(prefix.len() as int) =~= prefix);
    assert(all.skip(prefix.len() as int) =~= value);
}

proof fn line_words(port: u16, x25519: Seq<u8>, kem: Seq<u8>)
    ensures
        after_first(words(seam_line(port, x25519, kem))) == seq![
            "PORT="@ + decimal(port as nat),
            "X25519="@ + hex_text(x25519),
            "KEM="@ + hex_text(kem),
        ],
{
    reveal_strlit("SEAM PORT=");
    reveal_strlit(" X25519=");
    reveal_strlit(" KEM=");
    reveal_strlit("SEAM");
    reveal_strlit("PORT=");
    reveal_strlit("X25519=");
    reveal_strlit("KEM=");
    decimal_round_trip(port as nat, 65535);
    hex_round_trip(x25519);
    hex_round_trip(kem);
    let w0 = "SEAM"@;
    let w1 = "PORT="@ + decimal(port as nat);
    let w2 = "X25519="@ + hex_text(x25519);
    let w3 = "KEM="@ + hex_text(kem);
    prefixed_word("PORT="@, decimal(port as nat));
    prefixed_word("X25519="@, hex_text(x25519));
    prefixed_word("KEM="@, hex_text(kem));
    let tail2 = w2 + seq![' '] + w3;
    let tail1 = w1 + seq![' '] + tail2;
    let line = w0 + seq![' '] + tail1;
    assert(is_word(w0));
    words_of_joined(w0, tail1);
    words_of_joined(w1, tail2);
    words_of_joined(w2, w3);
    words_of_joined(w3, Seq::empty());
    assert(seam_line(port, x25519, kem) =~= line);
    assert(after_first(words(line)) =~= seq![w1, w2, w3]);
}

/// The reader of a connection line gets what its writer put into it.
pub proof fn seam_line_round_trip(port: u16, x25519: Seq<u8>, kem: Seq<u8>)
    requires
        x25519.len() == 32,
        kem.len() == KEM_PUBLIC_LEN,
    ensures
        parsed_line(seam_line(port, x25519, kem)) == Ok::<(u16, Seq<u8>, Seq<u8>), LineError>(
            (port, x25519, kem),
        ),
{
    reveal_strlit("PORT=");
    reveal_strlit("X25519=");
    reveal_strlit("KEM=");
    decimal_round_trip(port as nat, 65535);
    hex_round_trip(x25519);
    hex_round_trip(kem);
    line_words(port, x25519, kem);
    prefixed_word("PORT="@, decimal(port as nat));
    prefixed_word("X25519="@, hex_text(x25519));
    prefixed_word("KEM="@, hex_text(kem));
    let w1 = "PORT="@ + decimal(port as nat);
    let w2 = "X25519="@ + hex_text(x25519);
    let w3 = "KEM="@ + hex_text(kem);
    let list = seq![w1, w2, w3];
    assert(w2[0] == 'X');
    assert(w3[0] == 'K');
    assert("PORT="@[0] == 'P');
    assert("X25519="@[0] == 'X');
    assert(!starts_with(w2, "PORT="@)) by {
        assert(w2.take(5)[0] == 'X');
    }
    assert(!starts_with(w3, "PORT="@)) by {
        assert(w3.take(5)[0] == 'K');
    }
    assert(!starts_with(w3, "X25519="@)) by {
        assert(w3.take(7)[0] == 'K');
    }
    let l0 = Seq::<Seq<char>>::empty();
    let l1 = seq![w1];
    let l2 = seq![w1, w2];
    assert(l1.drop_last() =~= l0);
    assert(l2.drop_last() =~= l1);
    assert(list.drop_last() =~= l2);
    let f0 = LineFields { port: None, x25519: None, kem: None };
    let f1 = LineFields { port: Some(port), ..f0 };
    let f2 = LineFields { x25519: Some(x25519), ..f1 };
    let f3 = LineFields { kem: Some(kem), ..f2 };
    assert(take_words(l0) == Ok::<LineFields, LineError>(f0));
    assert(take_words(l1) == take_word(f0, w1));
    assert(take_words(l1) == Ok::<LineFields, LineError>(f1));
    assert(take_words(l2) == take_word(f1, w2));
    assert(take_words(l2) == Ok::<LineFields, LineError>(f2));
    assert(take_words(list) == take_word(f2, w3));
    assert(take_words(list) == Ok::<LineFields, LineError>(f3));
}

} // verus!
