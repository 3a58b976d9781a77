//! Session descriptors, session tokens and the per-user registry of
//! sessions.
//!
//! A descriptor is a small text file at the session's path that tells
//! clients the loopback port and the token of the master.

use vstd::prelude::*;

use crate::text::{
    is_white_space, string_push, strings_view, trim, trim_chars, trim_end, trim_start,
    lemma_contains_concat, lemma_decimal_plain, lemma_decimal_value, lemma_first_index_at,
    lemma_lines_one_line, lines_after, strip_cr,
    chars_equal, collect_chars, decimal, find_char, first_index, lines, lines_view, parse_unsigned,
    push_decimal, split_lines, string_from_chars, sub_chars, unsigned_value,
};

verus! {

/// Where a session's master listens, and the token that admits clients.
#[derive(Debug, PartialEq, Eq)]
pub struct SessionDescriptor {
    pub port: u16,
    pub token: String,
    pub pid: u32,
}

/// A session descriptor as plain values.
pub struct DescriptorView {
    pub port: u16,
    pub token: Seq<char>,
    pub pid: u32,
}

impl View for SessionDescriptor {
    type V = DescriptorView;

    open spec fn view(&self) -> DescriptorView {
        DescriptorView { port: self.port, token: self.token@, pid: self.pid }
    }
}

/// Why a text is not a usable session descriptor.
#[derive(Clone, Copy, Debug, PartialEq, Eq, Structural)]
pub enum DescriptorError {
    /// The first line is not the descriptor magic.
    NotADescriptor,
    /// A `port` line that is not a 16-bit number.
    InvalidPort,
    /// A `pid` line that is not a 32-bit number.
    InvalidPid,
    MissingPort,
    MissingToken,
    MissingPid,
}

/// The first line of every descriptor.
pub open spec fn descriptor_magic() -> Seq<char> {
    "dtach-rs-session-v1"@
}

/// The text of a descriptor.
pub open spec fn descriptor_text(d: DescriptorView) -> Seq<char> {
    descriptor_magic() + "\n"@ + "host=127.0.0.1\n"@ + "port="@ + decimal(d.port as nat) + "\n"@
        + "token="@ + d.token + "\n"@ + "pid="@ + decimal(d.pid as nat) + "\n"@
}

/// Writes a descriptor as text.
pub fn render_descriptor(d: &SessionDescriptor) -> (r: String)
    ensures
        r@ == descriptor_text(d@),
{
    let mut text = String::from_str("dtach-rs-session-v1");
    text.append("\n");
    text.append("host=127.0.0.1\n");
    text.append("port=");
    push_decimal(&mut text, d.port as u64);
    text.append("\n");
    text.append("token=");
    text.append(d.token.as_str());
    text.append("\n");
    text.append("pid=");
    push_decimal(&mut text, d.pid as u64);
    text.append("\n");
    text
}

/// The key and value of a `key=value` line, split at the first `=`.
pub open spec fn key_value(line: Seq<char>) -> Option<(Seq<char>, Seq<char>)> {
    match first_index(line, '=', 0) {
        None => None,
        Some(i) => Some((line.take(i), line.skip(i + 1))),
    }
}

/// The fields found so far while reading a descriptor.
pub struct Fields {
    pub port: Option<u16>,
    pub token: Option<Seq<char>>,
    pub pid: Option<u32>,
}

/// Reads the `key=value` lines from `lines[i]` on; the last line of a key
/// wins, and a bad number stops the reading.
pub open spec fn fields_spec(lines: Seq<Seq<char>>, i: int, found: Fields) -> Result<
    Fields,
    DescriptorError,
>
    decreases lines.len() - i,
{
    if i < 0 || i >= lines.len() {
        Ok(found)
    } else {
        match key_value(lines[i]) {
            None => fields_spec(lines, i + 1, found),
            Some((key, value)) => if key == "port"@ {
                match unsigned_value(value, 65535) {
                    None => Err(DescriptorError::InvalidPort),
                    Some(n) => fields_spec(lines, i + 1, Fields { port: Some(n as u16), ..found }),
                }
            } else if key == "token"@ {
                fields_spec(lines, i + 1, Fields { token: Some(value), ..found })
            } else if key == "pid"@ {
                match unsigned_value(value, 4294967295) {
                    None => Err(DescriptorError::InvalidPid),
                    Some(n) => fields_spec(lines, i + 1, Fields { pid: Some(n as u32), ..found }),
                }
            } else {
                fields_spec(lines, i + 1, found)
            },
        }
    }
}

/// The descriptor that a text stands for.
pub open spec fn descriptor_spec(text: Seq<char>) -> Result<DescriptorView, DescriptorError> {
    let ls = lines(text);
    if ls.len() == 0 || ls[0] != descriptor_magic() {
        Err(DescriptorError::NotADescriptor)
    } else {
        match fields_spec(ls, 1, Fields { port: None, token: None, pid: None }) {
            Err(e) => Err(e),
            Ok(f) => if f.port is None {
                Err(DescriptorError::MissingPort)
            } else if f.token is None {
                Err(DescriptorError::MissingToken)
            } else if f.pid is None {
                Err(DescriptorError::MissingPid)
            } else {
                Ok(
                    DescriptorView {
                        port: f.port.unwrap(),
                        token: f.token.unwrap(),
                        pid: f.pid.unwrap(),
                    },
                )
            },
        }
    }
}

/// A parsed descriptor as plain values.
pub open spec fn descriptor_result_view(r: Result<SessionDescriptor, DescriptorError>) -> Result<
    DescriptorView,
    DescriptorError,
> {
    match r {
        Ok(d) => Ok(d@),
        Err(e) => Err(e),
    }
}

/// The token read so far, as plain values.
pub open spec fn token_view(t: Option<Vec<char>>) -> Option<Seq<char>> {
    match t {
        Some(v) => Some(v@),
        None => None,
    }
}

/// Reads a descriptor's text.
pub fn parse_descriptor(contents: &str) -> (r: Result<SessionDescriptor, DescriptorError>)
    ensures
        descriptor_result_view(r) == descriptor_spec(contents@),
{
    let chars = collect_chars(contents);
    let text_lines = split_lines(chars.as_slice());
    let ghost ls = lines_view(text_lines@);
    let magic = collect_chars("dtach-rs-session-v1");
    if text_lines.len() == 0 {
        return Err(DescriptorError::NotADescriptor);
    }
    assert(ls[0] == text_lines@[0]@);
    if !chars_equal(text_lines[0].as_slice(), magic.as_slice()) {
        return Err(DescriptorError::NotADescriptor);
    }
    let port_key = collect_chars("port");
    let token_key = collect_chars("token");
    let pid_key = collect_chars("pid");
    let mut port: Option<u16> = None;
    let mut token: Option<Vec<char>> = None;
    let mut pid: Option<u32> = None;
    let mut i: usize = 1;
    while i < text_lines.len()
        invariant
            1 <= i <= text_lines.len(),
            ls == lines_view(text_lines@),
            ls == lines(contents@),
            ls.len() > 0 && ls[0] == descriptor_magic(),
            ls.len() == text_lines.len(),
            port_key@ == "port"@,
            token_key@ == "token"@,
            pid_key@ == "pid"@,
            fields_spec(ls, 1, Fields { port: None, token: None, pid: None }) == fields_spec(
                ls,
                i as int,
                Fields { port, token: token_view(token), pid },
            ),
        decreases text_lines.len() - i,
    {
        let line = &text_lines[i];
        assert(ls[i as int] == line@);
        match find_char(line.as_slice(), '=', 0) {
            None => {},
            Some(k) => {
                let key = sub_chars(line.as_slice(), 0, k);
                let value = sub_chars(line.as_slice(), k + 1, line.len());
                assert(key@ =~= line@.take(k as int));
                assert(value@ =~= line@.skip(k + 1));
                if chars_equal(key.as_slice(), port_key.as_slice()) {
                    match parse_unsigned(value.as_slice(), 65535) {
                        None => return Err(DescriptorError::InvalidPort),
                        Some(n) => port = Some(n as u16),
                    }
                } else if chars_equal(key.as_slice(), token_key.as_slice()) {
                    token = Some(value);
                } else if chars_equal(key.as_slice(), pid_key.as_slice()) {
                    match parse_unsigned(value.as_slice(), 4294967295) {
                        None => return Err(DescriptorError::InvalidPid),
                        Some(n) => pid = Some(n as u32),
                    }
                }
            },
        }
        i += 1;
    }
    let port = match port {
        Some(p) => p,
        None => return Err(DescriptorError::MissingPort),
    };
    let token = match token {
        Some(t) => string_from_chars(t.as_slice()),
        None => return Err(DescriptorError::MissingToken),
    };
    let pid = match pid {
        Some(p) => p,
        None => return Err(DescriptorError::MissingPid),
    };
    Ok(SessionDescriptor { port, token, pid })
}


/// A `key=value` line whose key holds no `=` splits into that key and value.
proof fn lemma_key_value(key: Seq<char>, value: Seq<char>)
    requires
        !key.contains('='),
    ensures
        key_value(key + seq!['='] + value) == Some((key, value)),
{
    let line = key + seq!['='] + value;
    assert forall|j: int| 0 <= j < key.len() implies line[j] != '=' by {
        assert(line[j] == key[j]);
        assert(key.contains(key[j]));
    }
    lemma_first_index_at(line, '=', 0, key.len() as int);
    assert(line.take(key.len() as int) =~= key);
    assert(line.skip(key.len() + 1int) =~= value);
}

/// A line that ends in a digit keeps its last character.
proof fn lemma_strip_cr_digits(prefix: Seq<char>, n: nat)
    ensures
        strip_cr(prefix + decimal(n)) == prefix + decimal(n),
{
    lemma_decimal_plain(n);
    lemma_decimal_value(n);
    let line = prefix + decimal(n);
    assert(line.last() == decimal(n).last());
    assert(decimal(n).contains(decimal(n).last()));
}

/// The lines of a descriptor's text.
pub open spec fn descriptor_lines(d: DescriptorView) -> Seq<Seq<char>> {
    seq![
        descriptor_magic(),
        "host=127.0.0.1"@,
        "port="@ + decimal(d.port as nat),
        "token="@ + d.token,
        "pid="@ + decimal(d.pid as nat),
    ]
}

/// A line made of a key, `=` and a number holds no line break and keeps its
/// last character.
proof fn lemma_number_line(key: Seq<char>, n: nat)
    requires
        !key.contains('\n'),
    ensures
        !(key + decimal(n)).contains('\n'),
        strip_cr(key + decimal(n)) == key + decimal(n),
{
    lemma_decimal_plain(n);
    lemma_contains_concat(key, decimal(n), '\n');
    lemma_strip_cr_digits(key, n);
}

/// The text of a descriptor splits into its five lines.
proof fn lemma_descriptor_lines(d: DescriptorView)
    requires
        !d.token.contains('\n'),
        d.token.len() > 0 ==> d.token.last() != '\r',
    ensures
        lines(descriptor_text(d)) == descriptor_lines(d),
{
    reveal_strlit("dtach-rs-session-v1");
    reveal_strlit("\n");
    reveal_strlit("host=127.0.0.1\n");
    reveal_strlit("host=127.0.0.1");
    reveal_strlit("port=");
    reveal_strlit("token=");
    reveal_strlit("pid=");
    let nl = seq!['\n'];
    let e: Seq<char> = Seq::empty();
    let ls = descriptor_lines(d);
    let r4 = ls[4] + nl;
    let r3 = ls[3] + nl + r4;
    let r2 = ls[2] + nl + r3;
    let r1 = ls[1] + nl + r2;
    assert(descriptor_text(d) =~= ls[0] + nl + r1);
    assert(!ls[0].contains('\n'));
    assert(!ls[1].contains('\n'));
    assert(!"token="@.contains('\n'));
    lemma_number_line("port="@, d.port as nat);
    lemma_number_line("pid="@, d.pid as nat);
    lemma_contains_concat("token="@, d.token, '\n');
    lemma_lines_one_line(ls[0], r1, e);
    lemma_lines_one_line(ls[1], r2, e);
    lemma_lines_one_line(ls[2], r3, e);
    lemma_lines_one_line(ls[3], r4, e);
    lemma_lines_one_line(ls[4], e, e);
    assert(ls[4] + nl + e =~= r4);
    assert(e + ls[0] =~= ls[0]);
    assert(e + ls[1] =~= ls[1]);
    assert(e + ls[2] =~= ls[2]);
    assert(e + ls[3] =~= ls[3]);
    assert(e + ls[4] =~= ls[4]);
    assert(strip_cr(ls[0]) == ls[0]);
    assert(strip_cr(ls[1]) == ls[1]);
    assert(strip_cr(ls[3]) == ls[3]) by {
        if d.token.len() > 0 {
            assert(ls[3].last() == d.token.last());
        } else {
            assert(ls[3].last() == '=');
        }
    }
    assert(lines_after(e, e) =~= Seq::<Seq<char>>::empty());
    assert(lines(descriptor_text(d)) =~= ls);
}

/// The lines of a descriptor's text give its fields.
proof fn lemma_descriptor_fields(d: DescriptorView)
    ensures
        fields_spec(descriptor_lines(d), 1, Fields { port: None, token: None, pid: None }) == Ok::<
            Fields,
            DescriptorError,
        >(Fields { port: Some(d.port), token: Some(d.token), pid: Some(d.pid) }),
{
    reveal_strlit("host=127.0.0.1");
    reveal_strlit("port=");
    reveal_strlit("token=");
    reveal_strlit("pid=");
    reveal_strlit("port");
    reveal_strlit("token");
    reveal_strlit("pid");
    let ls = descriptor_lines(d);
    let eq = seq!['='];
    let host_key = seq!['h', 'o', 's', 't'];
    let host_value = seq!['1', '2', '7', '.', '0', '.', '0', '.', '1'];
    assert(ls[1] =~= host_key + eq + host_value);
    assert(ls[2] =~= "port"@ + eq + decimal(d.port as nat));
    assert(ls[3] =~= "token"@ + eq + d.token);
    assert(ls[4] =~= "pid"@ + eq + decimal(d.pid as nat));
    assert(!host_key.contains('='));
    assert(!"port"@.contains('='));
    assert(!"token"@.contains('='));
    assert(!"pid"@.contains('='));
    lemma_key_value(host_key, host_value);
    lemma_key_value("port"@, decimal(d.port as nat));
    lemma_key_value("token"@, d.token);
    lemma_key_value("pid"@, decimal(d.pid as nat));
    assert(host_key != "port"@ && host_key != "token"@ && host_key != "pid"@) by {
        assert(host_key[0] != "port"@[0]);
        assert(host_key[0] != "token"@[0]);
        assert(host_key[0] != "pid"@[0]);
    }
    assert("token"@ != "port"@) by {
        assert("token"@[0] != "port"@[0]);
    }
    assert("pid"@ != "port"@ && "pid"@ != "token"@) by {
        assert("pid"@[1] != "port"@[1]);
        assert("pid"@[0] != "token"@[0]);
    }
    lemma_decimal_value(d.port as nat);
    lemma_decimal_value(d.pid as nat);
    let none = Fields { port: None, token: None, pid: None };
    let f2 = Fields { port: Some(d.port), token: None, pid: None };
    let f3 = Fields { port: Some(d.port), token: Some(d.token), pid: None };
    let f4 = Fields { port: Some(d.port), token: Some(d.token), pid: Some(d.pid) };
    assert(fields_spec(ls, 5, f4) == Ok::<Fields, DescriptorError>(f4));
    assert(fields_spec(ls, 4, f3) == fields_spec(ls, 5, f4));
    assert(fields_spec(ls, 3, f2) == fields_spec(ls, 4, f3));
    assert(fields_spec(ls, 2, none) == fields_spec(ls, 3, f2));
    assert(fields_spec(ls, 1, none) == fields_spec(ls, 2, none));
}

/// Reading the text of a descriptor gives the descriptor back, when its token
/// holds no line break and does not end with a carriage return.
pub proof fn lemma_descriptor_round_trip(d: DescriptorView)
    requires
        !d.token.contains('\n'),
        d.token.len() > 0 ==> d.token.last() != '\r',
    ensures
        descriptor_spec(descriptor_text(d)) == Ok::<DescriptorView, DescriptorError>(d),
{
    lemma_descriptor_lines(d);
    lemma_descriptor_fields(d);
}


/// `getrandom`'s error type.
#[verifier::external_type_specification]
#[verifier::external_body]
pub struct ExRandomError(getrandom::Error);

/// Fills `buf` with random bytes from the system.
///
/// Trusted: calls `getrandom::fill`. What it writes is chance, so nothing is
/// stated of the bytes; the buffer keeps its length, which its type fixes.
#[verifier::external_body]
fn fill_random(buf: &mut [u8; 32]) -> (r: Result<(), getrandom::Error>) {
    getrandom::fill(buf)
}

/// Why no session token could be made.
#[derive(Debug)]
pub enum TokenError {
    /// The system's random source failed.
    Random(getrandom::Error),
}

/// The lowercase hexadecimal digit of a number below 16.
pub open spec fn hex_digit(d: nat) -> char {
    if d < 10 {
        ((d + 48) as u8) as char
    } else {
        ((d + 87) as u8) as char
    }
}

/// Two lowercase hexadecimal digits per byte.
pub open spec fn hex(bytes: Seq<u8>) -> Seq<char>
    decreases bytes.len(),
{
    if bytes.len() == 0 {
        Seq::empty()
    } else {
        hex(bytes.drop_last()) + seq![
            hex_digit(bytes.last() as nat / 16),
            hex_digit(bytes.last() as nat % 16),
        ]
    }
}

/// The lowercase hexadecimal digit of a number below 16.
fn hex_char(d: u8) -> (c: char)
    requires
        d < 16,
    ensures
        c == hex_digit(d as nat),
{
    if d < 10 {
        (d + 48) as char
    } else {
        (d + 87) as char
    }
}

/// Writes bytes as lowercase hexadecimal, two digits per byte.
pub fn hex_string(bytes: &[u8]) -> (r: String)
    ensures
        r@ == hex(bytes@),
{
    let mut r = String::new();
    let mut i: usize = 0;
    while i < bytes.len()
        invariant
            i <= bytes.len(),
            r@ == hex(bytes@.take(i as int)),
        decreases bytes.len() - i,
    {
        let b = bytes[i];
        string_push(&mut r, hex_char(b / 16));
        string_push(&mut r, hex_char(b % 16));
        assert(bytes@.take(i + 1).drop_last() =~= bytes@.take(i as int));
        assert(r@ =~= hex(bytes@.take(i + 1)));
        i += 1;
    }
    assert(bytes@.take(bytes.len() as int) =~= bytes@);
    r
}

/// The token made from what the random source gave: the hexadecimal of the
/// filled bytes, or the source's error.
pub fn token_from_fill(filled: Result<(), getrandom::Error>, bytes: &[u8; 32]) -> (r: Result<
    String,
    TokenError,
>)
    ensures
        match filled {
            Ok(()) => r matches Ok(t) && t@ == hex(bytes@),
            Err(e) => r matches Err(TokenError::Random(x)) && x == e,
        },
{
    match filled {
        Ok(()) => Ok(hex_string(bytes.as_slice())),
        Err(e) => Err(TokenError::Random(e)),
    }
}

/// A fresh session token: 32 random bytes in hexadecimal.
pub fn random_token() -> (r: Result<String, TokenError>)
    ensures
        r matches Ok(t) ==> exists|b: Seq<u8>| b.len() == 32 && t@ == #[trigger] hex(b),
{
    let mut bytes = [0u8; 32];
    let filled = fill_random(&mut bytes);
    let r = token_from_fill(filled, &bytes);
    assert(r matches Ok(t) ==> t@ == hex(bytes@));
    r
}

/// Whether two paths name the same path, as `Path`'s `==` compares them
/// (component by component).
pub uninterp spec fn same_path(a: Seq<char>, b: Seq<char>) -> bool;

/// Whether two paths are equal as paths.
///
/// Trusted: calls `==` on two `std::path::Path`s; the result is named
/// `same_path`, a function of the two texts alone.
#[verifier::external_body]
pub(crate) fn paths_equal(a: &str, b: &str) -> (r: bool)
    ensures
        r == same_path(a@, b@),
{
    std::path::Path::new(a) == std::path::Path::new(b)
}

/// The registry entries of a registry file's lines: each line trimmed,
/// empty ones dropped.
pub open spec fn registry_entries_of(ls: Seq<Seq<char>>) -> Seq<Seq<char>>
    decreases ls.len(),
{
    if ls.len() == 0 {
        Seq::empty()
    } else {
        let rest = registry_entries_of(ls.skip(1));
        if trim(ls[0]).len() > 0 {
            seq![trim(ls[0])] + rest
        } else {
            rest
        }
    }
}

/// Reads the registry file's text: one session path per line.
pub fn parse_registry(contents: &str) -> (r: Vec<String>)
    ensures
        strings_view(r@) == registry_entries_of(lines(contents@)),
{
    let chars = collect_chars(contents);
    let text_lines = split_lines(chars.as_slice());
    let ghost ls = lines_view(text_lines@);
    let mut r: Vec<String> = Vec::new();
    let mut i: usize = 0;
    assert(ls.skip(0) =~= ls);
    assert(strings_view(r@) =~= Seq::<Seq<char>>::empty());
    assert(strings_view(r@) + registry_entries_of(ls) =~= registry_entries_of(ls));
    while i < text_lines.len()
        invariant
            i <= text_lines.len(),
            ls == lines_view(text_lines@),
            ls.len() == text_lines.len(),
            ls == lines(contents@),
            strings_view(r@) + registry_entries_of(ls.skip(i as int)) == registry_entries_of(ls),
        decreases text_lines.len() - i,
    {
        assert(ls[i as int] == text_lines@[i as int]@);
        assert(ls.skip(i as int).skip(1) =~= ls.skip(i + 1));
        let trimmed = trim_chars(text_lines[i].as_slice());
        if trimmed.len() > 0 {
            let entry = string_from_chars(trimmed.as_slice());
            let ghost before = r@;
            r.push(entry);
            assert(strings_view(r@) =~= strings_view(before).push(entry@));
            assert(strings_view(r@) + registry_entries_of(ls.skip(i + 1)) =~= strings_view(before)
                + (seq![entry@] + registry_entries_of(ls.skip(i + 1))));
        }
        i += 1;
    }
    assert(ls.skip(i as int) =~= Seq::<Seq<char>>::empty());
    assert(strings_view(r@) + Seq::<Seq<char>>::empty() =~= strings_view(r@));
    r
}

/// The registry file's text: each entry on a line of its own.
pub open spec fn registry_text(entries: Seq<Seq<char>>) -> Seq<char>
    decreases entries.len(),
{
    if entries.len() == 0 {
        Seq::empty()
    } else {
        entries[0] + seq!['\n'] + registry_text(entries.skip(1))
    }
}

/// Writes the registry file's text.
pub fn render_registry(entries: &Vec<String>) -> (r: String)
    ensures
        r@ == registry_text(strings_view(entries@)),
{
    let ghost es = strings_view(entries@);
    let mut r = String::new();
    let mut i: usize = 0;
    assert(es.skip(0) =~= es);
    assert(r@ + registry_text(es) =~= registry_text(es));
    while i < entries.len()
        invariant
            i <= entries.len(),
            es == strings_view(entries@),
            es.len() == entries.len(),
            r@ + registry_text(es.skip(i as int)) == registry_text(es),
        decreases entries.len() - i,
    {
        assert(es.skip(i as int).skip(1) =~= es.skip(i + 1));
        assert(es[i as int] == entries@[i as int]@);
        let ghost before = r@;
        r.append(entries[i].as_str());
        string_push(&mut r, '\n');
        assert(r@ + registry_text(es.skip(i + 1)) =~= before + registry_text(es.skip(i as int)));
        i += 1;
    }
    assert(es.skip(i as int) =~= Seq::<Seq<char>>::empty());
    assert(r@ + Seq::<char>::empty() =~= r@);
    r
}

/// The lines of a registry text are its entries, when no entry holds a line
/// break or ends with a carriage return.
proof fn lemma_registry_lines(es: Seq<Seq<char>>)
    requires
        forall|i: int| 0 <= i < es.len() ==> !(#[trigger] es[i]).contains('\n'),
        forall|i: int| 0 <= i < es.len() ==> (#[trigger] es[i]).len() > 0 && es[i].last() != '\r',
    ensures
        lines(registry_text(es)) == es,
    decreases es.len(),
{
    if es.len() == 0 {
        assert(lines(registry_text(es)) =~= es);
    } else {
        let rest = registry_text(es.skip(1));
        assert(es[0].len() > 0 && es[0].last() != '\r');
        lemma_lines_one_line(es[0], rest, Seq::empty());
        assert(Seq::<char>::empty() + es[0] =~= es[0]);
        assert forall|i: int| 0 <= i < es.skip(1).len() implies !(#[trigger] es.skip(1)[i]).contains(
            '\n',
        ) && es.skip(1)[i].len() > 0 && es.skip(1)[i].last() != '\r' by {
            assert(es.skip(1)[i] == es[i + 1]);
        }
        lemma_registry_lines(es.skip(1));
        assert(lines(registry_text(es)) =~= es);
    }
}

/// Reading back the registry text of entries gives the entries, when each is
/// nonempty, holds no line break and neither starts nor ends with white space.
pub proof fn lemma_registry_round_trip(es: Seq<Seq<char>>)
    requires
        forall|i: int|
            0 <= i < es.len() ==> {
                &&& (#[trigger] es[i]).len() > 0
                &&& !es[i].contains('\n')
                &&& !is_white_space(es[i][0])
                &&& !is_white_space(es[i].last())
            },
    ensures
        registry_entries_of(lines(registry_text(es))) == es,
{
    assert forall|i: int| 0 <= i < es.len() implies (#[trigger] es[i]).len() > 0 && es[i].last()
        != '\r' by {
        assert(!is_white_space(es[i].last()));
    }
    lemma_registry_lines(es);
    lemma_registry_entries_plain(es);
}

/// Lines that are nonempty and carry no outer white space are entries as
/// they stand.
proof fn lemma_registry_entries_plain(es: Seq<Seq<char>>)
    requires
        forall|i: int|
            0 <= i < es.len() ==> {
                &&& (#[trigger] es[i]).len() > 0
                &&& !is_white_space(es[i][0])
                &&& !is_white_space(es[i].last())
            },
    ensures
        registry_entries_of(es) == es,
    decreases es.len(),
{
    if es.len() > 0 {
        let e = es[0];
        assert(e.len() > 0 && !is_white_space(e[0]) && !is_white_space(e.last()));
        assert(trim_start(e) == e);
        assert(trim_end(e) == e);
        assert forall|i: int| 0 <= i < es.skip(1).len() implies {
            &&& (#[trigger] es.skip(1)[i]).len() > 0
            &&& !is_white_space(es.skip(1)[i][0])
            &&& !is_white_space(es.skip(1)[i].last())
        } by {
            assert(es.skip(1)[i] == es[i + 1]);
        }
        lemma_registry_entries_plain(es.skip(1));
        assert(registry_entries_of(es) =~= es);
    }
}

/// The entries that do not name `path`, in their order.
pub open spec fn entries_without(entries: Seq<Seq<char>>, path: Seq<char>) -> Seq<Seq<char>>
    decreases entries.len(),
{
    if entries.len() == 0 {
        Seq::empty()
    } else {
        let rest = entries_without(entries.drop_last(), path);
        if same_path(entries.last(), path) {
            rest
        } else {
            rest.push(entries.last())
        }
    }
}

/// Unregistering keeps exactly the entries that do not name the same path
/// as `path`, in their order: it is the filter of the entries by that test,
/// and an entry is kept if and only if it was there and names another path.
pub proof fn lemma_entries_without_keeps_others(entries: Seq<Seq<char>>, path: Seq<char>)
    ensures
        entries_without(entries, path) == entries.filter(|e: Seq<char>| !same_path(e, path)),
        forall|e: Seq<char>|
            #[trigger] entries_without(entries, path).contains(e) <==> (entries.contains(e)
                && !same_path(e, path)),
        entries_without(entries, path).len() <= entries.len(),
    decreases entries.len(),
{
    let keep = |e: Seq<char>| !same_path(e, path);
    reveal(Seq::filter);
    if entries.len() > 0 {
        lemma_entries_without_keeps_others(entries.drop_last(), path);
    }
    assert(entries_without(entries, path) == entries.filter(keep));
    entries.lemma_filter_len(keep);
    assert forall|e: Seq<char>|
        #[trigger] entries_without(entries, path).contains(e) <==> (entries.contains(e)
            && !same_path(e, path)) by {
        if entries_without(entries, path).contains(e) {
            entries.lemma_filter_contains_rev(keep, e);
            let i = choose|i: int|
                0 <= i < entries.filter(keep).len() && entries.filter(keep)[i] == e;
            entries.lemma_filter_pred(keep, i);
        }
        if entries.contains(e) && !same_path(e, path) {
            let i = choose|i: int| 0 <= i < entries.len() && entries[i] == e;
            entries.lemma_filter_contains(keep, i);
        }
    }
}

/// Drops the registry entries that name `path`; the others keep their order.
pub fn retain_other_entries(entries: Vec<String>, path: &str) -> (r: Vec<String>)
    ensures
        strings_view(r@) == entries_without(strings_view(entries@), path@),
{
    let ghost es = strings_view(entries@);
    let mut r: Vec<String> = Vec::new();
    let mut i: usize = 0;
    assert(es.take(0) =~= Seq::<Seq<char>>::empty());
    assert(strings_view(r@) =~= Seq::<Seq<char>>::empty());
    while i < entries.len()
        invariant
            i <= entries.len(),
            es == strings_view(entries@),
            es.len() == entries.len(),
            strings_view(r@) == entries_without(es.take(i as int), path@),
        decreases entries.len() - i,
    {
        assert(es.take(i + 1).drop_last() =~= es.take(i as int));
        assert(es[i as int] == entries@[i as int]@);
        if !paths_equal(entries[i].as_str(), path) {
            let entry = entries[i].clone();
            let ghost before = r@;
            r.push(entry);
            assert(strings_view(r@) =~= strings_view(before).push(entry@));
        }
        i += 1;
    }
    assert(es.take(i as int) =~= es);
    r
}

/// Where the registry file lives.
#[derive(Clone, Copy, Debug, PartialEq, Eq, Structural)]
pub enum RegistryBase {
    /// The path that `DTACH_RS_REGISTRY` names, as it stands.
    Explicit,
    /// `%LOCALAPPDATA%\dtach-rs\sessions.txt` (Windows).
    LocalAppData,
    /// `$XDG_STATE_HOME/dtach-rs/sessions`.
    StateHome,
    /// `$HOME/.local/state/dtach-rs/sessions`.
    Home,
    /// `dtach-rs/sessions.txt` in the temporary directory.
    TempDir,
}

/// Picks where the registry lives from which environment values are set:
/// `DTACH_RS_REGISTRY` first; then on Windows `LOCALAPPDATA`, elsewhere
/// `XDG_STATE_HOME` and then `HOME`; else the temporary directory.
pub fn registry_base(
    explicit: bool,
    windows: bool,
    local_app_data: bool,
    state_home: bool,
    home: bool,
) -> (r: RegistryBase)
    ensures
        r == (if explicit {
            RegistryBase::Explicit
        } else if windows {
            if local_app_data {
                RegistryBase::LocalAppData
            } else {
                RegistryBase::TempDir
            }
        } else if state_home {
            RegistryBase::StateHome
        } else if home {
            RegistryBase::Home
        } else {
            RegistryBase::TempDir
        }),
{
    if explicit {
        RegistryBase::Explicit
    } else if windows {
        if local_app_data {
            RegistryBase::LocalAppData
        } else {
            RegistryBase::TempDir
        }
    } else if state_home {
        RegistryBase::StateHome
    } else if home {
        RegistryBase::Home
    } else {
        RegistryBase::TempDir
    }
}

/// The path components that follow the base directory of the registry.
pub open spec fn registry_components(base: RegistryBase) -> Seq<Seq<char>> {
    match base {
        RegistryBase::Explicit => Seq::empty(),
        RegistryBase::LocalAppData => seq!["dtach-rs"@, "sessions.txt"@],
        RegistryBase::StateHome => seq!["dtach-rs"@, "sessions"@],
        RegistryBase::Home => seq![".local"@, "state"@, "dtach-rs"@, "sessions"@],
        RegistryBase::TempDir => seq!["dtach-rs"@, "sessions.txt"@],
    }
}

/// The path components that follow the base directory of the registry.
pub fn registry_suffix(base: RegistryBase) -> (r: Vec<String>)
    ensures
        strings_view(r@) == registry_components(base),
{
    let mut r: Vec<String> = Vec::new();
    match base {
        RegistryBase::Explicit => {},
        RegistryBase::LocalAppData => {
            r.push(String::from_str("dtach-rs"));
            r.push(String::from_str("sessions.txt"));
        },
        RegistryBase::StateHome => {
            r.push(String::from_str("dtach-rs"));
            r.push(String::from_str("sessions"));
        },
        RegistryBase::Home => {
            r.push(String::from_str(".local"));
            r.push(String::from_str("state"));
            r.push(String::from_str("dtach-rs"));
            r.push(String::from_str("sessions"));
        },
        RegistryBase::TempDir => {
            r.push(String::from_str("dtach-rs"));
            r.push(String::from_str("sessions.txt"));
        },
    }
    assert(strings_view(r@) =~= registry_components(base));
    r
}

/// `\\?\UNC\`: the prefix of a verbatim network path.
pub open spec fn verbatim_unc_prefix() -> Seq<char> {
    seq!['\\', '\\', '?', '\\', 'U', 'N', 'C', '\\']
}

/// `\\?\`: the prefix of a verbatim path.
pub open spec fn verbatim_prefix() -> Seq<char> {
    seq!['\\', '\\', '?', '\\']
}

/// A Windows path for display: a verbatim network path `\\?\UNC\x` becomes
/// `\\x`, a verbatim path `\\?\x` becomes `x`, any other path stays.
pub open spec fn display_path(p: Seq<char>) -> Seq<char> {
    if p.len() >= 8 && p.take(8) == verbatim_unc_prefix() {
        seq!['\\', '\\'] + p.skip(8)
    } else if p.len() >= 4 && p.take(4) == verbatim_prefix() {
        p.skip(4)
    } else {
        p
    }
}

/// Drops the verbatim prefix that canonical Windows paths carry.
pub fn clean_display_path(path: &str) -> (r: String)
    ensures
        r@ == display_path(path@),
{
    let chars = collect_chars(path);
    let unc = vec!['\\', '\\', '?', '\\', 'U', 'N', 'C', '\\'];
    assert(unc@ =~= verbatim_unc_prefix());
    if chars.len() >= 8 && chars_equal(sub_chars(chars.as_slice(), 0, 8).as_slice(), unc.as_slice()) {
        let mut r = String::from_str("\\\\");
        proof {
            reveal_strlit("\\\\");
        }
        let rest = sub_chars(chars.as_slice(), 8, chars.len());
        r.append(string_from_chars(rest.as_slice()).as_str());
        assert(r@ =~= display_path(path@));
        return r;
    }
    let verbatim = vec!['\\', '\\', '?', '\\'];
    assert(verbatim@ =~= verbatim_prefix());
    if chars.len() >= 4 && chars_equal(
        sub_chars(chars.as_slice(), 0, 4).as_slice(),
        verbatim.as_slice(),
    ) {
        let rest = sub_chars(chars.as_slice(), 4, chars.len());
        return string_from_chars(rest.as_slice());
    }
    string_from_chars(chars.as_slice())
}

} // verus!
