//! The decisions of an attached client: what each key press does, how keys
//! are encoded for the program, and what becomes of the session's output.

use vstd::prelude::*;
use vstd::utf8::*;

use crate::args::AttachOptions;
use crate::protocol::TerminalSize;
use crate::text::{string_bytes, string_push};

verus! {

/// What the client does with bytes typed at its terminal.
pub enum InputAction {
    /// Nothing was typed.
    Nothing,
    /// The detach character: tell the master, stop and print `[detached]`.
    Detach,
    /// The suspend key: leave the session, suspend, and come back.
    Suspend,
    /// Send the bytes to the program; after a form feed also send the
    /// terminal's size.
    Forward { bytes: Vec<u8>, send_size: bool },
}

/// An input action as plain values.
pub enum InputView {
    Nothing,
    Detach,
    Suspend,
    Forward { bytes: Seq<u8>, send_size: bool },
}

impl View for InputAction {
    type V = InputView;

    open spec fn view(&self) -> InputView {
        match self {
            InputAction::Nothing => InputView::Nothing,
            InputAction::Detach => InputView::Detach,
            InputAction::Suspend => InputView::Suspend,
            InputAction::Forward { bytes, send_size } => InputView::Forward {
                bytes: bytes@,
                send_size: *send_size,
            },
        }
    }
}

/// What typed bytes do: the first byte decides. The detach character
/// detaches; `^Z` suspends unless suspending is off; anything else goes to
/// the program, and a leading `^L` also resends the size.
pub open spec fn input_spec(options: AttachOptions, bytes: Seq<u8>) -> InputView {
    if bytes.len() == 0 {
        InputView::Nothing
    } else if options.detach_char == Some(bytes[0]) {
        InputView::Detach
    } else if !options.no_suspend && bytes[0] == 0x1a {
        InputView::Suspend
    } else {
        InputView::Forward { bytes, send_size: bytes[0] == 0x0c }
    }
}

/// Decides what typed bytes do.
pub fn input_action(options: AttachOptions, bytes: &[u8]) -> (r: InputAction)
    ensures
        r@ == input_spec(options, bytes@),
{
    if bytes.len() == 0 {
        return InputAction::Nothing;
    }
    let first = bytes[0];
    let detaches = match options.detach_char {
        Some(c) => c == first,
        None => false,
    };
    if detaches {
        InputAction::Detach
    } else if !options.no_suspend && first == 0x1a {
        InputAction::Suspend
    } else {
        InputAction::Forward { bytes: vstd::slice::slice_to_vec(bytes), send_size: first == 0x0c }
    }
}

/// With detaching off and suspending off, typed bytes always reach the
/// program unchanged.
pub proof fn lemma_input_passes_through(options: AttachOptions, bytes: Seq<u8>)
    requires
        options.detach_char is None,
        options.no_suspend,
        bytes.len() > 0,
    ensures
        input_spec(options, bytes) matches InputView::Forward { bytes: b, .. } && b == bytes,
{
}

/// The terminal's size, or 24 by 80 when it could not be asked. The query
/// answers columns first.
pub fn size_or_fallback(queried: Option<(u16, u16)>) -> (r: TerminalSize)
    ensures
        match queried {
            Some((cols, rows)) => r.rows == rows && r.cols == cols,
            None => r.rows == 24 && r.cols == 80,
        },
{
    match queried {
        Some((cols, rows)) => TerminalSize { rows, cols },
        None => TerminalSize::fallback(),
    }
}

/// What one read of the session's output gave.
#[derive(Clone, Copy, Debug, PartialEq, Eq, Structural)]
pub enum OutputRead {
    /// The master closed the connection.
    Closed,
    /// Some bytes arrived.
    Data,
    /// The read was interrupted and may be retried.
    Interrupted,
    /// The read failed.
    Failed,
}

/// What the client does after a read of the session's output.
#[derive(Clone, Copy, Debug, PartialEq, Eq, Structural)]
pub enum OutputStep {
    /// Print the end-of-session notice and stop.
    NoticeAndStop,
    /// Stop without printing.
    Stop,
    /// Stop the output reader but leave the client running.
    Leave,
    /// Print the bytes and read on.
    Print,
    /// Read again.
    Retry,
}

/// The step after a read: a closed connection stops the client, with the
/// end-of-session notice unless it detached; data is printed while the
/// client runs and has not detached; a failure stops the client.
pub open spec fn output_step_spec(read: OutputRead, detached: bool, running: bool) -> OutputStep {
    match read {
        OutputRead::Closed => if detached {
            OutputStep::Stop
        } else {
            OutputStep::NoticeAndStop
        },
        OutputRead::Data => if detached || !running {
            OutputStep::Leave
        } else {
            OutputStep::Print
        },
        OutputRead::Interrupted => OutputStep::Retry,
        OutputRead::Failed => OutputStep::Stop,
    }
}

/// Decides the step after a read of the session's output.
pub fn output_step(read: OutputRead, detached: bool, running: bool) -> (r: OutputStep)
    ensures
        r == output_step_spec(read, detached, running),
{
    match read {
        OutputRead::Closed => if detached {
            OutputStep::Stop
        } else {
            OutputStep::NoticeAndStop
        },
        OutputRead::Data => if detached || !running {
            OutputStep::Leave
        } else {
            OutputStep::Print
        },
        OutputRead::Interrupted => OutputStep::Retry,
        OutputRead::Failed => OutputStep::Stop,
    }
}

/// Why a session could not be opened.
#[derive(Clone, Copy, Debug, PartialEq, Eq, Structural)]
pub enum OpenFailure {
    /// There is no descriptor at the session's path.
    NotFound,
    /// The descriptor names a port where no master listens any more.
    Refused,
    /// Anything else.
    Other,
}

/// What attach-or-create does when the session could not be opened.
#[derive(Clone, Copy, Debug, PartialEq, Eq, Structural)]
pub enum Recovery {
    /// Start a master, then attach to it.
    Create,
    /// Remove the stale descriptor, start a master, then attach to it.
    RemoveStaleAndCreate,
    /// Give up with the error.
    Fail,
}

/// Attach-or-create starts a session when none exists, replacing a stale
/// descriptor; any other failure is reported.
pub fn recovery_for(failure: OpenFailure) -> (r: Recovery)
    ensures
        r == (match failure {
            OpenFailure::NotFound => Recovery::Create,
            OpenFailure::Refused => Recovery::RemoveStaleAndCreate,
            OpenFailure::Other => Recovery::Fail,
        }),
{
    match failure {
        OpenFailure::NotFound => Recovery::Create,
        OpenFailure::Refused => Recovery::RemoveStaleAndCreate,
        OpenFailure::Other => Recovery::Fail,
    }
}

/// The control character that Ctrl plus `ch` types, if any.
pub open spec fn control_char_spec(ch: char) -> Option<u8> {
    if 'a' <= ch && ch <= 'z' {
        Some((ch as u32 - 'a' as u32 + 1) as u8)
    } else if 'A' <= ch && ch <= 'Z' {
        Some((ch as u32 - 'A' as u32 + 1) as u8)
    } else if ch == '[' {
        Some(0x1b)
    } else if ch == '\\' {
        Some(0x1c)
    } else if ch == ']' {
        Some(0x1d)
    } else if ch == '^' {
        Some(0x1e)
    } else if ch == '_' {
        Some(0x1f)
    } else if ch == '?' {
        Some(0x7f)
    } else {
        None
    }
}

/// The control character that Ctrl plus `ch` types, if any.
pub fn control_char(ch: char) -> (r: Option<u8>)
    ensures
        r == control_char_spec(ch),
{
    if 'a' <= ch && ch <= 'z' {
        Some((ch as u32 - 'a' as u32 + 1) as u8)
    } else if 'A' <= ch && ch <= 'Z' {
        Some((ch as u32 - 'A' as u32 + 1) as u8)
    } else if ch == '[' {
        Some(0x1b)
    } else if ch == '\\' {
        Some(0x1c)
    } else if ch == ']' {
        Some(0x1d)
    } else if ch == '^' {
        Some(0x1e)
    } else if ch == '_' {
        Some(0x1f)
    } else if ch == '?' {
        Some(0x7f)
    } else {
        None
    }
}

/// The escape sequence of function key `n` (F1 to F12).
pub open spec fn function_key_spec(n: u8) -> Option<Seq<char>> {
    if n == 1 {
        Some("\x1bOP"@)
    } else if n == 2 {
        Some("\x1bOQ"@)
    } else if n == 3 {
        Some("\x1bOR"@)
    } else if n == 4 {
        Some("\x1bOS"@)
    } else if n == 5 {
        Some("\x1b[15~"@)
    } else if n == 6 {
        Some("\x1b[17~"@)
    } else if n == 7 {
        Some("\x1b[18~"@)
    } else if n == 8 {
        Some("\x1b[19~"@)
    } else if n == 9 {
        Some("\x1b[20~"@)
    } else if n == 10 {
        Some("\x1b[21~"@)
    } else if n == 11 {
        Some("\x1b[23~"@)
    } else if n == 12 {
        Some("\x1b[24~"@)
    } else {
        None
    }
}

/// The bytes of a string slice.
fn str_bytes(s: &str) -> (r: Vec<u8>)
    ensures
        r@ == encode_utf8(s@),
{
    vstd::slice::slice_to_vec(s.as_bytes())
}

/// The bytes that function key `n` sends.
pub fn function_key(n: u8) -> (r: Option<Vec<u8>>)
    ensures
        match r {
            Some(v) => function_key_spec(n) matches Some(s) && v@ == encode_utf8(s),
            None => function_key_spec(n) is None,
        },
{
    let sequence = if n == 1 {
        "\x1bOP"
    } else if n == 2 {
        "\x1bOQ"
    } else if n == 3 {
        "\x1bOR"
    } else if n == 4 {
        "\x1bOS"
    } else if n == 5 {
        "\x1b[15~"
    } else if n == 6 {
        "\x1b[17~"
    } else if n == 7 {
        "\x1b[18~"
    } else if n == 8 {
        "\x1b[19~"
    } else if n == 9 {
        "\x1b[20~"
    } else if n == 10 {
        "\x1b[21~"
    } else if n == 11 {
        "\x1b[23~"
    } else if n == 12 {
        "\x1b[24~"
    } else {
        return None;
    };
    Some(str_bytes(sequence))
}

/// A key press, as the client reads it from a console that reports keys.
#[derive(Clone, Copy, Debug, PartialEq, Eq, Structural)]
pub enum Key {
    Backspace,
    Enter,
    Left,
    Right,
    Up,
    Down,
    Home,
    End,
    PageUp,
    PageDown,
    Tab,
    BackTab,
    Delete,
    Insert,
    Esc,
    Char(char),
    Function(u8),
    /// A key that sends nothing: a lock key, a modifier, a media key and the
    /// like.
    Silent,
}

/// The bytes a key press sends to the program.
pub open spec fn key_bytes_spec(key: Key, control: bool) -> Option<Seq<u8>> {
    match key {
        Key::Backspace => Some(seq![0x08u8]),
        Key::Enter => Some(seq![0x0du8]),
        Key::Left => Some(encode_utf8("\x1b[D"@)),
        Key::Right => Some(encode_utf8("\x1b[C"@)),
        Key::Up => Some(encode_utf8("\x1b[A"@)),
        Key::Down => Some(encode_utf8("\x1b[B"@)),
        Key::Home => Some(encode_utf8("\x1b[H"@)),
        Key::End => Some(encode_utf8("\x1b[F"@)),
        Key::PageUp => Some(encode_utf8("\x1b[5~"@)),
        Key::PageDown => Some(encode_utf8("\x1b[6~"@)),
        Key::Tab => Some(seq![0x09u8]),
        Key::BackTab => Some(encode_utf8("\x1b[Z"@)),
        Key::Delete => Some(encode_utf8("\x1b[3~"@)),
        Key::Insert => Some(encode_utf8("\x1b[2~"@)),
        Key::Esc => Some(seq![0x1bu8]),
        Key::Char(ch) => if control {
            match control_char_spec(ch) {
                Some(b) => Some(seq![b]),
                None => None,
            }
        } else {
            Some(encode_utf8(seq![ch]))
        },
        Key::Function(n) => match function_key_spec(n) {
            Some(s) => Some(encode_utf8(s)),
            None => None,
        },
        Key::Silent => None,
    }
}

/// The UTF-8 bytes of one character.
fn char_bytes(ch: char) -> (r: Vec<u8>)
    ensures
        r@ == encode_utf8(seq![ch]),
{
    let mut s = String::new();
    string_push(&mut s, ch);
    assert(s@ =~= seq![ch]);
    string_bytes(&s)
}

/// The bytes a key press sends to the program; `control` tells whether Ctrl
/// was held.
pub fn encode_key(key: Key, control: bool) -> (r: Option<Vec<u8>>)
    ensures
        match r {
            Some(v) => key_bytes_spec(key, control) == Some(v@),
            None => key_bytes_spec(key, control) is None,
        },
{
    match key {
        Key::Backspace => Some(vec![0x08u8]),
        Key::Enter => Some(vec![0x0du8]),
        Key::Left => Some(str_bytes("\x1b[D")),
        Key::Right => Some(str_bytes("\x1b[C")),
        Key::Up => Some(str_bytes("\x1b[A")),
        Key::Down => Some(str_bytes("\x1b[B")),
        Key::Home => Some(str_bytes("\x1b[H")),
        Key::End => Some(str_bytes("\x1b[F")),
        Key::PageUp => Some(str_bytes("\x1b[5~")),
        Key::PageDown => Some(str_bytes("\x1b[6~")),
        Key::Tab => Some(vec![0x09u8]),
        Key::BackTab => Some(str_bytes("\x1b[Z")),
        Key::Delete => Some(str_bytes("\x1b[3~")),
        Key::Insert => Some(str_bytes("\x1b[2~")),
        Key::Esc => Some(vec![0x1bu8]),
        Key::Char(ch) => if control {
            match control_char(ch) {
                Some(b) => Some(vec![b]),
                None => None,
            }
        } else {
            Some(char_bytes(ch))
        },
        Key::Function(n) => function_key(n),
        Key::Silent => None,
    }
}

} // verus!

verus! {

/// Text made of characters below 0x80 is encoded one byte per character.
proof fn lemma_ascii_bytes(chars: Seq<char>)
    requires
        forall|i: int| 0 <= i < chars.len() ==> (#[trigger] chars[i]) as u32 <= 0x7f,
    ensures
        encode_utf8(chars).len() == chars.len(),
        forall|i: int| 0 <= i < chars.len() ==> (#[trigger] encode_utf8(chars)[i]) as u32 == chars[i] as u32,
    decreases chars.len(),
{
    if chars.len() > 0 {
        let c = chars[0] as u32;
        assert(c <= 0x7f ==> (c & 0x7f) as u8 as u32 == c) by (bit_vector);
        assert(encode_scalar(c) == seq![(c & 0x7f) as u8]);
        let rest = chars.drop_first();
        assert forall|i: int| 0 <= i < rest.len() implies (#[trigger] rest[i]) as u32 <= 0x7f by {
            assert(rest[i] == chars[i + 1]);
        }
        lemma_ascii_bytes(rest);
        assert forall|i: int| 0 <= i < chars.len() implies (#[trigger] encode_utf8(chars)[i]) as u32
            == chars[i] as u32 by {
            if i > 0 {
                assert(rest[i - 1] == chars[i]);
                assert(encode_utf8(chars)[i] == encode_utf8(rest)[i - 1]);
            }
        }
    }
}

/// Each cursor key sends its own VT sequence, whether or not Ctrl is held:
/// Up `ESC [ A`, Down `ESC [ B`, Right `ESC [ C`, Left `ESC [ D`.
pub proof fn lemma_cursor_keys(control: bool)
    ensures
        key_bytes_spec(Key::Up, control) == Some(seq![0x1bu8, 0x5bu8, 0x41u8]),
        key_bytes_spec(Key::Down, control) == Some(seq![0x1bu8, 0x5bu8, 0x42u8]),
        key_bytes_spec(Key::Right, control) == Some(seq![0x1bu8, 0x5bu8, 0x43u8]),
        key_bytes_spec(Key::Left, control) == Some(seq![0x1bu8, 0x5bu8, 0x44u8]),
{
    reveal_strlit("\x1b[A");
    reveal_strlit("\x1b[B");
    reveal_strlit("\x1b[C");
    reveal_strlit("\x1b[D");
    lemma_ascii_bytes("\x1b[A"@);
    lemma_ascii_bytes("\x1b[B"@);
    lemma_ascii_bytes("\x1b[C"@);
    lemma_ascii_bytes("\x1b[D"@);
    assert(encode_utf8("\x1b[A"@) =~= seq![0x1bu8, 0x5bu8, 0x41u8]);
    assert(encode_utf8("\x1b[B"@) =~= seq![0x1bu8, 0x5bu8, 0x42u8]);
    assert(encode_utf8("\x1b[C"@) =~= seq![0x1bu8, 0x5bu8, 0x43u8]);
    assert(encode_utf8("\x1b[D"@) =~= seq![0x1bu8, 0x5bu8, 0x44u8]);
}

/// Two different cursor keys never send the same bytes.
pub proof fn lemma_cursor_keys_distinct(a: Key, b: Key, control: bool)
    requires
        a == Key::Up || a == Key::Down || a == Key::Right || a == Key::Left,
        b == Key::Up || b == Key::Down || b == Key::Right || b == Key::Left,
        a != b,
    ensures
        key_bytes_spec(a, control) != key_bytes_spec(b, control),
{
    lemma_cursor_keys(control);
    let x = key_bytes_spec(a, control).unwrap();
    let y = key_bytes_spec(b, control).unwrap();
    assert(x[2] != y[2]);
}

} // verus!

verus! {

/// Function keys F1 to F12 send their VT sequences, whether or not Ctrl is
/// held: F5 `ESC [ 1 5 ~`, F6 `ESC [ 1 7 ~`, ... F12 `ESC [ 2 4 ~`; any other
/// number sends nothing.
pub proof fn lemma_function_keys(n: u8, control: bool)
    ensures
        1 <= n <= 4 ==> key_bytes_spec(Key::Function(n), control) == Some(
            seq![0x1bu8, 0x4fu8, (0x4f + n) as u8],
        ),
        5 <= n <= 12 ==> ({
            // 15 for F5, then one more per key, skipping 16 and 22
            let k = n + 10 + (if n >= 6 { 1int } else { 0int }) + (if n >= 11 { 1int } else { 0int });
            key_bytes_spec(Key::Function(n), control) == Some(
                seq![0x1bu8, 0x5bu8, (0x30 + k / 10) as u8, (0x30 + k % 10) as u8, 0x7eu8],
            )
        }),
        n == 0 || n > 12 ==> key_bytes_spec(Key::Function(n), control) is None,
        function_key_spec(n) is Some <==> 1 <= n <= 12,
{
    if n == 1 {
        reveal_strlit("\x1bOP");
        lemma_ascii_bytes("\x1bOP"@);
        assert(encode_utf8("\x1bOP"@) =~= seq![0x1bu8, 0x4fu8, 0x50u8]);
    } else if n == 2 {
        reveal_strlit("\x1bOQ");
        lemma_ascii_bytes("\x1bOQ"@);
        assert(encode_utf8("\x1bOQ"@) =~= seq![0x1bu8, 0x4fu8, 0x51u8]);
    } else if n == 3 {
        reveal_strlit("\x1bOR");
        lemma_ascii_bytes("\x1bOR"@);
        assert(encode_utf8("\x1bOR"@) =~= seq![0x1bu8, 0x4fu8, 0x52u8]);
    } else if n == 4 {
        reveal_strlit("\x1bOS");
        lemma_ascii_bytes("\x1bOS"@);
        assert(encode_utf8("\x1bOS"@) =~= seq![0x1bu8, 0x4fu8, 0x53u8]);
    } else if n == 5 {
        reveal_strlit("\x1b[15~");
        lemma_ascii_bytes("\x1b[15~"@);
        assert(encode_utf8("\x1b[15~"@) =~= seq![0x1bu8, 0x5bu8, 0x31u8, 0x35u8, 0x7eu8]);
    } else if n == 6 {
        reveal_strlit("\x1b[17~");
        lemma_ascii_bytes("\x1b[17~"@);
        assert(encode_utf8("\x1b[17~"@) =~= seq![0x1bu8, 0x5bu8, 0x31u8, 0x37u8, 0x7eu8]);
    } else if n == 7 {
        reveal_strlit("\x1b[18~");
        lemma_ascii_bytes("\x1b[18~"@);
        assert(encode_utf8("\x1b[18~"@) =~= seq![0x1bu8, 0x5bu8, 0x31u8, 0x38u8, 0x7eu8]);
    } else if n == 8 {
        reveal_strlit("\x1b[19~");
        lemma_ascii_bytes("\x1b[19~"@);
        assert(encode_utf8("\x1b[19~"@) =~= seq![0x1bu8, 0x5bu8, 0x31u8, 0x39u8, 0x7eu8]);
    } else if n == 9 {
        reveal_strlit("\x1b[20~");
        lemma_ascii_bytes("\x1b[20~"@);
        assert(encode_utf8("\x1b[20~"@) =~= seq![0x1bu8, 0x5bu8, 0x32u8, 0x30u8, 0x7eu8]);
    } else if n == 10 {
        reveal_strlit("\x1b[21~");
        lemma_ascii_bytes("\x1b[21~"@);
        assert(encode_utf8("\x1b[21~"@) =~= seq![0x1bu8, 0x5bu8, 0x32u8, 0x31u8, 0x7eu8]);
    } else if n == 11 {
        reveal_strlit("\x1b[23~");
        lemma_ascii_bytes("\x1b[23~"@);
        assert(encode_utf8("\x1b[23~"@) =~= seq![0x1bu8, 0x5bu8, 0x32u8, 0x33u8, 0x7eu8]);
    } else if n == 12 {
        reveal_strlit("\x1b[24~");
        lemma_ascii_bytes("\x1b[24~"@);
        assert(encode_utf8("\x1b[24~"@) =~= seq![0x1bu8, 0x5bu8, 0x32u8, 0x34u8, 0x7eu8]);
    }
}

/// The numbers of F5 to F12 rise with the key, so no two function keys send
/// the same bytes.
pub proof fn lemma_function_keys_distinct(m: u8, n: u8, control: bool)
    requires
        1 <= m <= 12,
        1 <= n <= 12,
        m != n,
    ensures
        key_bytes_spec(Key::Function(m), control) != key_bytes_spec(Key::Function(n), control),
{
    lemma_function_keys(m, control);
    lemma_function_keys(n, control);
    let x = key_bytes_spec(Key::Function(m), control).unwrap();
    let y = key_bytes_spec(Key::Function(n), control).unwrap();
    if m <= 4 && n <= 4 {
        assert(x[2] != y[2]);
    } else if m <= 4 {
        assert(x[1] != y[1]);
    } else if n <= 4 {
        assert(x[1] != y[1]);
    } else {
        let j = m + 10 + (if m >= 6 { 1int } else { 0int }) + (if m >= 11 { 1int } else { 0int });
        let k = n + 10 + (if n >= 6 { 1int } else { 0int }) + (if n >= 11 { 1int } else { 0int });
        assert(j != k);
        assert(15 <= j <= 24 && 15 <= k <= 24);
        assert(x[2] != y[2] || x[3] != y[3]);
    }
}

} // verus!
