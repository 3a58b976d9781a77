//! Command-line options and their parsing.

use vstd::prelude::*;
use vstd::utf8::*;

use crate::text::{bytes_equal, clone_strings, string_bytes, string_push, strings_view};

verus! {

/// How the program's screen is redrawn when a client attaches.
#[derive(Clone, Copy, Debug, PartialEq, Eq, Structural)]
pub enum RedrawMethod {
    Unspecified,
    NoRedraw,
    CtrlL,
    Winch,
}

/// The number that stands for each redraw method on the wire.
pub open spec fn redraw_wire(method: RedrawMethod) -> u8 {
    match method {
        RedrawMethod::Unspecified => 0,
        RedrawMethod::NoRedraw => 1,
        RedrawMethod::CtrlL => 2,
        RedrawMethod::Winch => 3,
    }
}

/// The redraw method that a wire number stands for, if any.
pub open spec fn redraw_from_wire(value: u8) -> Option<RedrawMethod> {
    if value == 0 {
        Some(RedrawMethod::Unspecified)
    } else if value == 1 {
        Some(RedrawMethod::NoRedraw)
    } else if value == 2 {
        Some(RedrawMethod::CtrlL)
    } else if value == 3 {
        Some(RedrawMethod::Winch)
    } else {
        None
    }
}

/// An unspecified method stands for `CtrlL`; any other for itself.
pub open spec fn redraw_defaulted(method: RedrawMethod) -> RedrawMethod {
    match method {
        RedrawMethod::Unspecified => RedrawMethod::CtrlL,
        other => other,
    }
}

impl RedrawMethod {
    /// Replaces an unspecified method by `CtrlL`.
    pub fn defaulted(self) -> (r: Self)
        ensures
            r == redraw_defaulted(self),
    {
        match self {
            RedrawMethod::Unspecified => RedrawMethod::CtrlL,
            method => method,
        }
    }

    /// Replaces an unspecified method by `default`, itself defaulted.
    pub fn defaulted_to(self, default: RedrawMethod) -> (r: RedrawMethod)
        ensures
            r == (match self {
                RedrawMethod::Unspecified => redraw_defaulted(default),
                other => other,
            }),
    {
        match self {
            RedrawMethod::Unspecified => default.defaulted(),
            method => method,
        }
    }

    /// The method's number on the wire.
    pub fn to_wire(self) -> (r: u8)
        ensures
            r == redraw_wire(self),
    {
        match self {
            RedrawMethod::Unspecified => 0,
            RedrawMethod::NoRedraw => 1,
            RedrawMethod::CtrlL => 2,
            RedrawMethod::Winch => 3,
        }
    }

    /// The method a wire number stands for; `None` for an unknown number.
    pub fn from_wire(value: u8) -> (r: Option<Self>)
        ensures
            r == redraw_from_wire(value),
    {
        match value {
            0 => Some(RedrawMethod::Unspecified),
            1 => Some(RedrawMethod::NoRedraw),
            2 => Some(RedrawMethod::CtrlL),
            3 => Some(RedrawMethod::Winch),
            _ => None,
        }
    }
}

/// Reading back the wire number of a method gives the method.
pub proof fn lemma_redraw_wire_round_trip(method: RedrawMethod)
    ensures
        redraw_from_wire(redraw_wire(method)) == Some(method),
{
}

/// A wire number that stands for a method is that method's number.
pub proof fn lemma_redraw_wire_canonical(value: u8)
    ensures
        redraw_from_wire(value) matches Some(m) ==> redraw_wire(m) == value,
        redraw_from_wire(value) is Some <==> value <= 3,
{
}

/// Defaulting never leaves a method unspecified, and defaulting twice is
/// defaulting once.
pub proof fn lemma_redraw_defaulted(method: RedrawMethod)
    ensures
        redraw_defaulted(method) != RedrawMethod::Unspecified,
        redraw_defaulted(redraw_defaulted(method)) == redraw_defaulted(method),
        method != RedrawMethod::Unspecified ==> redraw_defaulted(method) == method,
{
}


/// What the program was asked to do.
#[derive(Clone, Copy, Debug, PartialEq, Eq, Structural)]
pub enum Mode {
    Attach,
    AttachOrCreate,
    Create,
    NewDetached,
    NewForeground,
    Push,
    List,
}

/// How an attaching client treats the terminal.
#[derive(Clone, Copy, Debug, PartialEq, Eq)]
pub struct AttachOptions {
    /// The byte that detaches the client; `None` disables detaching.
    pub detach_char: Option<u8>,
    /// Whether the suspend key is passed to the program instead of
    /// suspending the client.
    pub no_suspend: bool,
    /// How the screen is redrawn on attach.
    pub redraw: RedrawMethod,
}

/// The default options: detach on `^\`, suspend locally, redraw unspecified.
pub open spec fn default_options() -> AttachOptions {
    AttachOptions { detach_char: Some(0x1cu8), no_suspend: false, redraw: RedrawMethod::Unspecified }
}

impl Default for AttachOptions {
    /// Detach on `^\`, suspend locally, redraw method left unspecified.
    fn default() -> (r: Self)
        ensures
            r == default_options(),
    {
        AttachOptions { detach_char: Some(0x1cu8), no_suspend: false, redraw: RedrawMethod::Unspecified }
    }
}

/// Why parsing stopped without a command line to run.
#[derive(Debug)]
pub enum ParseOutcome {
    /// Usage was asked for.
    Help,
    /// The version was asked for.
    Version,
    /// The arguments are wrong; the message says how.
    Error(String),
}

/// A parse outcome as plain values.
pub enum OutcomeView {
    Help,
    Version,
    Error(Seq<char>),
}

impl View for ParseOutcome {
    type V = OutcomeView;

    open spec fn view(&self) -> OutcomeView {
        match self {
            ParseOutcome::Help => OutcomeView::Help,
            ParseOutcome::Version => OutcomeView::Version,
            ParseOutcome::Error(message) => OutcomeView::Error(message@),
        }
    }
}

/// A parsed command line.
#[derive(Debug)]
pub struct Cli {
    pub mode: Mode,
    /// The session descriptor's path; empty when listing.
    pub socket: String,
    pub options: AttachOptions,
    /// The command to run; when listing, the paths to scan.
    pub command: Vec<String>,
}

/// A parsed command line as plain values.
pub struct CliView {
    pub mode: Mode,
    pub socket: Seq<char>,
    pub options: AttachOptions,
    pub command: Seq<Seq<char>>,
}

impl View for Cli {
    type V = CliView;

    open spec fn view(&self) -> CliView {
        CliView {
            mode: self.mode,
            socket: self.socket@,
            options: self.options,
            command: strings_view(self.command@),
        }
    }
}

/// A parse result as plain values.
pub open spec fn parse_view(r: Result<Cli, ParseOutcome>) -> Result<CliView, OutcomeView> {
    match r {
        Ok(cli) => Ok(cli@),
        Err(e) => Err(e@),
    }
}

/// The error outcome with the given message.
pub open spec fn error(message: Seq<char>) -> OutcomeView {
    OutcomeView::Error(message)
}

/// The UTF-8 bytes of an argument.
pub open spec fn arg_bytes(arg: Seq<char>) -> Seq<u8> {
    encode_utf8(arg)
}

/// The mode that the first argument names.
pub open spec fn mode_spec(arg: Seq<char>) -> Result<Mode, OutcomeView> {
    let t = arg_bytes(arg);
    if t == seq![0x2du8, 0x61u8] {  // "-a"
        Ok(Mode::Attach)
    } else if t == seq![0x2du8, 0x41u8] {  // "-A"
        Ok(Mode::AttachOrCreate)
    } else if t == seq![0x2du8, 0x63u8] {  // "-c"
        Ok(Mode::Create)
    } else if t == seq![0x2du8, 0x6eu8] {  // "-n"
        Ok(Mode::NewDetached)
    } else if t == seq![0x2du8, 0x4eu8] {  // "-N"
        Ok(Mode::NewForeground)
    } else if t == seq![0x2du8, 0x70u8] {  // "-p"
        Ok(Mode::Push)
    } else if t == seq![0x2du8, 0x6cu8] || t == seq![0x2du8, 0x2du8, 0x6cu8, 0x69u8, 0x73u8, 0x74u8] {  // "-l", "--list"
        Ok(Mode::List)
    } else if t.len() >= 2 && t[0] == 0x2du8 {  // '-'
        Err(error("Invalid mode '"@ + arg + "'."@))
    } else {
        Err(error("No mode was specified."@))
    }
}

/// The detach byte that an `-e` argument names: `^?` is DEL, `^X` is the
/// control character of `X`, anything else its first byte (0 when empty).
pub open spec fn detach_char_spec(t: Seq<u8>) -> u8 {
    if t.len() >= 2 && t[0] == 0x5eu8 {  // '^'
        if t[1] == 0x3fu8 {  // '?'
            0x7f
        } else {
            t[1] & 0x1f
        }
    } else if t.len() > 0 {
        t[0]
    } else {
        0
    }
}

/// The redraw method that an `-r` argument names.
pub open spec fn redraw_spec(t: Seq<u8>) -> Result<RedrawMethod, OutcomeView> {
    if t == seq![0x6eu8, 0x6fu8, 0x6eu8, 0x65u8] {  // "none"
        Ok(RedrawMethod::NoRedraw)
    } else if t == seq![0x63u8, 0x74u8, 0x72u8, 0x6cu8, 0x5fu8, 0x6cu8] {  // "ctrl_l"
        Ok(RedrawMethod::CtrlL)
    } else if t == seq![0x77u8, 0x69u8, 0x6eu8, 0x63u8, 0x68u8] {  // "winch"
        Ok(RedrawMethod::Winch)
    } else {
        Err(error("Invalid redraw method specified."@))
    }
}

/// What reading the option letters of one argument leaves: whether it
/// succeeded, whether the next argument was taken as a value, and the
/// options as they then stand.
pub struct LettersOutcome {
    pub outcome: Result<(), OutcomeView>,
    pub took_value: bool,
    pub options: AttachOptions,
}

/// The effect of the option letters of `args[index]` from byte `pos` on. A
/// letter that needs a value takes the next argument, and counts it taken
/// even when it is missing or bad; the letters read before an error stay
/// applied.
pub open spec fn letters_spec(
    args: Seq<Seq<char>>,
    index: int,
    pos: int,
    options: AttachOptions,
) -> LettersOutcome
    decreases arg_bytes(args[index]).len() - pos,
{
    let t = arg_bytes(args[index]);
    if pos < 0 || pos >= t.len() {
        LettersOutcome { outcome: Ok(()), took_value: false, options }
    } else if t[pos] == 0x45u8 {  // 'E'
        letters_spec(args, index, pos + 1, AttachOptions { detach_char: None, ..options })
    } else if t[pos] == 0x7au8 {  // 'z'
        letters_spec(args, index, pos + 1, AttachOptions { no_suspend: true, ..options })
    } else if t[pos] == 0x65u8 {  // 'e'
        if index + 1 >= args.len() {
            LettersOutcome {
                outcome: Err(error("No escape character specified."@)),
                took_value: true,
                options,
            }
        } else {
            LettersOutcome {
                outcome: Ok(()),
                took_value: true,
                options: AttachOptions {
                    detach_char: Some(detach_char_spec(arg_bytes(args[index + 1]))),
                    ..options
                },
            }
        }
    } else if t[pos] == 0x72u8 {  // 'r'
        if index + 1 >= args.len() {
            LettersOutcome {
                outcome: Err(error("No redraw method specified."@)),
                took_value: true,
                options,
            }
        } else {
            match redraw_spec(arg_bytes(args[index + 1])) {
                Ok(method) => LettersOutcome {
                    outcome: Ok(()),
                    took_value: true,
                    options: AttachOptions { redraw: method, ..options },
                },
                Err(e) => LettersOutcome { outcome: Err(e), took_value: true, options },
            }
        }
    } else {
        LettersOutcome {
            outcome: Err(error("Invalid option '-"@ + seq![t[pos] as char] + "'."@)),
            took_value: false,
            options,
        }
    }
}

/// The options given from `args[index]` on, and the index of the first
/// argument of the command.
pub open spec fn options_spec(
    args: Seq<Seq<char>>,
    index: int,
    options: AttachOptions,
) -> Result<(int, AttachOptions), OutcomeView>
    decreases args.len() - index,
{
    if index < 0 || index >= args.len() {
        Ok((index, options))
    } else {
        let t = arg_bytes(args[index]);
        if t == seq![0x2du8, 0x2du8] {  // "--"
            Ok((index + 1, options))
        } else if t.len() == 0 || t[0] != 0x2du8 || t.len() == 1 {  // '-'
            Ok((index, options))
        } else {
            let letters = letters_spec(args, index, 1, options);
            match letters.outcome {
                Err(e) => Err(e),
                Ok(()) => {
                    let next = letters.options;
                    let following = if letters.took_value {
                        index + 2
                    } else {
                        index + 1
                    };
                    if following <= args.len() {
                        options_spec(args, following, next)
                    } else {
                        Ok((following, next))
                    }
                },
            }
        }
    }
}

/// The command line that `args` (without the program's name) stand for.
pub open spec fn parse_spec(args: Seq<Seq<char>>) -> Result<CliView, OutcomeView> {
    if args.len() == 0 {
        Err(error("No mode was specified."@))
    } else if arg_bytes(args[0]) == seq![0x2du8, 0x2du8, 0x68u8, 0x65u8, 0x6cu8, 0x70u8] || arg_bytes(args[0])  // "--help"
        == seq![0x2du8, 0x3fu8] {  // "-?"
        Err(OutcomeView::Help)
    } else if arg_bytes(args[0]) == seq![0x2du8, 0x2du8, 0x76u8, 0x65u8, 0x72u8, 0x73u8, 0x69u8, 0x6fu8, 0x6eu8] {  // "--version"
        Err(OutcomeView::Version)
    } else {
        match mode_spec(args[0]) {
            Err(e) => Err(e),
            Ok(mode) => if mode == Mode::List {
                Ok(
                    CliView {
                        mode,
                        socket: Seq::empty(),
                        options: default_options(),
                        command: args.skip(1),
                    },
                )
            } else if args.len() < 2 {
                Err(error("No socket was specified."@))
            } else if mode == Mode::Push {
                if args.len() != 2 {
                    Err(error("Invalid number of arguments for -p."@))
                } else {
                    Ok(
                        CliView {
                            mode,
                            socket: args[1],
                            options: default_options(),
                            command: Seq::empty(),
                        },
                    )
                }
            } else {
                match options_spec(args, 2, default_options()) {
                    Err(e) => Err(e),
                    Ok((index, options)) => {
                        let command = args.skip(index);
                        if mode == Mode::Attach && command.len() != 0 {
                            Err(error("Invalid number of arguments for -a."@))
                        } else if mode != Mode::Attach && command.len() == 0 {
                            Err(error("No command was specified."@))
                        } else {
                            Ok(CliView { mode, socket: args[1], options, command })
                        }
                    },
                }
            },
        }
    }
}

/// An error outcome holding `message`.
fn error_outcome(message: &str) -> (r: ParseOutcome)
    ensures
        r@ == error(message@),
{
    ParseOutcome::Error(String::from_str(message))
}

/// The mode that the first argument names.
fn parse_mode(arg: &String) -> (r: Result<Mode, ParseOutcome>)
    ensures
        match r {
            Ok(mode) => mode_spec(arg@) == Ok::<Mode, OutcomeView>(mode),
            Err(e) => mode_spec(arg@) == Err::<Mode, OutcomeView>(e@),
        },
{
    let t = string_bytes(arg);
    let t = t.as_slice();
    if bytes_equal(t, &[0x2du8, 0x61u8]) {  // "-a"
        Ok(Mode::Attach)
    } else if bytes_equal(t, &[0x2du8, 0x41u8]) {  // "-A"
        Ok(Mode::AttachOrCreate)
    } else if bytes_equal(t, &[0x2du8, 0x63u8]) {  // "-c"
        Ok(Mode::Create)
    } else if bytes_equal(t, &[0x2du8, 0x6eu8]) {  // "-n"
        Ok(Mode::NewDetached)
    } else if bytes_equal(t, &[0x2du8, 0x4eu8]) {  // "-N"
        Ok(Mode::NewForeground)
    } else if bytes_equal(t, &[0x2du8, 0x70u8]) {  // "-p"
        Ok(Mode::Push)
    } else if bytes_equal(t, &[0x2du8, 0x6cu8]) || bytes_equal(  // "-l"
        t,
        &[0x2du8, 0x2du8, 0x6cu8, 0x69u8, 0x73u8, 0x74u8],  // "--list"
    ) {
        Ok(Mode::List)
    } else if t.len() >= 2 && t[0] == 0x2du8 {  // '-'
        let mut message = String::from_str("Invalid mode '");
        message.append(arg.as_str());
        message.append("'.");
        assert(message@ =~= "Invalid mode '"@ + arg@ + "'."@);
        Err(ParseOutcome::Error(message))
    } else {
        Err(error_outcome("No mode was specified."))
    }
}

/// The detach byte that an `-e` argument names.
fn parse_detach_char(value: &String) -> (r: u8)
    ensures
        r == detach_char_spec(arg_bytes(value@)),
{
    let t = string_bytes(value);
    if t.len() >= 2 && t[0] == 0x5eu8 {  // '^'
        if t[1] == 0x3fu8 {  // '?'
            0x7f
        } else {
            t[1] & 0x1f
        }
    } else if t.len() > 0 {
        t[0]
    } else {
        0
    }
}

/// The redraw method that an `-r` argument names.
fn parse_redraw(value: &String) -> (r: Result<RedrawMethod, ParseOutcome>)
    ensures
        match r {
            Ok(m) => redraw_spec(arg_bytes(value@)) == Ok::<RedrawMethod, OutcomeView>(m),
            Err(e) => redraw_spec(arg_bytes(value@)) == Err::<RedrawMethod, OutcomeView>(e@),
        },
{
    let t = string_bytes(value);
    let t = t.as_slice();
    if bytes_equal(t, &[0x6eu8, 0x6fu8, 0x6eu8, 0x65u8]) {  // "none"
        Ok(RedrawMethod::NoRedraw)
    } else if bytes_equal(t, &[0x63u8, 0x74u8, 0x72u8, 0x6cu8, 0x5fu8, 0x6cu8]) {  // "ctrl_l"
        Ok(RedrawMethod::CtrlL)
    } else if bytes_equal(t, &[0x77u8, 0x69u8, 0x6eu8, 0x63u8, 0x68u8]) {  // "winch"
        Ok(RedrawMethod::Winch)
    } else {
        Err(error_outcome("Invalid redraw method specified."))
    }
}

/// Applies the option letters of `args[index]`; an option that takes a
/// value moves `index` onto the next argument, also when that value is
/// missing or bad. The letters read before an error stay applied.
fn parse_option(args: &Vec<String>, index: &mut usize, options: &mut AttachOptions) -> (r: Result<
    (),
    ParseOutcome,
>)
    requires
        *old(index) < args.len(),
    ensures
        *final(options) == letters_spec(strings_view(args@), *old(index) as int, 1, *old(options)).options,
        *final(index) == (if letters_spec(strings_view(args@), *old(index) as int, 1, *old(options)).took_value {
            *old(index) + 1
        } else {
            *old(index) as int
        }),
        match letters_spec(strings_view(args@), *old(index) as int, 1, *old(options)).outcome {
            Ok(()) => r is Ok,
            Err(e) => r matches Err(x) && x@ == e,
        },
        r is Ok ==> *final(index) < args.len(),
{
    let ghost av = strings_view(args@);
    let ghost start = *options;
    let ghost i0 = *index as int;
    let t = string_bytes(&args[*index]);
    assert(t@ == arg_bytes(av[i0]));
    let mut pos: usize = 1;
    while pos < t.len()
        invariant
            1 <= pos,
            *index == i0,
            i0 == *old(index),
            start == *old(options),
            i0 < args.len(),
            av == strings_view(args@),
            av.len() == args.len(),
            t@ == arg_bytes(av[i0]),
            letters_spec(av, i0, pos as int, *options) == letters_spec(av, i0, 1, start),
        decreases t.len() - pos,
    {
        let c = t[pos];
        if c == 0x45u8 {  // 'E'
            options.detach_char = None;
        } else if c == 0x7au8 {  // 'z'
            options.no_suspend = true;
        } else if c == 0x65u8 {  // 'e'
            *index += 1;
            if *index >= args.len() {
                return Err(error_outcome("No escape character specified."));
            }
            let ch = parse_detach_char(&args[*index]);
            options.detach_char = Some(ch);
            return Ok(());
        } else if c == 0x72u8 {  // 'r'
            *index += 1;
            if *index >= args.len() {
                return Err(error_outcome("No redraw method specified."));
            }
            match parse_redraw(&args[*index]) {
                Ok(method) => {
                    options.redraw = method;
                    return Ok(());
                },
                Err(e) => return Err(e),
            }
        } else {
            let mut message = String::from_str("Invalid option '-");
            string_push(&mut message, c as char);
            message.append("'.");
            assert(message@ =~= "Invalid option '-"@ + seq![c as char] + "'."@);
            return Err(ParseOutcome::Error(message));
        }
        pos += 1;
    }
    Ok(())
}

/// Reads the options that follow the socket: returns them with the index of
/// the command's first argument.
fn parse_options(args: &Vec<String>) -> (r: Result<(usize, AttachOptions), ParseOutcome>)
    requires
        args.len() >= 2,
    ensures
        match r {
            Ok((index, options)) => options_spec(strings_view(args@), 2, default_options())
                == Ok::<(int, AttachOptions), OutcomeView>((index as int, options)) && index
                <= args.len(),
            Err(e) => options_spec(strings_view(args@), 2, default_options()) == Err::<
                (int, AttachOptions),
                OutcomeView,
            >(e@),
        },
{
    let ghost av = strings_view(args@);
    let mut options = AttachOptions::default();
    let mut index: usize = 2;
    let mut done = false;
    while !done && index < args.len()
        invariant
            2 <= index <= args.len(),
            av == strings_view(args@),
            av.len() == args.len(),
            options_spec(av, 2, default_options()) == (if done {
                Ok::<(int, AttachOptions), OutcomeView>((index as int, options))
            } else {
                options_spec(av, index as int, options)
            }),
        decreases args.len() - index, if done {
            0int
        } else {
            1int
        },
    {
        let text = string_bytes(&args[index]);
        let text = text.as_slice();
        if bytes_equal(text, &[0x2du8, 0x2du8]) {  // "--"
            index += 1;
            done = true;
        } else if text.len() == 0 || text[0] != 0x2du8 || text.len() == 1 {  // '-'
            done = true;
        } else {
            match parse_option(args, &mut index, &mut options) {
                Ok(()) => {},
                Err(e) => return Err(e),
            }
            index += 1;
        }
    }
    Ok((index, options))
}

impl Cli {
    /// Parses the arguments that follow the program's name.
    pub fn parse(args: Vec<String>) -> (r: Result<Self, ParseOutcome>)
        ensures
            parse_view(r) == parse_spec(strings_view(args@)),
    {
        if args.len() == 0 {
            return Err(error_outcome("No mode was specified."));
        }
        let first = string_bytes(&args[0]);
        let first = first.as_slice();
        if bytes_equal(first, &[0x2du8, 0x2du8, 0x68u8, 0x65u8, 0x6cu8, 0x70u8]) || bytes_equal(  // "--help"
            first,
            &[0x2du8, 0x3fu8],  // "-?"
        ) {
            return Err(ParseOutcome::Help);
        }
        if bytes_equal(first, &[0x2du8, 0x2du8, 0x76u8, 0x65u8, 0x72u8, 0x73u8, 0x69u8, 0x6fu8, 0x6eu8]) {  // "--version"
            return Err(ParseOutcome::Version);
        }
        let mode = match parse_mode(&args[0]) {
            Ok(mode) => mode,
            Err(e) => return Err(e),
        };
        if mode == Mode::List {
            return Ok(
                Cli {
                    mode,
                    socket: String::new(),
                    options: AttachOptions::default(),
                    command: clone_strings(&args, 1),
                },
            );
        }
        if args.len() < 2 {
            return Err(error_outcome("No socket was specified."));
        }
        let socket = args[1].clone();
        if mode == Mode::Push {
            if args.len() != 2 {
                return Err(error_outcome("Invalid number of arguments for -p."));
            }
            let command: Vec<String> = Vec::new();
            assert(strings_view(command@) =~= Seq::<Seq<char>>::empty());
            return Ok(Cli { mode, socket, options: AttachOptions::default(), command });
        }
        let (index, options) = match parse_options(&args) {
            Ok(found) => found,
            Err(e) => return Err(e),
        };
        let command = clone_strings(&args, index);
        if mode == Mode::Attach {
            if command.len() != 0 {
                return Err(error_outcome("Invalid number of arguments for -a."));
            }
        } else if command.len() == 0 {
            return Err(error_outcome("No command was specified."));
        }
        Ok(Cli { mode, socket, options, command })
    }
}

} // verus!

verus! {

/// `^` followed by any byte `x` but `?` names a control character: the one
/// byte below 0x20 that agrees with `x` modulo 32.
pub proof fn lemma_caret_control_char(t: Seq<u8>)
    requires
        t.len() >= 2,
        t[0] == 0x5eu8,
        t[1] != 0x3fu8,
    ensures
        detach_char_spec(t) < 0x20,
        detach_char_spec(t) as int % 32 == t[1] as int % 32,
{
    let x = t[1];
    assert((x & 0x1f) < 0x20 && (x & 0x1f) == x % 32) by (bit_vector);
}

/// `^?` names DEL, whatever follows it.
pub proof fn lemma_caret_question_mark(t: Seq<u8>)
    requires
        t.len() >= 2,
        t[0] == 0x5eu8,
        t[1] == 0x3fu8,
    ensures
        detach_char_spec(t) == 0x7f,
{
}

/// After `^` a letter names the same control character in either case: the
/// letter's place in the alphabet (`^a` and `^A` are both 0x01).
pub proof fn lemma_caret_letter_case(t: Seq<u8>, u: Seq<u8>)
    requires
        t.len() >= 2,
        u.len() >= 2,
        t[0] == 0x5eu8,
        u[0] == 0x5eu8,
        0x61 <= t[1] <= 0x7a,
        u[1] as int == t[1] - 0x20,
    ensures
        detach_char_spec(t) == detach_char_spec(u),
        detach_char_spec(t) as int == t[1] - 0x60,
{
    lemma_caret_control_char(t);
    lemma_caret_control_char(u);
}

/// An `-e` letter followed by an argument `^x` (`x` not `?`) succeeds, takes
/// that argument, and sets the detach byte to the control character of `x`.
pub proof fn lemma_escape_option_caret(
    args: Seq<Seq<char>>,
    index: int,
    pos: int,
    options: AttachOptions,
)
    requires
        0 <= index,
        index + 1 < args.len(),
        0 <= pos < arg_bytes(args[index]).len(),
        arg_bytes(args[index])[pos] == 0x65u8,
        arg_bytes(args[index + 1]).len() >= 2,
        arg_bytes(args[index + 1])[0] == 0x5eu8,
        arg_bytes(args[index + 1])[1] != 0x3fu8,
    ensures
        ({
            let r = letters_spec(args, index, pos, options);
            let x = arg_bytes(args[index + 1])[1];
            &&& r.outcome is Ok
            &&& r.took_value
            &&& r.options.detach_char matches Some(b) && b < 0x20 && b as int % 32 == x as int % 32
            &&& r.options.no_suspend == options.no_suspend
            &&& r.options.redraw == options.redraw
        }),
{
    lemma_caret_control_char(arg_bytes(args[index + 1]));
}

} // verus!
