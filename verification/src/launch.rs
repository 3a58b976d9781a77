//! Starting a background master: the command line the master is started
//! with, and the report through which it tells the starting process whether
//! it came up.

use vstd::prelude::*;

use crate::args::{RedrawMethod, redraw_defaulted, redraw_from_wire, redraw_wire};
use crate::text::{
    clone_strings, collect_chars, decimal, lemma_decimal_value, lines, lines_after, lines_view,
    parse_unsigned, push_decimal, split_lines, string_from_chars, strings_view,
    strip_cr, unsigned_value,
};

verus! {

/// The report of a master that came up.
pub open spec fn ready_ok_text() -> Seq<char> {
    "ok\n"@
}

/// The report of a master that failed with `message`.
pub open spec fn ready_error_text(message: Seq<char>) -> Seq<char> {
    "err\n"@ + message + "\n"@
}

/// The report of a master that came up.
pub fn ready_ok_report() -> (r: String)
    ensures
        r@ == ready_ok_text(),
{
    String::from_str("ok\n")
}

/// The report of a master that failed with `message`.
pub fn ready_error_report(message: &str) -> (r: String)
    ensures
        r@ == ready_error_text(message@),
{
    let mut r = String::from_str("err\n");
    r.append(message);
    r.append("\n");
    r
}

/// Reports once whether the master came up: the first report wins.
pub struct ReadyReporter {
    reported: bool,
}

impl ReadyReporter {
    /// Whether a report was made.
    pub closed spec fn has_reported(&self) -> bool {
        self.reported
    }

    /// A reporter that has not reported yet.
    pub fn new() -> (r: Self)
        ensures
            !r.has_reported(),
    {
        ReadyReporter { reported: false }
    }

    /// Reports success: returns the report's text.
    pub fn ok(&mut self) -> (text: String)
        ensures
            final(self).has_reported(),
            text@ == ready_ok_text(),
    {
        self.reported = true;
        ready_ok_report()
    }

    /// Reports a failure, unless a report was made already: returns the
    /// report's text, or `None` when there is nothing to write.
    pub fn error(&mut self, message: &str) -> (text: Option<String>)
        ensures
            final(self).has_reported(),
            match text {
                Some(t) => !old(self).has_reported() && t@ == ready_error_text(message@),
                None => old(self).has_reported(),
            },
    {
        if self.reported {
            return None;
        }
        self.reported = true;
        Some(ready_error_report(message))
    }
}

/// What the starting process does next while it waits for a master.
#[derive(Clone, Copy, Debug, PartialEq, Eq, Structural)]
pub enum StartupStep {
    /// The report file exists: read it and finish.
    ReadReport,
    /// The master exited before it reported: fail.
    ChildExited,
    /// The deadline passed: fail.
    TimedOut,
    /// Sleep a little and look again.
    Wait,
}

/// Decides the next step of the wait for a master: a report wins over the
/// master's exit, which wins over the deadline.
pub fn startup_step(report_present: bool, child_exited: bool, timed_out: bool) -> (r: StartupStep)
    ensures
        r == (if report_present {
            StartupStep::ReadReport
        } else if child_exited {
            StartupStep::ChildExited
        } else if timed_out {
            StartupStep::TimedOut
        } else {
            StartupStep::Wait
        }),
{
    if report_present {
        StartupStep::ReadReport
    } else if child_exited {
        StartupStep::ChildExited
    } else if timed_out {
        StartupStep::TimedOut
    } else {
        StartupStep::Wait
    }
}

/// Why a master does not start.
#[derive(Clone, Copy, Debug, PartialEq, Eq, Structural)]
pub enum StartError {
    /// There is no command to run.
    NoCommand,
}

/// A master starts only with a command to run.
pub fn check_master_command(command_len: usize) -> (r: Result<(), StartError>)
    ensures
        r is Ok <==> command_len > 0,
        r matches Err(e) ==> e == StartError::NoCommand,
{
    if command_len == 0 {
        Err(StartError::NoCommand)
    } else {
        Ok(())
    }
}

/// Lines joined with `\n` between them.
pub open spec fn join_lines(ls: Seq<Seq<char>>) -> Seq<char>
    decreases ls.len(),
{
    if ls.len() == 0 {
        Seq::empty()
    } else if ls.len() == 1 {
        ls[0]
    } else {
        ls[0] + seq!['\n'] + join_lines(ls.skip(1))
    }
}

/// What a report says: `Ok` when it starts with `ok\n`; else the failure
/// message, made of the lines after the first, or a stock message when there
/// are none.
pub open spec fn ready_outcome(contents: Seq<char>) -> Result<(), Seq<char>> {
    if contents.len() >= 3 && contents.take(3) == "ok\n"@ {
        Ok(())
    } else {
        let ls = lines(contents);
        let message = if ls.len() == 0 {
            Seq::empty()
        } else {
            join_lines(ls.skip(1))
        };
        if message.len() == 0 {
            Err("master failed to start"@)
        } else {
            Err(message)
        }
    }
}

/// Reads a master's report.
pub fn read_ready_report(contents: &str) -> (r: Result<(), String>)
    ensures
        match r {
            Ok(()) => ready_outcome(contents@) == Ok::<(), Seq<char>>(()),
            Err(m) => ready_outcome(contents@) == Err::<(), Seq<char>>(m@),
        },
{
    proof {
        reveal_strlit("ok\n");
    }
    let chars = collect_chars(contents);
    let ok = collect_chars("ok\n");
    if chars.len() >= 3 && chars[0] == ok[0] && chars[1] == ok[1] && chars[2] == ok[2] {
        proof {
            reveal_strlit("ok\n");
        }
        assert(chars@.take(3) =~= "ok\n"@);
        return Ok(());
    }
    proof {
        reveal_strlit("ok\n");
        if chars@.len() >= 3 && chars@.take(3) == "ok\n"@ {
            assert(chars@[0] == chars@.take(3)[0]);
            assert(chars@[1] == chars@.take(3)[1]);
            assert(chars@[2] == chars@.take(3)[2]);
        }
    }
    let text_lines = split_lines(chars.as_slice());
    let ghost ls = lines_view(text_lines@);
    let mut message: Vec<char> = Vec::new();
    if text_lines.len() > 1 {
        let mut i: usize = text_lines.len() - 1;
        let last = &text_lines[i];
        assert(ls[i as int] == last@);
        message = vstd::slice::slice_to_vec(last.as_slice());
        assert(ls.skip(i as int) =~= seq![ls[i as int]]);
        while i > 1
            invariant
                1 <= i < text_lines.len(),
                ls == lines_view(text_lines@),
                ls.len() == text_lines.len(),
                message@ == join_lines(ls.skip(i as int)),
            decreases i,
        {
            i -= 1;
            assert(ls[i as int] == text_lines@[i as int]@);
            let mut next = vstd::slice::slice_to_vec(text_lines[i].as_slice());
            next.push('\n');
            next.append(&mut message);
            message = next;
            assert(ls.skip(i as int).skip(1) =~= ls.skip(i + 1));
            assert(message@ =~= join_lines(ls.skip(i as int)));
        }
    } else if text_lines.len() == 1 {
        assert(ls.skip(1) =~= Seq::<Seq<char>>::empty());
    }
    if message.len() == 0 {
        return Err(String::from_str("master failed to start"));
    }
    Err(string_from_chars(message.as_slice()))
}

/// Lines split from a text that ends with `\n` and holds no `\r` join back
/// into the text without its last `\n`.
proof fn lemma_join_lines(s: Seq<char>, current: Seq<char>)
    requires
        !s.contains('\r'),
        !current.contains('\r'),
    ensures
        lines_after(s + seq!['\n'], current).len() >= 1,
        join_lines(lines_after(s + seq!['\n'], current)) == current + s,
    decreases s.len(),
{
    let t = s + seq!['\n'];
    if current.len() > 0 {
        assert(current.contains(current.last()));
    }
    assert(strip_cr(current) == current);
    if s.len() == 0 {
        assert(t.skip(1) =~= Seq::<char>::empty());
        assert(current + s =~= current);
        assert(t[0] == '\n');
        assert(lines_after(Seq::<char>::empty(), Seq::<char>::empty()) =~= Seq::<Seq<char>>::empty());
        assert(lines_after(t, current) =~= seq![current]);
    } else {
        assert(t[0] == s[0]);
        assert(t.skip(1) =~= s.skip(1) + seq!['\n']);
        assert(!s.skip(1).contains('\r')) by {
            if s.skip(1).contains('\r') {
                let j = choose|j: int| 0 <= j < s.skip(1).len() && s.skip(1)[j] == '\r';
                assert(s[j + 1] == '\r');
            }
        }
        if s[0] == '\n' {
            lemma_join_lines(s.skip(1), Seq::empty());
            let rest = lines_after(s.skip(1) + seq!['\n'], Seq::empty());
            assert((seq![current] + rest).skip(1) =~= rest);
            assert(Seq::<char>::empty() + s.skip(1) =~= s.skip(1));
            assert(current + s =~= current + seq!['\n'] + s.skip(1));
        } else {
            assert(!current.push(s[0]).contains('\r')) by {
                assert(s.contains(s[0]));
                if current.push(s[0]).contains('\r') {
                    let j = choose|j: int|
                        0 <= j < current.push(s[0]).len() && current.push(s[0])[j] == '\r';
                    if j < current.len() {
                        assert(current[j] == '\r');
                    }
                }
            }
            lemma_join_lines(s.skip(1), current.push(s[0]));
            assert(current.push(s[0]) + s.skip(1) =~= current + s);
        }
    }
}

/// A report of success reads as success; a report of a failure reads as
/// that failure's message, when the message is not empty and holds no `\r`.
pub proof fn lemma_ready_report_round_trip(message: Seq<char>)
    requires
        message.len() > 0,
        !message.contains('\r'),
    ensures
        ready_outcome(ready_ok_text()) == Ok::<(), Seq<char>>(()),
        ready_outcome(ready_error_text(message)) == Err::<(), Seq<char>>(message),
{
    reveal_strlit("ok\n");
    reveal_strlit("err\n");
    reveal_strlit("\n");
    assert(ready_ok_text().take(3) =~= "ok\n"@);
    let text = ready_error_text(message);
    let err = seq!['e', 'r', 'r'];
    assert(text =~= err + seq!['\n'] + (message + seq!['\n']));
    assert(text[0] == 'e');
    assert(!err.contains('\n'));
    crate::text::lemma_lines_one_line(err, message + seq!['\n'], Seq::empty());
    lemma_join_lines(message, Seq::empty());
    let ls = lines(text);
    let rest = lines_after(message + seq!['\n'], Seq::empty());
    assert(ls == seq![strip_cr(Seq::<char>::empty() + err)] + rest);
    assert(ls.len() > 0);
    assert(ls.skip(1) =~= rest);
    assert(Seq::<char>::empty() + message =~= message);
    assert(join_lines(ls.skip(1)) == message);
    assert(!(text.take(3) == "ok\n"@)) by {
        assert(text.take(3)[0] == 'e');
        assert("ok\n"@[0] == 'o');
    }
}

/// The first argument that marks a master's command line.
pub open spec fn master_flag() -> Seq<char> {
    "--dtach-rs-master"@
}

/// The command line of a background master: the flag, the socket, the
/// wait flag (`1` or `0`), the redraw method's wire number (defaulted),
/// the report file, `--`, then the program's command.
pub open spec fn master_arguments_spec(
    socket: Seq<char>,
    command: Seq<Seq<char>>,
    redraw: RedrawMethod,
    wait_attach: bool,
    ready_file: Seq<char>,
) -> Seq<Seq<char>> {
    seq![
        master_flag(),
        socket,
        if wait_attach {
            "1"@
        } else {
            "0"@
        },
        decimal(redraw_wire(redraw_defaulted(redraw)) as nat),
        ready_file,
        "--"@,
    ] + command
}

/// Appends a string to a list of strings.
fn push_string(v: &mut Vec<String>, s: String)
    ensures
        strings_view(final(v)@) == strings_view(old(v)@).push(s@),
{
    let ghost before = v@;
    v.push(s);
    assert(strings_view(v@) =~= strings_view(before).push(s@));
}

/// Builds the command line of a background master.
pub fn master_arguments(
    socket: &String,
    command: &Vec<String>,
    redraw: RedrawMethod,
    wait_attach: bool,
    ready_file: &String,
) -> (r: Vec<String>)
    ensures
        strings_view(r@) == master_arguments_spec(
            socket@,
            strings_view(command@),
            redraw,
            wait_attach,
            ready_file@,
        ),
{
    let mut r: Vec<String> = Vec::new();
    push_string(&mut r, String::from_str("--dtach-rs-master"));
    push_string(&mut r, socket.clone());
    push_string(
        &mut r,
        if wait_attach {
            String::from_str("1")
        } else {
            String::from_str("0")
        },
    );
    let mut number = String::new();
    push_decimal(&mut number, redraw.defaulted().to_wire() as u64);
    assert(number@ =~= decimal(redraw_wire(redraw_defaulted(redraw)) as nat));
    push_string(&mut r, number);
    push_string(&mut r, ready_file.clone());
    push_string(&mut r, String::from_str("--"));
    let ghost head = r@;
    let rest = clone_strings(command, 0);
    assert(strings_view(command@).skip(0) =~= strings_view(command@));
    let mut i: usize = 0;
    while i < rest.len()
        invariant
            i <= rest.len(),
            strings_view(r@) == strings_view(head) + strings_view(rest@).take(i as int),
        decreases rest.len() - i,
    {
        push_string(&mut r, rest[i].clone());
        assert(strings_view(rest@).take(i + 1) =~= strings_view(rest@).take(i as int).push(
            rest@[i as int]@,
        ));
        assert(strings_view(r@) =~= strings_view(head) + strings_view(rest@).take(i + 1));
        i += 1;
    }
    assert(strings_view(rest@).take(i as int) =~= strings_view(rest@));
    assert(strings_view(r@) =~= master_arguments_spec(
        socket@,
        strings_view(command@),
        redraw,
        wait_attach,
        ready_file@,
    ));
    r
}

/// A master's command line, read.
pub struct MasterInvocation {
    pub socket: String,
    pub wait_attach: bool,
    /// Never unspecified.
    pub redraw: RedrawMethod,
    pub ready_file: String,
    pub command: Vec<String>,
}

/// A master's command line as plain values.
pub struct InvocationView {
    pub socket: Seq<char>,
    pub wait_attach: bool,
    pub redraw: RedrawMethod,
    pub ready_file: Seq<char>,
    pub command: Seq<Seq<char>>,
}

impl View for MasterInvocation {
    type V = InvocationView;

    open spec fn view(&self) -> InvocationView {
        InvocationView {
            socket: self.socket@,
            wait_attach: self.wait_attach,
            redraw: self.redraw,
            ready_file: self.ready_file@,
            command: strings_view(self.command@),
        }
    }
}

/// Why a master's command line was refused.
#[derive(Clone, Copy, Debug, PartialEq, Eq, Structural)]
pub enum InvocationError {
    /// Fewer than six arguments after the flag.
    TooFewArguments,
    /// The wait flag is neither `0` nor `1`.
    BadWaitFlag,
    /// The redraw method is not a number from 0 to 255.
    BadRedrawNumber,
    /// The redraw number stands for no method.
    BadRedrawMethod,
    /// The fifth argument is not `--`.
    BadSeparator,
}

/// The invocation that the arguments after the master flag stand for.
pub open spec fn invocation_spec(args: Seq<Seq<char>>) -> Result<InvocationView, InvocationError> {
    if args.len() < 6 {
        Err(InvocationError::TooFewArguments)
    } else if args[1] != "0"@ && args[1] != "1"@ {
        Err(InvocationError::BadWaitFlag)
    } else {
        match unsigned_value(args[2], 255) {
            None => Err(InvocationError::BadRedrawNumber),
            Some(n) => match redraw_from_wire(n as u8) {
                None => Err(InvocationError::BadRedrawMethod),
                Some(method) => if args[4] != "--"@ {
                    Err(InvocationError::BadSeparator)
                } else {
                    Ok(
                        InvocationView {
                            socket: args[0],
                            wait_attach: args[1] == "1"@,
                            redraw: redraw_defaulted(method),
                            ready_file: args[3],
                            command: args.skip(5),
                        },
                    )
                },
            },
        }
    }
}

/// An invocation result as plain values.
pub open spec fn invocation_view(r: Result<MasterInvocation, InvocationError>) -> Result<
    InvocationView,
    InvocationError,
> {
    match r {
        Ok(inv) => Ok(inv@),
        Err(e) => Err(e),
    }
}

/// Reads the arguments that follow the master flag.
pub fn parse_master_arguments(args: &Vec<String>) -> (r: Result<MasterInvocation, InvocationError>)
    ensures
        invocation_view(r) == invocation_spec(strings_view(args@)),
{
    proof {
        reveal_strlit("0");
        reveal_strlit("1");
        assert("0"@ != "1"@) by {
            assert("0"@[0] != "1"@[0]);
        }
    }
    let ghost av = strings_view(args@);
    if args.len() < 6 {
        return Err(InvocationError::TooFewArguments);
    }
    assert(av[1] == args@[1]@ && av[2] == args@[2]@ && av[4] == args@[4]@);
    assert(av[0] == args@[0]@ && av[3] == args@[3]@);
    let wait_attach = if args[1] == String::from_str("0") {
        false
    } else if args[1] == String::from_str("1") {
        true
    } else {
        return Err(InvocationError::BadWaitFlag);
    };
    let digits = collect_chars(args[2].as_str());
    let number = match parse_unsigned(digits.as_slice(), 255) {
        Some(n) => n as u8,
        None => return Err(InvocationError::BadRedrawNumber),
    };
    let method = match RedrawMethod::from_wire(number) {
        Some(m) => m,
        None => return Err(InvocationError::BadRedrawMethod),
    };
    if args[4] != String::from_str("--") {
        return Err(InvocationError::BadSeparator);
    }
    let command = clone_strings(args, 5);
    Ok(
        MasterInvocation {
            socket: args[0].clone(),
            wait_attach,
            redraw: method.defaulted(),
            ready_file: args[3].clone(),
            command,
        },
    )
}

/// Reading a master's command line gives back what it was built from, with
/// the redraw method defaulted, when the command is not empty.
pub proof fn lemma_master_arguments_round_trip(
    socket: Seq<char>,
    command: Seq<Seq<char>>,
    redraw: RedrawMethod,
    wait_attach: bool,
    ready_file: Seq<char>,
)
    requires
        command.len() > 0,
    ensures
        invocation_spec(
            master_arguments_spec(socket, command, redraw, wait_attach, ready_file).skip(1),
        ) == Ok::<InvocationView, InvocationError>(
            InvocationView {
                socket,
                wait_attach,
                redraw: redraw_defaulted(redraw),
                ready_file,
                command,
            },
        ),
{
    reveal_strlit("0");
    reveal_strlit("1");
    let args = master_arguments_spec(socket, command, redraw, wait_attach, ready_file).skip(1);
    let n = redraw_wire(redraw_defaulted(redraw)) as nat;
    lemma_decimal_value(n);
    assert(decimal(n) =~= seq![crate::text::digit_char(n)]);
    assert(args.skip(5) =~= command);
    assert("0"@ != "1"@) by {
        assert("0"@[0] != "1"@[0]);
    }
}

} // verus!
