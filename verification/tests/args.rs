use dtach_rs::args::{AttachOptions, Cli, Mode, ParseOutcome, RedrawMethod};

fn os(args: &[&str]) -> Vec<String> {
    args.iter().map(|s| s.to_string()).collect()
}

fn error_of(args: &[&str]) -> String {
    match Cli::parse(os(args)) {
        Err(ParseOutcome::Error(message)) => message,
        other => panic!("expected an error, got {other:?}"),
    }
}

#[test]
fn parses_create_with_options() {
    let cli = Cli::parse(os(&["-c", "sock", "-Ez", "-r", "winch", "bash"])).unwrap();
    assert_eq!(cli.mode, Mode::Create);
    assert_eq!(cli.options.detach_char, None);
    assert!(cli.options.no_suspend);
    assert_eq!(cli.options.redraw, RedrawMethod::Winch);
    assert_eq!(cli.command, os(&["bash"]));
}

#[test]
fn parses_control_escape() {
    let cli = Cli::parse(os(&["-a", "sock", "-e", "^A"])).unwrap();
    assert_eq!(cli.options.detach_char, Some(1));
}

#[test]
fn parses_list_without_socket() {
    let cli = Cli::parse(os(&["--list"])).unwrap();
    assert_eq!(cli.mode, Mode::List);
    assert!(cli.command.is_empty());
}

#[test]
fn default_detach_key_is_ctrl_backslash() {
    assert_eq!(AttachOptions::default().detach_char, Some(0x1c));
    let cli = Cli::parse(os(&["-a", "sock"])).unwrap();
    assert_eq!(cli.options, AttachOptions::default());
    assert_eq!(cli.socket, "sock");
}

#[test]
fn parses_every_mode() {
    assert_eq!(Cli::parse(os(&["-A", "s", "sh"])).unwrap().mode, Mode::AttachOrCreate);
    assert_eq!(Cli::parse(os(&["-n", "s", "sh"])).unwrap().mode, Mode::NewDetached);
    assert_eq!(Cli::parse(os(&["-N", "s", "sh"])).unwrap().mode, Mode::NewForeground);
    let push = Cli::parse(os(&["-p", "s"])).unwrap();
    assert_eq!(push.mode, Mode::Push);
    assert!(push.command.is_empty());
    let list = Cli::parse(os(&["-l", "/tmp", "/var"])).unwrap();
    assert_eq!(list.command, os(&["/tmp", "/var"]));
    assert_eq!(list.socket, "");
}

#[test]
fn parses_help_and_version() {
    assert!(matches!(Cli::parse(os(&["--help"])), Err(ParseOutcome::Help)));
    assert!(matches!(Cli::parse(os(&["-?"])), Err(ParseOutcome::Help)));
    assert!(matches!(Cli::parse(os(&["--version"])), Err(ParseOutcome::Version)));
}

#[test]
fn parse_errors_carry_their_messages() {
    assert_eq!(error_of(&[]), "No mode was specified.");
    assert_eq!(error_of(&["sock"]), "No mode was specified.");
    assert_eq!(error_of(&["-x"]), "Invalid mode '-x'.");
    assert_eq!(error_of(&["-a"]), "No socket was specified.");
    assert_eq!(error_of(&["-p", "s", "x"]), "Invalid number of arguments for -p.");
    assert_eq!(error_of(&["-a", "s", "cmd"]), "Invalid number of arguments for -a.");
    assert_eq!(error_of(&["-c", "s"]), "No command was specified.");
    assert_eq!(error_of(&["-c", "s", "-e"]), "No escape character specified.");
    assert_eq!(error_of(&["-c", "s", "-r"]), "No redraw method specified.");
    assert_eq!(error_of(&["-c", "s", "-r", "fast", "sh"]), "Invalid redraw method specified.");
    assert_eq!(error_of(&["-c", "s", "-q", "sh"]), "Invalid option '-q'.");
    assert_eq!(error_of(&["-c", "s", "-é", "sh"]), "Invalid option '-\u{c3}'.");
}

#[test]
fn options_stop_at_double_dash_and_plain_words() {
    let cli = Cli::parse(os(&["-c", "s", "-z", "--", "-E", "x"])).unwrap();
    assert!(cli.options.no_suspend);
    assert_eq!(cli.options.detach_char, Some(0x1c));
    assert_eq!(cli.command, os(&["-E", "x"]));
    let cli = Cli::parse(os(&["-c", "s", "-", "x"])).unwrap();
    assert_eq!(cli.command, os(&["-", "x"]));
}

#[test]
fn detach_characters_are_read_like_dtach() {
    let detach = |spec: &str| Cli::parse(os(&["-a", "s", "-e", spec])).unwrap().options.detach_char;
    assert_eq!(detach("^?"), Some(0x7f));
    assert_eq!(detach("^["), Some(0x1b));
    assert_eq!(detach("q"), Some(b'q'));
    assert_eq!(detach(""), Some(0));
    assert_eq!(detach("^"), Some(b'^'));
    let cli = Cli::parse(os(&["-a", "s", "-r", "none", "-r", "ctrl_l"])).unwrap();
    assert_eq!(cli.options.redraw, RedrawMethod::CtrlL);
    let cli = Cli::parse(os(&["-a", "s", "-r", "none"])).unwrap();
    assert_eq!(cli.options.redraw, RedrawMethod::NoRedraw);
}

#[test]
fn redraw_methods_round_trip_on_the_wire() {
    for method in [RedrawMethod::Unspecified, RedrawMethod::NoRedraw, RedrawMethod::CtrlL, RedrawMethod::Winch] {
        assert_eq!(RedrawMethod::from_wire(method.to_wire()), Some(method));
        assert_ne!(method.defaulted(), RedrawMethod::Unspecified);
        assert_eq!(method.defaulted().defaulted(), method.defaulted());
    }
    assert_eq!(RedrawMethod::Unspecified.to_wire(), 0);
    assert_eq!(RedrawMethod::Winch.to_wire(), 3);
    assert_eq!(RedrawMethod::from_wire(4), None);
    assert_eq!(RedrawMethod::Unspecified.defaulted(), RedrawMethod::CtrlL);
    assert_eq!(RedrawMethod::Unspecified.defaulted_to(RedrawMethod::Winch), RedrawMethod::Winch);
    assert_eq!(RedrawMethod::Unspecified.defaulted_to(RedrawMethod::Unspecified), RedrawMethod::CtrlL);
    assert_eq!(RedrawMethod::NoRedraw.defaulted_to(RedrawMethod::Winch), RedrawMethod::NoRedraw);
}
