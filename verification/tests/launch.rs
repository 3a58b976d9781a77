use dtach_rs::args::RedrawMethod;
use dtach_rs::launch::{
    check_master_command, master_arguments, parse_master_arguments, startup_step, StartError, StartupStep, read_ready_report, ready_error_report,
    ready_ok_report, InvocationError, ReadyReporter,
};

fn strings(args: &[&str]) -> Vec<String> {
    args.iter().map(|s| s.to_string()).collect()
}

#[test]
fn ready_reports_round_trip() {
    assert_eq!(ready_ok_report(), "ok\n");
    assert_eq!(read_ready_report(&ready_ok_report()), Ok(()));
    assert_eq!(ready_error_report("bind failed"), "err\nbind failed\n");
    assert_eq!(read_ready_report(&ready_error_report("bind failed")), Err("bind failed".to_string()));
    assert_eq!(read_ready_report(&ready_error_report("a\nb")), Err("a\nb".to_string()));
    assert_eq!(read_ready_report("err\n"), Err("master failed to start".to_string()));
    assert_eq!(read_ready_report(""), Err("master failed to start".to_string()));
    assert_eq!(read_ready_report("ok"), Err("master failed to start".to_string()));
}

#[test]
fn ready_reporter_reports_once() {
    let mut reporter = ReadyReporter::new();
    assert_eq!(reporter.error("first"), Some("err\nfirst\n".to_string()));
    assert_eq!(reporter.error("second"), None);
    let mut reporter = ReadyReporter::new();
    assert_eq!(reporter.ok(), "ok\n");
    assert_eq!(reporter.error("late"), None);
}

#[test]
fn master_command_lines_round_trip() {
    let args = master_arguments(
        &"/tmp/s".to_string(),
        &strings(&["bash", "-l"]),
        RedrawMethod::Unspecified,
        true,
        &"/tmp/ready".to_string(),
    );
    assert_eq!(args, strings(&["--dtach-rs-master", "/tmp/s", "1", "2", "/tmp/ready", "--", "bash", "-l"]));
    let inv = parse_master_arguments(&args[1..].to_vec()).unwrap();
    assert_eq!(inv.socket, "/tmp/s");
    assert!(inv.wait_attach);
    assert_eq!(inv.redraw, RedrawMethod::CtrlL);
    assert_eq!(inv.ready_file, "/tmp/ready");
    assert_eq!(inv.command, strings(&["bash", "-l"]));
    let args = master_arguments(&"s".to_string(), &strings(&["sh"]), RedrawMethod::NoRedraw, false, &"r".to_string());
    let inv = parse_master_arguments(&args[1..].to_vec()).unwrap();
    assert!(!inv.wait_attach);
    assert_eq!(inv.redraw, RedrawMethod::NoRedraw);
}

#[test]
fn bad_master_command_lines_are_refused() {
    let err = |args: &[&str]| parse_master_arguments(&strings(args)).err().unwrap();
    assert_eq!(err(&["s", "1", "2", "r", "--"]), InvocationError::TooFewArguments);
    assert_eq!(err(&["s", "2", "2", "r", "--", "sh"]), InvocationError::BadWaitFlag);
    assert_eq!(err(&["s", "1", "x", "r", "--", "sh"]), InvocationError::BadRedrawNumber);
    assert_eq!(err(&["s", "1", "256", "r", "--", "sh"]), InvocationError::BadRedrawNumber);
    assert_eq!(err(&["s", "1", "4", "r", "--", "sh"]), InvocationError::BadRedrawMethod);
    assert_eq!(err(&["s", "1", "0", "r", "-", "sh"]), InvocationError::BadSeparator);
    let inv = parse_master_arguments(&strings(&["s", "0", "+0", "r", "--", "sh"])).unwrap();
    assert_eq!(inv.redraw, RedrawMethod::CtrlL);
}

#[test]
fn startup_wait_prefers_the_report() {
    assert_eq!(startup_step(true, true, true), StartupStep::ReadReport);
    assert_eq!(startup_step(false, true, true), StartupStep::ChildExited);
    assert_eq!(startup_step(false, false, true), StartupStep::TimedOut);
    assert_eq!(startup_step(false, false, false), StartupStep::Wait);
    assert_eq!(check_master_command(0), Err(StartError::NoCommand));
    assert_eq!(check_master_command(2), Ok(()));
}
