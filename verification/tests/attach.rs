use dtach_rs::args::{AttachOptions, RedrawMethod};
use dtach_rs::attach::{
    recovery_for, OpenFailure, Recovery, control_char, encode_key, function_key, input_action, output_step, size_or_fallback,
    InputAction, Key, OutputRead, OutputStep,
};
use dtach_rs::protocol::TerminalSize;

#[test]
fn typed_bytes_follow_the_options() {
    let options = AttachOptions::default();
    assert!(matches!(input_action(options, &[]), InputAction::Nothing));
    assert!(matches!(input_action(options, &[0x1c]), InputAction::Detach));
    assert!(matches!(input_action(options, &[0x1a]), InputAction::Suspend));
    match input_action(options, b"ls") {
        InputAction::Forward { bytes, send_size } => {
            assert_eq!(bytes, b"ls");
            assert!(!send_size);
        }
        _ => panic!("expected forward"),
    }
    match input_action(options, &[0x0c]) {
        InputAction::Forward { send_size, .. } => assert!(send_size),
        _ => panic!("expected forward"),
    }
    let free = AttachOptions { detach_char: None, no_suspend: true, redraw: RedrawMethod::Unspecified };
    match input_action(free, &[0x1a]) {
        InputAction::Forward { bytes, .. } => assert_eq!(bytes, vec![0x1a]),
        _ => panic!("expected forward"),
    }
    assert!(matches!(input_action(free, &[0x1c]), InputAction::Forward { .. }));
}

#[test]
fn output_steps() {
    assert_eq!(output_step(OutputRead::Closed, false, true), OutputStep::NoticeAndStop);
    assert_eq!(output_step(OutputRead::Closed, true, true), OutputStep::Stop);
    assert_eq!(output_step(OutputRead::Data, false, true), OutputStep::Print);
    assert_eq!(output_step(OutputRead::Data, true, true), OutputStep::Leave);
    assert_eq!(output_step(OutputRead::Data, false, false), OutputStep::Leave);
    assert_eq!(output_step(OutputRead::Interrupted, false, true), OutputStep::Retry);
    assert_eq!(output_step(OutputRead::Failed, false, true), OutputStep::Stop);
}

#[test]
fn sizes_fall_back_to_24_by_80() {
    assert_eq!(size_or_fallback(Some((120, 40))), TerminalSize { rows: 40, cols: 120 });
    assert_eq!(size_or_fallback(None), TerminalSize { rows: 24, cols: 80 });
}

#[test]
fn control_characters() {
    assert_eq!(control_char('a'), Some(1));
    assert_eq!(control_char('Z'), Some(26));
    assert_eq!(control_char('['), Some(0x1b));
    assert_eq!(control_char('\\'), Some(0x1c));
    assert_eq!(control_char(']'), Some(0x1d));
    assert_eq!(control_char('^'), Some(0x1e));
    assert_eq!(control_char('_'), Some(0x1f));
    assert_eq!(control_char('?'), Some(0x7f));
    assert_eq!(control_char('1'), None);
}

#[test]
fn function_keys() {
    assert_eq!(function_key(1), Some(b"\x1bOP".to_vec()));
    assert_eq!(function_key(5), Some(b"\x1b[15~".to_vec()));
    assert_eq!(function_key(12), Some(b"\x1b[24~".to_vec()));
    assert_eq!(function_key(13), None);
    assert_eq!(function_key(0), None);
}

#[test]
fn keys_encode_as_terminal_bytes() {
    assert_eq!(encode_key(Key::Enter, false), Some(vec![b'\r']));
    assert_eq!(encode_key(Key::Backspace, false), Some(vec![0x08]));
    assert_eq!(encode_key(Key::Left, false), Some(b"\x1b[D".to_vec()));
    assert_eq!(encode_key(Key::PageDown, false), Some(b"\x1b[6~".to_vec()));
    assert_eq!(encode_key(Key::BackTab, false), Some(b"\x1b[Z".to_vec()));
    assert_eq!(encode_key(Key::Char('é'), false), Some("é".as_bytes().to_vec()));
    assert_eq!(encode_key(Key::Char('c'), true), Some(vec![3]));
    assert_eq!(encode_key(Key::Char('1'), true), None);
    assert_eq!(encode_key(Key::Function(2), false), Some(b"\x1bOQ".to_vec()));
    assert_eq!(encode_key(Key::Silent, false), None);
}

#[test]
fn attach_or_create_recovers_from_missing_sessions() {
    assert_eq!(recovery_for(OpenFailure::NotFound), Recovery::Create);
    assert_eq!(recovery_for(OpenFailure::Refused), Recovery::RemoveStaleAndCreate);
    assert_eq!(recovery_for(OpenFailure::Other), Recovery::Fail);
}
