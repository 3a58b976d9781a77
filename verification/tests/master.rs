use dtach_rs::args::RedrawMethod;
use dtach_rs::master::{
    check_hello, client_action, exit_code, pty_size, redraw_steps, ClientAction, ClientTable,
    HelloCheck,
};
use dtach_rs::protocol::{Message, TerminalSize};

fn views(table: &ClientTable<&'static str>) -> Vec<(u64, bool)> {
    (0..table.len()).map(|i| (table.id_at(i), table.is_attached(i))).collect()
}

#[test]
fn client_table_tracks_attachment() {
    let mut table = ClientTable::new();
    table.add(1, "one");
    table.add(2, "two");
    table.add(3, "three");
    table.set_attached(2, true);
    table.set_attached(3, true);
    table.set_attached(9, true);
    assert_eq!(views(&table), vec![(1, false), (2, true), (3, true)]);
    table.set_attached(2, false);
    assert_eq!(views(&table), vec![(1, false), (2, false), (3, true)]);
    table.remove(1);
    assert_eq!(views(&table), vec![(2, false), (3, true)]);
    assert_eq!(*table.stream_mut(1), "three");
    table.clear();
    assert_eq!(table.len(), 0);
}

#[test]
fn broadcast_drops_only_unreached_attached_clients() {
    let mut table = ClientTable::new();
    for id in 1..=4 {
        table.add(id, "s");
    }
    table.set_attached(2, true);
    table.set_attached(3, true);
    table.retain_delivered(&[false, true, false, false]);
    assert_eq!(views(&table), vec![(1, false), (2, true), (4, false)]);
}

#[test]
fn client_messages_map_to_actions() {
    assert!(matches!(client_action(None, RedrawMethod::CtrlL), ClientAction::Disconnect));
    assert!(matches!(client_action(Some(Message::Attach), RedrawMethod::CtrlL), ClientAction::Attach));
    assert!(matches!(client_action(Some(Message::Detach), RedrawMethod::CtrlL), ClientAction::Detach));
    assert!(matches!(
        client_action(Some(Message::Hello("t".to_string())), RedrawMethod::CtrlL),
        ClientAction::Ignore
    ));
    match client_action(Some(Message::Push(b"ls\r".to_vec())), RedrawMethod::CtrlL) {
        ClientAction::Write(bytes) => assert_eq!(bytes, b"ls\r"),
        _ => panic!("expected a write"),
    }
    let size = TerminalSize { rows: 5, cols: 6 };
    assert!(matches!(client_action(Some(Message::Resize(size)), RedrawMethod::CtrlL), ClientAction::Resize(s) if s == size));
    match client_action(Some(Message::Redraw { method: RedrawMethod::Unspecified, size }), RedrawMethod::Winch) {
        ClientAction::Redraw(method, s) => {
            assert_eq!(method, RedrawMethod::Winch);
            assert_eq!(s, size);
        }
        _ => panic!("expected a redraw"),
    }
    match client_action(Some(Message::Redraw { method: RedrawMethod::NoRedraw, size }), RedrawMethod::Winch) {
        ClientAction::Redraw(method, _) => assert_eq!(method, RedrawMethod::NoRedraw),
        _ => panic!("expected a redraw"),
    }
}

#[test]
fn hello_checks_the_token() {
    let token = "secret".to_string();
    assert_eq!(check_hello(&Some(Message::Hello("secret".to_string())), &token), HelloCheck::Accepted);
    assert_eq!(check_hello(&Some(Message::Hello("guess".to_string())), &token), HelloCheck::WrongToken);
    assert_eq!(check_hello(&Some(Message::Attach), &token), HelloCheck::NoHello);
    assert_eq!(check_hello(&None, &token), HelloCheck::NoHello);
}

#[test]
fn redraw_steps_follow_the_method() {
    let s = redraw_steps(RedrawMethod::CtrlL, true);
    assert!(s.resize && s.form_feed);
    let s = redraw_steps(RedrawMethod::CtrlL, false);
    assert!(s.resize && !s.form_feed);
    let s = redraw_steps(RedrawMethod::Winch, true);
    assert!(s.resize && !s.form_feed);
    let s = redraw_steps(RedrawMethod::NoRedraw, true);
    assert!(!s.resize && !s.form_feed);
}

#[test]
fn pty_sizes_are_at_least_one_cell() {
    assert_eq!(pty_size(TerminalSize { rows: 0, cols: 0 }), TerminalSize { rows: 1, cols: 1 });
    assert_eq!(pty_size(TerminalSize { rows: 40, cols: 0 }), TerminalSize { rows: 40, cols: 1 });
    assert_eq!(pty_size(TerminalSize { rows: 40, cols: 100 }), TerminalSize { rows: 40, cols: 100 });
}

#[test]
fn exit_codes_read_as_signed() {
    assert_eq!(exit_code(true, 5), 0);
    assert_eq!(exit_code(false, 5), 5);
    assert_eq!(exit_code(false, 0xffff_ffff), -1);
    assert_eq!(exit_code(false, 0x8000_0000), i32::MIN);
    assert_eq!(exit_code(false, 0xffff_ffff), 0xffff_ffffu32 as i32);
}
