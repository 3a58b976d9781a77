use dtach_rs::list::{first_visits, session_table, SessionRow};

#[test]
fn each_path_is_visited_once() {
    let paths: Vec<String> = ["/tmp/a", "/tmp/b", "/tmp/a", "/tmp//b", "/tmp/c"].iter().map(|s| s.to_string()).collect();
    assert_eq!(first_visits(&paths), vec![true, true, false, false, true]);
    assert!(first_visits(&Vec::new()).is_empty());
}

#[test]
fn session_table_is_aligned() {
    assert_eq!(session_table(&Vec::new()), "No active dtach-rs sessions.\n");
    let rows = vec![
        SessionRow { pid: 123, port: 4567, path: "/tmp/a".to_string() },
        SessionRow { pid: 123456789, port: 65535, path: "/tmp/b".to_string() },
    ];
    let expected = format!(
        "{:<7} {:<7} PATH\n{:<7} {:<7} {}\n{:<7} {:<7} {}\n",
        "PID", "PORT", 123, 4567, "/tmp/a", 123456789, 65535, "/tmp/b"
    );
    assert_eq!(session_table(&rows), expected);
}

