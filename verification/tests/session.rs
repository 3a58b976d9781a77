use dtach_rs::session::{
    hex_string, parse_descriptor, registry_base, registry_suffix, RegistryBase, parse_registry, random_token, render_descriptor,
    render_registry, retain_other_entries, clean_display_path, DescriptorError,
    SessionDescriptor,
};

#[test]
fn rejects_wrong_magic() {
    let err = parse_descriptor("wrong\n").unwrap_err();
    assert_eq!(err, DescriptorError::NotADescriptor);
}

fn descriptor(port: u16, token: &str, pid: u32) -> SessionDescriptor {
    SessionDescriptor { port, token: token.to_string(), pid }
}

#[test]
fn descriptor_text_has_the_documented_lines() {
    let text = render_descriptor(&descriptor(4242, "abc", 99));
    assert_eq!(text, "dtach-rs-session-v1\nhost=127.0.0.1\nport=4242\ntoken=abc\npid=99\n");
}

#[test]
fn descriptors_round_trip() {
    for d in [
        descriptor(0, "", 0),
        descriptor(65535, "a=b=c", 4294967295),
        descriptor(8080, "0123456789abcdef", 1),
    ] {
        assert_eq!(parse_descriptor(&render_descriptor(&d)).unwrap(), d);
    }
}

#[test]
fn descriptor_parsing_follows_str_lines_and_parse() {
    let d = parse_descriptor("dtach-rs-session-v1\r\nport=+7\r\ntoken=t\r\npid=007\nnoise\nport=9").unwrap();
    assert_eq!(d, descriptor(9, "t", 7));
    assert_eq!(parse_descriptor(""), Err(DescriptorError::NotADescriptor));
    assert_eq!(
        parse_descriptor("dtach-rs-session-v1\nport=65536\ntoken=t\npid=1\n"),
        Err(DescriptorError::InvalidPort)
    );
    assert_eq!(
        parse_descriptor("dtach-rs-session-v1\nport=1\ntoken=t\npid=-1\n"),
        Err(DescriptorError::InvalidPid)
    );
    assert_eq!(parse_descriptor("dtach-rs-session-v1\ntoken=t\npid=1\n"), Err(DescriptorError::MissingPort));
    assert_eq!(parse_descriptor("dtach-rs-session-v1\nport=1\npid=1\n"), Err(DescriptorError::MissingToken));
    assert_eq!(parse_descriptor("dtach-rs-session-v1\nport=1\ntoken=\n"), Err(DescriptorError::MissingPid));
    assert_eq!(parse_descriptor("dtach-rs-session-v1\nport=\ntoken=t\npid=1\n"), Err(DescriptorError::InvalidPort));
    assert_eq!(parse_descriptor("dtach-rs-session-v1\nport=+\ntoken=t\npid=1\n"), Err(DescriptorError::InvalidPort));
}

#[test]
fn numbers_parse_as_std_parses_them() {
    for text in ["0", "+1", "65535", "65536", "", "+", "-0", " 1", "1 ", "00000000000000000000042", "99999999999", "٣"] {
        let contents = format!("dtach-rs-session-v1\nport={text}\ntoken=t\npid={text}\n");
        let parsed = parse_descriptor(&contents);
        match (text.parse::<u16>(), text.parse::<u32>()) {
            (Ok(port), Ok(pid)) => assert_eq!(parsed, Ok(descriptor(port, "t", pid))),
            (Err(_), _) => assert_eq!(parsed, Err(DescriptorError::InvalidPort)),
            (Ok(_), Err(_)) => assert_eq!(parsed, Err(DescriptorError::InvalidPid)),
        }
    }
}

#[test]
fn tokens_are_sixty_four_hex_digits() {
    let token = random_token().unwrap();
    assert_eq!(token.len(), 64);
    assert!(token.chars().all(|c| c.is_ascii_hexdigit() && !c.is_ascii_uppercase()));
    assert_ne!(token, random_token().unwrap());
    assert_eq!(hex_string(&[0x00, 0x0f, 0xa0, 0xff]), "000fa0ff");
    assert_eq!(hex_string(&[]), "");
}

#[test]
fn registry_lines_are_trimmed_and_nonempty() {
    let entries = parse_registry("  /tmp/a  \n\n\t/tmp/b\r\n \u{3000}\n/tmp/c");
    assert_eq!(entries, vec!["/tmp/a", "/tmp/b", "/tmp/c"]);
    assert!(parse_registry("").is_empty());
}

#[test]
fn registry_trimming_matches_std() {
    let samples = [" a ", "\u{a0}b\u{2003}", "\u{85}c\u{200b}", "\u{1680}\u{2028}d\u{2029}\u{202f}\u{205f}", "\u{b}e\u{c}", "\u{180e}f"];
    for sample in samples {
        let entries = parse_registry(sample);
        let expected: Vec<String> = sample.lines().map(str::trim).filter(|l| !l.is_empty()).map(String::from).collect();
        assert_eq!(entries, expected, "{sample:?}");
    }
}

#[test]
fn registry_round_trips() {
    let entries = vec!["/tmp/a".to_string(), "/home/u/s p".to_string()];
    let text = render_registry(&entries);
    assert_eq!(text, "/tmp/a\n/home/u/s p\n");
    assert_eq!(parse_registry(&text), entries);
}

#[test]
fn unregistering_drops_every_entry_of_the_path() {
    let entries = vec!["/tmp/a".to_string(), "/tmp/b".to_string(), "/tmp/a/".to_string(), "/tmp//a".to_string()];
    assert_eq!(retain_other_entries(entries, "/tmp/a"), vec!["/tmp/b".to_string()]);
    let entries = vec!["/x".to_string()];
    assert_eq!(retain_other_entries(entries, "/y"), vec!["/x".to_string()]);
}

#[test]
fn verbatim_prefixes_are_dropped_for_display() {
    assert_eq!(clean_display_path(r"\\?\UNC\server\share\s"), r"\\server\share\s");
    assert_eq!(clean_display_path(r"\\?\C:\tmp\s"), r"C:\tmp\s");
    assert_eq!(clean_display_path(r"C:\tmp\s"), r"C:\tmp\s");
    assert_eq!(clean_display_path("/tmp/s"), "/tmp/s");
}

#[test]
fn descriptor_lines_split_like_str_lines() {
    for tail in ["abc\r", "abc\r\n", "abc\r\r\n", "a\rb\n", "", "\r", "x\n\n"] {
        let contents = format!("dtach-rs-session-v1\nport=1\npid=2\ntoken={tail}");
        let expected = contents
            .lines()
            .filter_map(|line| line.split_once('='))
            .filter(|(key, _)| *key == "token")
            .map(|(_, value)| value.to_string())
            .last()
            .unwrap();
        assert_eq!(parse_descriptor(&contents).unwrap().token, expected, "{tail:?}");
    }
}

#[test]
fn tokens_are_made_from_the_filled_bytes() {
    let mut bytes = [0u8; 32];
    bytes[0] = 0xab;
    bytes[31] = 0x01;
    let token = dtach_rs::session::token_from_fill(Ok(()), &bytes).unwrap();
    assert_eq!(token, format!("ab{}01", "00".repeat(30)));
}

#[test]
fn registry_location_follows_the_environment() {
    assert_eq!(registry_base(true, false, false, true, true), RegistryBase::Explicit);
    assert_eq!(registry_base(false, true, true, true, true), RegistryBase::LocalAppData);
    assert_eq!(registry_base(false, true, false, true, true), RegistryBase::TempDir);
    assert_eq!(registry_base(false, false, true, true, true), RegistryBase::StateHome);
    assert_eq!(registry_base(false, false, false, false, true), RegistryBase::Home);
    assert_eq!(registry_base(false, false, false, false, false), RegistryBase::TempDir);
    assert_eq!(registry_suffix(RegistryBase::Home), vec![".local", "state", "dtach-rs", "sessions"]);
    assert_eq!(registry_suffix(RegistryBase::TempDir), vec!["dtach-rs", "sessions.txt"]);
    assert!(registry_suffix(RegistryBase::Explicit).is_empty());
}
