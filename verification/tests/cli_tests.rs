use minidocker::cli::{build_request, cli_step, parse_u8, split_words, str_equals, trim, CliAction};

fn field_of(data: &[u8]) -> Vec<u8> {
    let mut v = (data.len() as u64).to_be_bytes().to_vec();
    v.extend_from_slice(data);
    v
}

fn words(list: &[&str]) -> Vec<String> {
    list.iter().map(|s| s.to_string()).collect()
}

#[test]
fn no_command() {
    assert_eq!(build_request(&[]), Err("No command provided".to_string()));
}

#[test]
fn bridge_request_bytes() {
    let r = build_request(&words(&["create_bridge", "br0", "10.0.0.1", "24"])).unwrap();
    let mut payload = field_of(b"create_bridge");
    payload.extend(field_of(b"br0"));
    payload.extend(field_of(b"10.0.0.1"));
    payload.push(24);
    assert_eq!(r, field_of(&payload));
}

#[test]
fn bridge_request_usage() {
    assert_eq!(
        build_request(&words(&["create_bridge", "br0", "10.0.0.1"])),
        Err("Usage: create_bridge <name> <ip> <prefix>".to_string())
    );
}

#[test]
fn bridge_request_invalid_prefix() {
    assert_eq!(build_request(&words(&["create_bridge", "br0", "10.0.0.1", "256"])), Err("Invalid prefix".to_string()));
    assert_eq!(build_request(&words(&["create_bridge", "br0", "10.0.0.1", "x"])), Err("Invalid prefix".to_string()));
}

#[test]
fn veth_request_bytes() {
    let r = build_request(&words(&["create_veth", "a", "b"])).unwrap();
    let mut payload = field_of(b"create_veth");
    payload.extend(field_of(b"a"));
    payload.extend(field_of(b"b"));
    assert_eq!(r, field_of(&payload));
    assert_eq!(build_request(&words(&["create_veth", "a"])), Err("Usage: create_veth <front> <back>".to_string()));
}

#[test]
fn container_request_bytes() {
    let r = build_request(&words(&["create_container", "/bin/sh", "-c", "box"])).unwrap();
    let mut payload = field_of(b"create container");
    payload.extend(field_of(b"/bin/sh"));
    payload.extend(field_of(b"-c"));
    payload.extend(field_of(b"box"));
    assert_eq!(r, field_of(&payload));
    assert_eq!(
        build_request(&words(&["create_container", "/bin/sh"])),
        Err("Usage: create_container <path> <arguments> <name>".to_string())
    );
}

#[test]
fn unknown_command() {
    assert_eq!(build_request(&words(&["launch", "x"])), Err("Unknown command: launch".to_string()));
}

#[test]
fn non_ascii_arguments_travel_as_utf8() {
    let r = build_request(&words(&["create_veth", "é", "b"])).unwrap();
    let mut payload = field_of(b"create_veth");
    payload.extend(field_of("é".as_bytes()));
    payload.extend(field_of(b"b"));
    assert_eq!(r, field_of(&payload));
}

#[test]
fn parse_u8_like_std() {
    for s in ["0", "7", "+7", "007", "255", "256", "-1", "", "+", "-", "1a", "++1", "+-1", "99999999999", "٣"] {
        assert_eq!(parse_u8(s), s.parse::<u8>().ok(), "{}", s);
    }
}

#[test]
fn str_equality() {
    assert!(str_equals("abc", "abc"));
    assert!(!str_equals("abc", "abd"));
    assert!(!str_equals("abc", "abcd"));
    assert!(str_equals("", ""));
}

#[test]
fn trim_and_split_like_std() {
    for s in ["", "   ", " a ", "exit", "\t create_veth  a\u{3000}b \n", "x\u{85}y", "a\u{200B}b"] {
        assert_eq!(trim(s), s.trim(), "{:?}", s);
        let expected: Vec<String> = s.split_whitespace().map(|w| w.to_string()).collect();
        assert_eq!(split_words(s), expected, "{:?}", s);
    }
}

#[test]
fn cli_steps() {
    assert!(matches!(cli_step("   \n"), CliAction::Skip));
    assert!(matches!(cli_step(" exit\n"), CliAction::Exit));
    assert!(matches!(cli_step("quit"), CliAction::Exit));
    assert!(matches!(cli_step("help\n"), CliAction::Help));
    match cli_step("exit now") {
        CliAction::Refuse(e) => assert_eq!(e, "Unknown command: exit"),
        _ => panic!("expected a refusal"),
    }
    match cli_step("  create_veth a   b\n") {
        CliAction::Send(r) => assert_eq!(r, build_request(&words(&["create_veth", "a", "b"])).unwrap()),
        _ => panic!("expected a request"),
    }
}
