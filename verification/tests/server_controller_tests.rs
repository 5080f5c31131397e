use minidocker::controller::{command_decodable, command_well_framed, decode_command, log_record, next_command, ControllerCommand};
use minidocker::server::{operation_well_formed, CreateVethPair, HandleOperation, StartProcess};
use minidocker::wire::simplify;

fn field_of(data: &[u8]) -> Vec<u8> {
    let mut v = (data.len() as u64).to_be_bytes().to_vec();
    v.extend_from_slice(data);
    v
}

fn cat(parts: &[&[u8]]) -> Vec<u8> {
    parts.concat()
}

#[test]
fn server_bridge_operation() {
    let payload = cat(&[&field_of(b"br0"), &field_of(b"10.0.0.1"), &[24]]);
    assert!(operation_well_formed(b"create_bridge", &payload));
    let out = HandleOperation(b"create_bridge".to_vec(), payload);
    let inner = cat(&[&field_of(b"br0"), &field_of(b"10.0.0.1"), &[24]]);
    assert_eq!(out, cat(&[&field_of(b"create_bridge"), &field_of(&inner)]));
}

#[test]
fn server_bridge_operation_takes_last_byte_as_prefix() {
    let payload = cat(&[&field_of(b"br0"), &field_of(b"10.0.0.1"), &[1, 2, 16]]);
    let out = HandleOperation(b"create_bridge".to_vec(), payload);
    let inner = cat(&[&field_of(b"br0"), &field_of(b"10.0.0.1"), &[16]]);
    assert_eq!(out, cat(&[&field_of(b"create_bridge"), &field_of(&inner)]));
}

#[test]
fn server_operation_needs_fields() {
    let payload = cat(&[&field_of(b"br0"), &field_of(b"10.0.0.1")]);
    assert!(!operation_well_formed(b"create_bridge", &payload));
    assert!(!operation_well_formed(b"create container", &field_of(b"x")));
    assert!(operation_well_formed(b"other", b""));
}

#[test]
fn veth_pair_and_process() {
    let payload = cat(&[&field_of(b"box"), b"tail"]);
    let (veth, rest) = CreateVethPair(payload);
    let name = b"_veth_frontbox";
    assert_eq!(veth, cat(&[&field_of(b"create_veth"), &field_of(&cat(&[&field_of(name), &field_of(name)]))]));
    assert_eq!(rest, b"tail".to_vec());

    let payload = cat(&[&field_of(b"/bin/sh"), &field_of(b"-c"), b"more"]);
    let (process, rest) = StartProcess(payload);
    assert_eq!(process, cat(&[&field_of(b"start_process"), &field_of(b"/bin/sh"), &field_of(b"-c")]));
    assert_eq!(rest, b"more".to_vec());
}

#[test]
fn server_container_operation() {
    let payload = cat(&[&field_of(b"/bin/sh"), &field_of(b"-c"), &field_of(b"box")]);
    assert!(operation_well_formed(b"create container", &payload));
    let out = HandleOperation(b"create container".to_vec(), payload);
    let front = b"_veth_frontbox";
    let veth = cat(&[&field_of(b"create_veth"), &field_of(&cat(&[&field_of(front), &field_of(front)]))]);
    let process = cat(&[&field_of(b"start_process"), &field_of(b"/bin/sh"), &field_of(b"-c")]);
    assert_eq!(out, cat(&[&field_of(&veth), &field_of(&process)]));
}

#[test]
fn cli_container_request_reaches_server() {
    let request = minidocker::cli::build_request(&["create_container".to_string(), "/bin/app".to_string(), "-v".to_string(), "web".to_string()]).unwrap();
    let (payload, rest) = simplify(request);
    assert!(rest.is_empty());
    let (op, args) = simplify(payload);
    assert!(operation_well_formed(&op, &args));
    let out = HandleOperation(op, args);
    let front = b"_veth_frontweb";
    let veth = cat(&[&field_of(b"create_veth"), &field_of(&cat(&[&field_of(front), &field_of(front)]))]);
    let process = cat(&[&field_of(b"start_process"), &field_of(b"/bin/app"), &field_of(b"-v")]);
    assert_eq!(out, cat(&[&field_of(&veth), &field_of(&process)]));
}

#[test]
fn server_unknown_operation_asks_nothing() {
    assert!(HandleOperation(b"reboot".to_vec(), b"xyz".to_vec()).is_empty());
}

#[test]
fn command_stream_steps() {
    let stream = cat(&[&field_of(b"up_interface"), &field_of(&field_of(b"br0")), &field_of(b"delete_veth"), &field_of(&field_of(b"v"))]);
    assert!(command_well_framed(&stream));
    let (name, payload, rest) = next_command(stream).unwrap();
    assert_eq!(name, b"up_interface".to_vec());
    assert_eq!(payload, field_of(b"br0"));
    let (name2, payload2, rest2) = next_command(rest).unwrap();
    assert_eq!(name2, b"delete_veth".to_vec());
    assert_eq!(payload2, field_of(b"v"));
    assert!(next_command(rest2).is_none());
    assert!(!command_well_framed(&field_of(b"only_a_name")));
}

#[test]
fn decode_bridge_commands() {
    match decode_command(b"create_bridge".to_vec(), field_of(b"br0")) {
        ControllerCommand::CreateBridge { bridge_name } => assert_eq!(bridge_name, b"br0".to_vec()),
        _ => panic!("wrong command"),
    }
    let payload = cat(&[&field_of(b"br0"), &field_of(b"10.2.0.1"), &[24, 7]]);
    assert!(command_decodable(b"assign_ip_bridge", &payload));
    match decode_command(b"assign_ip_bridge".to_vec(), payload) {
        ControllerCommand::AssignIpBridge { bridge_name, address_text, prefix } => {
            assert_eq!(bridge_name, b"br0".to_vec());
            assert_eq!(address_text, b"10.2.0.1".to_vec());
            assert_eq!(prefix, 24);
        }
        _ => panic!("wrong command"),
    }
}

#[test]
fn decode_veth_commands() {
    let payload = cat(&[&field_of(b"v0"), &field_of(b"10.2.0.7"), &[3, 24]]);
    match decode_command(b"assign_veth_ip".to_vec(), payload) {
        ControllerCommand::AssignVethIp { veth, address, prefix } => {
            assert_eq!(veth, b"v0".to_vec());
            assert_eq!(address, 0x0a02_0007);
            assert_eq!(prefix, 24);
        }
        _ => panic!("wrong command"),
    }
    let payload = cat(&[&field_of(b"v0"), &field_of(&[0, 0, 1, 2])]);
    match decode_command(b"move_veth_to_netns_by_pid".to_vec(), payload) {
        ControllerCommand::MoveVethToNetnsByPid { veth, pid } => {
            assert_eq!(veth, b"v0".to_vec());
            assert_eq!(pid, 258);
        }
        _ => panic!("wrong command"),
    }
    let payload = cat(&[&field_of(b"v0"), &field_of(b"10.2.0.1")]);
    match decode_command(b"add_veth_as_default".to_vec(), payload) {
        ControllerCommand::AddVethAsDefault { veth, gateway } => {
            assert_eq!(veth, b"v0".to_vec());
            assert_eq!(gateway, 0x0a02_0001);
        }
        _ => panic!("wrong command"),
    }
    let payload = cat(&[&field_of(b"a"), &field_of(b"b")]);
    match decode_command(b"create_veth".to_vec(), payload) {
        ControllerCommand::CreateVeth { front, back } => {
            assert_eq!(front, b"a".to_vec());
            assert_eq!(back, b"b".to_vec());
        }
        _ => panic!("wrong command"),
    }
    assert!(matches!(decode_command(b"start_process".to_vec(), Vec::new()), ControllerCommand::Nothing));
}

#[test]
fn undecodable_commands() {
    assert!(!command_decodable(b"create_bridge", b"short"));
    let no_prefix = cat(&[&field_of(b"v0"), &field_of(b"10.2.0.7")]);
    assert!(!command_decodable(b"assign_veth_ip", &no_prefix));
    let bad_ip = cat(&[&field_of(b"v0"), &field_of(b"10.2.0.300"), &[24]]);
    assert!(!command_decodable(b"assign_veth_ip", &bad_ip));
    let bad_pid = cat(&[&field_of(b"v0"), &field_of(&[1, 2, 3])]);
    assert!(!command_decodable(b"move_veth_to_netns_by_pid", &bad_pid));
    assert!(command_decodable(b"anything_else", b""));
}

#[test]
fn log_records() {
    assert_eq!(log_record(b"ab", b"c"), cat(&[&field_of(b"ab"), &field_of(b"c"), b"\n"]));
}

#[test]
fn cli_bridge_request_reaches_controller() {
    let request = minidocker::cli::build_request(&["create_bridge".to_string(), "br9".to_string(), "10.9.0.1".to_string(), "16".to_string()]).unwrap();
    let (payload, rest) = simplify(request);
    assert!(rest.is_empty());
    let (op, args) = simplify(payload);
    let stream = HandleOperation(op, args);
    let (name, payload, rest) = next_command(stream).unwrap();
    assert!(rest.is_empty());
    match decode_command(name, payload) {
        ControllerCommand::CreateBridge { bridge_name } => assert_eq!(bridge_name, b"br9".to_vec()),
        _ => panic!("wrong command"),
    }
}
