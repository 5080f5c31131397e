use minidocker::controller::{decode_command, next_command, ControllerCommand};
use minidocker::ip_pool::{container, CreateNetwork, IPpool};
use minidocker::ipv4::Subnet;
use minidocker::manager::{manager_struct, start_process_well_formed, AfterClone};

fn field_of(data: &[u8]) -> Vec<u8> {
    let mut v = (data.len() as u64).to_be_bytes().to_vec();
    v.extend_from_slice(data);
    v
}

fn cat(parts: &[&[u8]]) -> Vec<u8> {
    parts.concat()
}

fn setup_bytes(bridge: &[u8], gateway_text: &[u8], prefix: u8) -> Vec<u8> {
    cat(&[
        &field_of(b"create_bridge"),
        &field_of(&field_of(bridge)),
        &field_of(b"up_interface"),
        &field_of(&field_of(bridge)),
        &field_of(b"assign_ip_bridge"),
        &field_of(&cat(&[&field_of(bridge), &field_of(gateway_text), &[prefix]])),
    ])
}

#[test]
fn container_is_empty() {
    let c = container::new();
    assert_eq!(std::mem::size_of_val(&c), 0);
}

#[test]
fn create_network_commands() {
    let (buf, pool) = CreateNetwork("net".to_string(), "br1".to_string(), 0xc0a8_0101, 16);
    assert_eq!(buf, setup_bytes(b"br1", b"192.168.1.1", 16));
    assert_eq!(pool.network, Subnet { addr: 0xc0a8_0101, prefix: 16 });
    assert_eq!(pool.gateway_to_bridge, 0xc0a8_0101);
    assert!(pool.ips_allocated.is_empty());
    assert_eq!(pool.network_name, "net");
    assert_eq!(pool.bridge_name, "br1");
}

#[test]
fn pool_takes_bridge_address() {
    let (pool, buf) = IPpool::new("default".to_string(), 0x0a02_0001, "dc-br0".to_string(), 24);
    assert_eq!(buf, setup_bytes(b"dc-br0", b"10.2.0.1", 24));
    assert_eq!(pool.ips_allocated.len(), 1);
    assert!(pool.ips_allocated.contains(&0x0a02_0001));
}

#[test]
fn setup_commands_reach_controller() {
    let (_pool, mut stream) = IPpool::new("default".to_string(), 0x0a02_0001, "dc-br0".to_string(), 24);
    let mut seen = Vec::new();
    while let Some((name, payload, rest)) = next_command(stream) {
        seen.push(decode_command(name, payload));
        stream = rest;
    }
    assert_eq!(seen.len(), 3);
    assert!(matches!(&seen[0], ControllerCommand::CreateBridge { bridge_name } if bridge_name == b"dc-br0"));
    assert!(matches!(&seen[1], ControllerCommand::UpInterface { name } if name == b"dc-br0"));
    assert!(matches!(&seen[2], ControllerCommand::AssignIpBridge { bridge_name, address_text, prefix: 24 }
        if bridge_name == b"dc-br0" && address_text == b"10.2.0.1"));
}

#[test]
fn manager_default_pool() {
    let (m, buf) = manager_struct::new();
    assert_eq!(buf, setup_bytes(b"dc-br0", b"10.2.0.1", 24));
    assert_eq!(m.active_pool.network_name, "default");
    assert_eq!(m.active_pool.network, Subnet { addr: 0x0a02_0001, prefix: 24 });
    assert_eq!(m.pools.len(), 1);
    assert_eq!(m.pools[0].network_name, "default");
    assert!(m.active_pool.ips_allocated.contains(&0x0a02_0001));
}

#[test]
fn random_ip_is_free_and_in_subnet() {
    let (m, _) = manager_struct::new();
    let net = m.active_pool.network;
    for _ in 0..200 {
        if let Some(ip) = m.GetRandomIp(&net) {
            assert!((0x0a02_0000..=0x0a02_00ff).contains(&ip));
            assert_ne!(ip, 0x0a02_0001);
        }
    }
    assert_eq!(m.free_candidate(0x0a02_0001), None);
    assert_eq!(m.free_candidate(0x0a02_0002), Some(0x0a02_0002));
}

#[test]
fn assigning_an_address_records_it() {
    let (mut m, _) = manager_struct::new();
    let msg = m.assign_address(b"vb", 0x0a02_0005);
    assert_eq!(msg, cat(&[&field_of(b"assign_veth_ip"), &field_of(b"vb"), &field_of(b"10.2.0.5")]));
    assert!(m.active_pool.ips_allocated.contains(&0x0a02_0005));
    assert_eq!(m.free_candidate(0x0a02_0005), None);
}

#[test]
fn after_clone_messages() {
    let (m, _) = manager_struct::new();
    assert!(matches!(m.after_clone(b"vb", -1), AfterClone::Failed));
    match m.after_clone(b"vb", 0) {
        AfterClone::Child(msg) => assert_eq!(msg, cat(&[&field_of(b"assign_veth_ip"), &field_of(b"vb"), &field_of(b"10.2.0.1")])),
        _ => panic!("expected the child's command"),
    }
    match m.after_clone(b"vb", 0x0102_0304) {
        AfterClone::Parent(msg) => assert_eq!(
            msg,
            cat(&[&field_of(b"move_veth_to_netns_by_pid"), &field_of(b"vb"), &field_of(&[1, 2, 3, 4])])
        ),
        _ => panic!("expected the parent's command"),
    }
}

#[test]
fn start_process_request() {
    let process = cat(&[&field_of(b"/bin/sh"), &field_of(b"-c ls")]);
    let veth = cat(&[&field_of(b"vf"), &field_of(b"vb")]);
    let payload = cat(&[&field_of(&process), &field_of(&veth)]);
    assert!(start_process_well_formed(&payload));
    let (m, _) = manager_struct::new();
    let launch = m.HandleOperation(b"start_process", payload).unwrap();
    assert_eq!(launch.path, b"/bin/sh".to_vec());
    assert_eq!(launch.arguments, b"-c ls".to_vec());
    assert_eq!(launch.veth_back, b"vb".to_vec());
    assert_eq!(launch.create_veth, cat(&[&field_of(b"create_veth"), &field_of(&veth)]));
    assert!(m.HandleOperation(b"other", Vec::new()).is_none());
    assert!(!start_process_well_formed(&field_of(&process)));
}

#[test]
fn random_address_is_handed_out_once() {
    let (mut m, _) = manager_struct::new();
    let before = m.active_pool.ips_allocated.clone();
    let mut got = None;
    for _ in 0..1000 {
        if let Some(r) = m.assign_random_address(b"vb") {
            got = Some(r);
            break;
        }
        assert_eq!(m.active_pool.ips_allocated, before);
    }
    let (ip, msg) = got.expect("a /24 with one address taken yields a free one");
    assert!((0x0a02_0000..=0x0a02_00ff).contains(&ip));
    assert!(!before.contains(&ip));
    assert_eq!(m.active_pool.ips_allocated.len(), before.len() + 1);
    assert!(m.active_pool.ips_allocated.contains(&ip));
    let text = minidocker::ipv4::ipv4_to_text(ip);
    assert_eq!(msg, cat(&[&field_of(b"assign_veth_ip"), &field_of(b"vb"), &field_of(&text)]));
    assert_eq!(m.active_pool.network, Subnet { addr: 0x0a02_0001, prefix: 24 });
    assert_eq!(m.pools.len(), 1);
}
