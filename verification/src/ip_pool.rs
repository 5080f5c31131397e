//! Address pools: a bridge, its subnet, and the addresses handed out in it.
use crate::ipv4::{dotted, ipv4_network_new, ipv4_to_text, Subnet};
use crate::wire::{add_field, ascii, field, literal};
use std::collections::HashSet;
use vstd::prelude::*;
use vstd::utf8::encode_utf8;

verus! {

broadcast use vstd::std_specs::hash::group_hash_axioms;

/// A container. It carries no state yet.
pub struct container {}

impl container {
    /// An empty container.
    pub fn new() -> (r: Self)
        ensures
            r == (container {}),
    {
        container {  }
    }
}

/// An address pool: the bridge that serves a subnet, the bridge's own
/// address (the subnet's gateway), and every address already handed out.
pub struct IPpool {
    pub network_name: String,
    pub network: Subnet,
    pub gateway_to_bridge: u32,
    pub bridge_name: String,
    pub ips_allocated: HashSet<u32>,
}

impl IPpool {
    /// The pool's subnet has a prefix of at most 32 bits.
    pub open spec fn wf(&self) -> bool {
        self.network.wf()
    }
}

/// The commands that set a bridge up: create it, bring it up, and give it
/// the gateway address with the subnet's prefix.
pub open spec fn network_setup_commands(bridge: Seq<u8>, gateway: u32, prefix: u8) -> Seq<u8> {
    field(ascii("create_bridge"@)) + field(field(bridge)) + field(ascii("up_interface"@)) + field(
        field(bridge),
    ) + field(ascii("assign_ip_bridge"@)) + field(
        field(bridge) + field(dotted(gateway)) + seq![prefix],
    )
}

/// The commands that set up the bridge `bridge_name` with address `gateway`
/// on a subnet of `prefix` bits, and the pool for that subnet, with no
/// address handed out yet.
pub fn CreateNetwork(network_name: String, bridge_name: String, gateway: u32, prefix: u8) -> (r: (
    Vec<u8>,
    IPpool,
))
    requires
        prefix <= 32,
    ensures
        r.0@ == network_setup_commands(encode_utf8(bridge_name@), gateway, prefix),
        r.1.network_name@ == network_name@,
        r.1.bridge_name@ == bridge_name@,
        r.1.network == (Subnet { addr: gateway, prefix }),
        r.1.gateway_to_bridge == gateway,
        r.1.ips_allocated@ == Set::<u32>::empty(),
        r.1.wf(),
{
    proof {
        reveal_strlit("create_bridge");
        reveal_strlit("up_interface");
        reveal_strlit("assign_ip_bridge");
    }
    let bridge = bridge_name.as_str().as_bytes();
    let mut buf: Vec<u8> = Vec::new();
    let mut payload: Vec<u8> = Vec::new();

    add_field(&mut payload, literal("create_bridge"));
    add_field(&mut buf, bridge);
    add_field(&mut payload, buf.as_slice());

    buf.clear();
    add_field(&mut payload, literal("up_interface"));
    add_field(&mut buf, bridge);
    add_field(&mut payload, buf.as_slice());

    buf.clear();
    add_field(&mut payload, literal("assign_ip_bridge"));
    add_field(&mut buf, bridge);
    let gateway_text = ipv4_to_text(gateway);
    add_field(&mut buf, gateway_text.as_slice());
    buf.push(prefix);
    add_field(&mut payload, buf.as_slice());

    let subnet = ipv4_network_new(gateway, prefix).unwrap();
    let pool = IPpool {
        network_name,
        network: subnet,
        gateway_to_bridge: gateway,
        bridge_name,
        ips_allocated: HashSet::new(),
    };
    proof {
        let b = encode_utf8(pool.bridge_name@);
        assert(buf@ =~= field(b) + field(dotted(gateway)) + seq![prefix]);
        assert(payload@ =~= network_setup_commands(b, gateway, prefix));
    }
    (payload, pool)
}

impl IPpool {
    /// A pool named `name` for the subnet of `prefix` bits around the bridge
    /// address `birdge_ip`, with that address already taken, and the
    /// commands that set the bridge up.
    pub fn new(name: String, birdge_ip: u32, bridge_name: String, prefix: u8) -> (r: (Self, Vec<u8>))
        requires
            prefix <= 32,
        ensures
            r.1@ == network_setup_commands(encode_utf8(bridge_name@), birdge_ip, prefix),
            r.0.network_name@ == name@,
            r.0.bridge_name@ == bridge_name@,
            r.0.network == (Subnet { addr: birdge_ip, prefix }),
            r.0.gateway_to_bridge == birdge_ip,
            r.0.ips_allocated@ == set![birdge_ip],
            r.0.wf(),
    {
        let (buf, mut a) = CreateNetwork(name, bridge_name, birdge_ip, prefix);
        a.ips_allocated.insert(birdge_ip);
        proof {
            assert(a.ips_allocated@ =~= set![birdge_ip]);
        }
        (a, buf)
    }
}

} // verus!
