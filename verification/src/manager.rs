//! The manager: the active address pool and the commands that wire a new
//! process into the network.
use crate::ip_pool::{network_setup_commands, IPpool};
use crate::ipv4::{
    broadcast_of, dotted, ipv4, ipv4_to_text, lemma_network_le_broadcast, network_of,
    random_in_range, subnet_broadcast, subnet_network, Subnet,
};
use crate::wire::{
    add_field, ascii, bytes_equal, field, field_end, frame_body, frame_rest, is_framed, literal,
    simplify, starts_with_field,
};
use vstd::prelude::*;
use vstd::string::StringExecFns;
use vstd::utf8::encode_utf8;

verus! {

broadcast use vstd::std_specs::hash::group_hash_axioms;

/// The manager's state: every pool it set up, and the pool that addresses
/// are taken from.
pub struct manager_struct {
    pub pools: Vec<IPpool>,
    pub active_pool: IPpool,
}

/// The four big-endian bytes of a 32-bit number.
pub open spec fn be32(v: u32) -> Seq<u8> {
    seq![(v >> 24u32) as u8, (v >> 16u32) as u8, (v >> 8u32) as u8, v as u8]
}

/// The command that creates the veth pair described by `veth`.
pub open spec fn create_veth_message(veth: Seq<u8>) -> Seq<u8> {
    field(ascii("create_veth"@)) + field(veth)
}

/// The command that gives the veth end `veth_back` the address `ip`. The
/// end's name and the address follow the command's name directly.
pub open spec fn assign_veth_ip_message(veth_back: Seq<u8>, ip: u32) -> Seq<u8> {
    field(ascii("assign_veth_ip"@)) + field(veth_back) + field(dotted(ip))
}

/// The command that moves the veth end `veth_back` into the network
/// namespace of process `pid`.
pub open spec fn move_veth_message(veth_back: Seq<u8>, pid: u32) -> Seq<u8> {
    field(ascii("move_veth_to_netns_by_pid"@)) + field(veth_back) + field(be32(pid))
}

/// A drawn address as the manager accepts it: itself when it has not been
/// handed out yet, else nothing.
pub open spec fn free_in(allocated: Set<u32>, candidate: u32) -> Option<u32> {
    if allocated.contains(candidate) {
        None
    } else {
        Some(candidate)
    }
}

/// Once an address is handed out it is never accepted again, and handing
/// it out changes nothing for any other address.
pub proof fn lemma_handed_out_never_again(allocated: Set<u32>, ip: u32, other: u32)
    ensures
        free_in(allocated.insert(ip), ip) is None,
        other != ip ==> free_in(allocated.insert(ip), other) == free_in(allocated, other),
{
}

/// A start request reads through: the process field holds a path and
/// arguments, and the veth field that follows holds a front and a back name.
pub open spec fn start_process_ok(payload: Seq<u8>) -> bool {
    let process = frame_body(payload);
    let veth = frame_body(frame_rest(payload));
    &&& is_framed(payload)
    &&& is_framed(process)
    &&& is_framed(frame_rest(process))
    &&& is_framed(frame_rest(payload))
    &&& is_framed(veth)
    &&& is_framed(frame_rest(veth))
}

/// Every start request made of a process field that holds a path and an
/// argument text (empty included), followed by a veth field that holds a
/// front and a back name, reads through, whatever follows it; reading it
/// gives back that path, that argument text, that veth pair and that back
/// name, whole.
pub proof fn lemma_start_request_reads_through(
    path: Seq<u8>,
    arguments: Seq<u8>,
    front: Seq<u8>,
    back: Seq<u8>,
    rest: Seq<u8>,
)
    requires
        path.len() + arguments.len() + 16 <= u64::MAX,
        front.len() + back.len() + 16 <= u64::MAX,
    ensures
        ({
            let payload = field(field(path) + field(arguments)) + field(field(front) + field(back))
                + rest;
            let process = frame_body(payload);
            let veth = frame_body(frame_rest(payload));
            &&& start_process_ok(payload)
            &&& frame_body(process) == path
            &&& frame_body(frame_rest(process)) == arguments
            &&& veth == field(front) + field(back)
            &&& frame_body(veth) == front
            &&& frame_body(frame_rest(veth)) == back
        }),
{
    let process = field(path) + field(arguments);
    let veth = field(front) + field(back);
    let empty = Seq::<u8>::empty();
    let payload = field(process) + field(veth) + rest;
    let after = field(veth) + rest;
    assert(payload =~= field(process) + after);
    crate::wire::lemma_field_roundtrip(process, after);
    crate::wire::lemma_field_roundtrip(veth, rest);
    crate::wire::lemma_field_roundtrip(path, field(arguments));
    crate::wire::lemma_field_roundtrip(arguments, empty);
    assert(field(arguments) + empty =~= field(arguments));
    crate::wire::lemma_field_roundtrip(front, field(back));
    crate::wire::lemma_field_roundtrip(back, empty);
    assert(field(back) + empty =~= field(back));
}

/// What a start request holds and the first command it leads to.
pub struct ProcessLaunch {
    /// The program to run.
    pub path: Vec<u8>,
    /// Its arguments, as one text.
    pub arguments: Vec<u8>,
    /// The command that creates the process's veth pair.
    pub create_veth: Vec<u8>,
    /// The name of the veth end that the process gets.
    pub veth_back: Vec<u8>,
}

/// What happens once the process has been cloned.
pub enum AfterClone {
    /// The clone failed; nothing more is sent.
    Failed,
    /// In the new process: the command that gives its veth end the gateway address.
    Child(Vec<u8>),
    /// In the manager: the command that moves the veth end to the new process.
    Parent(Vec<u8>),
}

impl manager_struct {
    /// The active pool is well formed, and no two registered pools share a name.
    pub open spec fn wf(&self) -> bool {
        &&& self.active_pool.wf()
        &&& forall|i: int, j: int|
            0 <= i < j < self.pools@.len() ==> (#[trigger] self.pools@[i]).network_name@
                != (#[trigger] self.pools@[j]).network_name@
    }

    /// The manager with the default pool `10.2.0.1/24` on bridge `dc-br0`,
    /// registered under `default` and made active, and the commands that set
    /// that bridge up.
    pub fn new() -> (r: (Self, Vec<u8>))
        ensures
            r.0.wf(),
            r.0.active_pool.network_name@ == "default"@,
            r.0.active_pool.bridge_name@ == "dc-br0"@,
            r.0.active_pool.network == (Subnet { addr: 0x0a02_0001, prefix: 24 }),
            r.0.active_pool.gateway_to_bridge == 0x0a02_0001,
            r.0.active_pool.ips_allocated@ == set![0x0a02_0001u32],
            r.0.pools@.len() == 1,
            r.0.pools@[0].network_name@ == "default"@,
            r.0.pools@[0].bridge_name@ == "dc-br0"@,
            r.0.pools@[0].network == r.0.active_pool.network,
            r.0.pools@[0].gateway_to_bridge == 0x0a02_0001,
            r.0.pools@[0].ips_allocated@ == set![0x0a02_0001u32],
            r.1@ == network_setup_commands(encode_utf8("dc-br0"@), 0x0a02_0001, 24),
    {
        let bridge_ip = ipv4(10, 2, 0, 1);
        assert(crate::ipv4::from_octets(10, 2, 0, 1) == 0x0a02_0001) by (bit_vector);
        let (ippool, buf) = IPpool::new(
            String::from_str("default"),
            bridge_ip,
            String::from_str("dc-br0"),
            24,
        );
        let (registered, _) = IPpool::new(
            String::from_str("default"),
            bridge_ip,
            String::from_str("dc-br0"),
            24,
        );
        let mut pools: Vec<IPpool> = Vec::new();
        pools.push(registered);
        (manager_struct { pools, active_pool: ippool }, buf)
    }

    /// `candidate` when the active pool has not handed it out yet.
    pub fn free_candidate(&self, candidate: u32) -> (r: Option<u32>)
        ensures
            r == free_in(self.active_pool.ips_allocated@, candidate),
    {
        if self.active_pool.ips_allocated.contains(&candidate) {
            None
        } else {
            Some(candidate)
        }
    }

    /// One random draw from `network`, from its network address to its
    /// broadcast address: the drawn address when the active pool has not
    /// handed it out yet, and nothing only when the draw hit an address of
    /// the subnet that is already handed out. So a subnet with no address
    /// handed out always yields one.
    pub fn GetRandomIp(&self, network: &Subnet) -> (r: Option<u32>)
        requires
            network.wf(),
        ensures
            r matches Some(ip) ==> {
                &&& network_of(*network) <= ip <= broadcast_of(*network)
                &&& !self.active_pool.ips_allocated@.contains(ip)
            },
            r is None ==> exists|ip: u32|
                network_of(*network) <= ip <= broadcast_of(*network)
                    && #[trigger] self.active_pool.ips_allocated@.contains(ip),
    {
        let start = subnet_network(network);
        let end = subnet_broadcast(network);
        proof {
            lemma_network_le_broadcast(*network);
        }
        let drawn = random_in_range(start, end);
        let r = self.free_candidate(drawn);
        assert(r is None ==> self.active_pool.ips_allocated@.contains(drawn));
        r
    }

    /// Records `ip` as handed out in the active pool and gives the command
    /// that assigns it to the veth end `veth_back`.
    pub fn assign_address(&mut self, veth_back: &[u8], ip: u32) -> (r: Vec<u8>)
        ensures
            r@ == assign_veth_ip_message(veth_back@, ip),
            final(self).active_pool.ips_allocated@ == old(self).active_pool.ips_allocated@.insert(
                ip,
            ),
            final(self).active_pool.network == old(self).active_pool.network,
            final(self).active_pool.gateway_to_bridge == old(self).active_pool.gateway_to_bridge,
            final(self).active_pool.network_name@ == old(self).active_pool.network_name@,
            final(self).active_pool.bridge_name@ == old(self).active_pool.bridge_name@,
            final(self).pools@ == old(self).pools@,
            old(self).wf() ==> final(self).wf(),
    {
        proof {
            reveal_strlit("assign_veth_ip");
        }
        let mut final_buf: Vec<u8> = Vec::new();
        add_field(&mut final_buf, literal("assign_veth_ip"));
        add_field(&mut final_buf, veth_back);
        self.active_pool.ips_allocated.insert(ip);
        let ip_buf = ipv4_to_text(ip);
        add_field(&mut final_buf, ip_buf.as_slice());
        final_buf
    }

    /// Hands a random free address of the active pool's subnet to the veth end
    /// `veth_back`, in one draw. When the drawn address is free, it is
    /// recorded as handed out and comes back with the command that assigns
    /// it; otherwise the draw hit an address already handed out and nothing
    /// changes. The subnet, the gateway, the names and the registered pools
    /// never change.
    pub fn assign_random_address(&mut self, veth_back: &[u8]) -> (r: Option<(u32, Vec<u8>)>)
        requires
            old(self).active_pool.wf(),
        ensures
            match r {
                Some((ip, msg)) => {
                    &&& network_of(old(self).active_pool.network) <= ip <= broadcast_of(
                        old(self).active_pool.network,
                    )
                    &&& !old(self).active_pool.ips_allocated@.contains(ip)
                    &&& final(self).active_pool.ips_allocated@
                        == old(self).active_pool.ips_allocated@.insert(ip)
                    &&& msg@ == assign_veth_ip_message(veth_back@, ip)
                },
                None => {
                    &&& final(self).active_pool.ips_allocated@
                        == old(self).active_pool.ips_allocated@
                    &&& exists|ip: u32|
                        network_of(old(self).active_pool.network) <= ip <= broadcast_of(
                            old(self).active_pool.network,
                        ) && #[trigger] old(self).active_pool.ips_allocated@.contains(ip)
                },
            },
            final(self).active_pool.network == old(self).active_pool.network,
            final(self).active_pool.gateway_to_bridge == old(self).active_pool.gateway_to_bridge,
            final(self).active_pool.network_name@ == old(self).active_pool.network_name@,
            final(self).active_pool.bridge_name@ == old(self).active_pool.bridge_name@,
            final(self).pools@ == old(self).pools@,
            old(self).wf() ==> final(self).wf(),
    {
        let network = self.active_pool.network;
        match self.GetRandomIp(&network) {
            Some(ip) => {
                let msg = self.assign_address(veth_back, ip);
                Some((ip, msg))
            },
            None => None,
        }
    }

    /// What follows the clone of the new process, whose id is `pid`: nothing
    /// when the clone failed (-1); in the new process (0), the command giving
    /// its veth end the bridge's address; otherwise the command moving the
    /// veth end into the new process's namespace.
    pub fn after_clone(&self, veth_back: &[u8], pid: i64) -> (r: AfterClone)
        requires
            pid == -1 || 0 <= pid <= u32::MAX,
        ensures
            pid == -1 ==> r is Failed,
            pid == 0 ==> (r matches AfterClone::Child(m) && m@ == assign_veth_ip_message(
                veth_back@,
                self.active_pool.gateway_to_bridge,
            )),
            pid > 0 ==> (r matches AfterClone::Parent(m) && m@ == move_veth_message(
                veth_back@,
                pid as u32,
            )),
    {
        proof {
            reveal_strlit("assign_veth_ip");
            reveal_strlit("move_veth_to_netns_by_pid");
        }
        if pid == -1 {
            return AfterClone::Failed;
        }
        let mut final_buf: Vec<u8> = Vec::new();
        if pid == 0 {
            add_field(&mut final_buf, literal("assign_veth_ip"));
            add_field(&mut final_buf, veth_back);
            let gateway_buf = ipv4_to_text(self.active_pool.gateway_to_bridge);
            add_field(&mut final_buf, gateway_buf.as_slice());
            AfterClone::Child(final_buf)
        } else {
            let pid = pid as u32;
            add_field(&mut final_buf, literal("move_veth_to_netns_by_pid"));
            add_field(&mut final_buf, veth_back);
            let pid_buf = [(pid >> 24u32) as u8, (pid >> 16u32) as u8, (pid >> 8u32) as u8, pid as u8];
            assert(pid_buf@ =~= be32(pid));
            add_field(&mut final_buf, &pid_buf);
            AfterClone::Parent(final_buf)
        }
    }

    /// The first part of handling an operation: for `start_process`, what
    /// the request holds and the command that creates the process's veth
    /// pair; for any other operation, nothing.
    pub fn HandleOperation(&self, operation: &[u8], payload: Vec<u8>) -> (r: Option<ProcessLaunch>)
        requires
            operation@ == ascii("start_process"@) ==> start_process_ok(payload@),
        ensures
            r is Some <==> operation@ == ascii("start_process"@),
            r matches Some(l) ==> {
                let process = frame_body(payload@);
                let veth = frame_body(frame_rest(payload@));
                &&& l.path@ == frame_body(process)
                &&& l.arguments@ == frame_body(frame_rest(process))
                &&& l.create_veth@ == create_veth_message(veth)
                &&& l.veth_back@ == frame_body(frame_rest(veth))
            },
    {
        proof {
            reveal_strlit("start_process");
            reveal_strlit("create_veth");
        }
        if !bytes_equal(operation, literal("start_process")) {
            return None;
        }
        let (process_buf, payload) = simplify(payload);
        let (path, process_rest) = simplify(process_buf);
        let (arguments, _) = simplify(process_rest);
        let (veth_buf, _payload) = simplify(payload);
        let mut create_veth: Vec<u8> = Vec::new();
        add_field(&mut create_veth, literal("create_veth"));
        add_field(&mut create_veth, veth_buf.as_slice());
        let (_veth_front, veth_payload) = simplify(veth_buf);
        let (veth_back, _) = simplify(veth_payload);
        Some(ProcessLaunch { path, arguments, create_veth, veth_back })
    }
}

/// Whether a start request reads through.
pub fn start_process_well_formed(payload: &[u8]) -> (r: bool)
    ensures
        r == start_process_ok(payload@),
{
    if !starts_with_field(payload) {
        return false;
    }
    let end = field_end(payload);
    let process = vstd::slice::slice_subrange(payload, 8, end);
    let rest = vstd::slice::slice_subrange(payload, end, payload.len());
    assert(process@ == frame_body(payload@));
    assert(rest@ == frame_rest(payload@));
    if !two_fields(process) || !starts_with_field(rest) {
        return false;
    }
    let end2 = field_end(rest);
    let veth = vstd::slice::slice_subrange(rest, 8, end2);
    assert(veth@ == frame_body(rest@));
    two_fields(veth)
}

/// Whether `s` starts with two fields.
fn two_fields(s: &[u8]) -> (r: bool)
    ensures
        r == (is_framed(s@) && is_framed(frame_rest(s@))),
{
    if !starts_with_field(s) {
        return false;
    }
    let end = field_end(s);
    let rest = vstd::slice::slice_subrange(s, end, s.len());
    assert(rest@ == frame_rest(s@));
    starts_with_field(rest)
}

} // verus!
