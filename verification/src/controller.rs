//! The network controller's side: reading the command stream that the
//! server and the manager send, one command at a time, and what each
//! command asks the kernel to do.
use crate::ipv4::{dotted, from_octets, ipv4, parse_ipv4, parse_ipv4_spec};
use crate::wire::{
    add_field, ascii, bytes_equal, field, field_end, frame_body, frame_rest, is_framed, literal,
    simplify, starts_with_field,
};
use vstd::prelude::*;

verus! {

/// `s` starts with a whole command: a field with its name, then a field
/// with its payload.
pub open spec fn command_framed(s: Seq<u8>) -> bool {
    is_framed(s) && is_framed(frame_rest(s))
}

/// The name of the first command of `s`.
pub open spec fn command_name(s: Seq<u8>) -> Seq<u8> {
    frame_body(s)
}

/// The payload of the first command of `s`.
pub open spec fn command_payload(s: Seq<u8>) -> Seq<u8> {
    frame_body(frame_rest(s))
}

/// What follows the first command of `s`.
pub open spec fn command_rest(s: Seq<u8>) -> Seq<u8> {
    frame_rest(frame_rest(s))
}

/// The commands, as (name, payload) pairs in order, that a stream holds when
/// it is read to its end; nothing when it breaks off inside a command.
pub open spec fn commands_of(s: Seq<u8>) -> Option<Seq<(Seq<u8>, Seq<u8>)>>
    decreases s.len(),
{
    if s.len() == 0 {
        Some(Seq::empty())
    } else if command_framed(s) {
        match commands_of(command_rest(s)) {
            Some(t) => Some(seq![(command_name(s), command_payload(s))] + t),
            None => None,
        }
    } else {
        None
    }
}

/// The stream that carries the given commands, each as a name field and a
/// payload field.
pub open spec fn encode_commands(cmds: Seq<(Seq<u8>, Seq<u8>)>) -> Seq<u8>
    decreases cmds.len(),
{
    if cmds.len() == 0 {
        Seq::empty()
    } else {
        field(cmds[0].0) + field(cmds[0].1) + encode_commands(cmds.drop_first())
    }
}

/// Every name and payload fits the eight-byte length.
pub open spec fn commands_fit(cmds: Seq<(Seq<u8>, Seq<u8>)>) -> bool {
    forall|i: int|
        0 <= i < cmds.len() ==> (#[trigger] cmds[i]).0.len() <= u64::MAX && cmds[i].1.len()
            <= u64::MAX
}

/// Whether `s` starts with a whole command.
pub fn command_well_framed(s: &[u8]) -> (r: bool)
    ensures
        r == command_framed(s@),
{
    if !starts_with_field(s) {
        return false;
    }
    let end = field_end(s);
    let rest = vstd::slice::slice_subrange(s, end, s.len());
    assert(rest@ == frame_rest(s@));
    starts_with_field(rest)
}

/// One step of running a command stream: nothing when the stream is used
/// up, else the first command's name, its payload, and the rest of the
/// stream.
pub fn next_command(remaining: Vec<u8>) -> (r: Option<(Vec<u8>, Vec<u8>, Vec<u8>)>)
    requires
        remaining@.len() == 0 || command_framed(remaining@),
    ensures
        r is None <==> remaining@.len() == 0,
        r matches Some((name, payload, rest)) ==> {
            &&& name@ == command_name(remaining@)
            &&& payload@ == command_payload(remaining@)
            &&& rest@ == command_rest(remaining@)
        },
{
    if remaining.len() == 0 {
        return None;
    }
    let (command_buf, payload) = simplify(remaining);
    let (command_payload, payload) = simplify(payload);
    Some((command_buf, command_payload, payload))
}

/// The record of a command in the controller's log: its name and payload
/// as fields, then a newline.
pub fn log_record(command_buf: &[u8], payload: &[u8]) -> (r: Vec<u8>)
    ensures
        r@ == field(command_buf@) + field(payload@) + seq![10u8],
{
    let mut record: Vec<u8> = Vec::new();
    add_field(&mut record, command_buf);
    add_field(&mut record, payload);
    record.push(10);
    record
}

/// Reading a stream made of commands gives back exactly those commands, in
/// order.
pub proof fn lemma_commands_roundtrip(cmds: Seq<(Seq<u8>, Seq<u8>)>)
    requires
        commands_fit(cmds),
    ensures
        commands_of(encode_commands(cmds)) == Some(cmds),
    decreases cmds.len(),
{
    if cmds.len() > 0 {
        let rest_cmds = cmds.drop_first();
        let name = cmds[0].0;
        let payload = cmds[0].1;
        let tail = encode_commands(rest_cmds);
        let after_name = field(payload) + tail;
        let s = encode_commands(cmds);
        assert(commands_fit(rest_cmds)) by {
            assert forall|i: int| 0 <= i < rest_cmds.len() implies (
            #[trigger] rest_cmds[i]).0.len() <= u64::MAX && rest_cmds[i].1.len()
                <= u64::MAX by {
                assert(rest_cmds[i] == cmds[i + 1]);
            }
        }
        assert(name.len() <= u64::MAX && payload.len() <= u64::MAX);
        lemma_commands_roundtrip(rest_cmds);
        assert(s == field(name) + field(payload) + tail);
        assert(s =~= field(name) + after_name);
        crate::wire::lemma_field_roundtrip(name, after_name);
        crate::wire::lemma_field_roundtrip(payload, tail);
        assert(frame_rest(s) == after_name);
        assert(command_framed(s));
        assert(command_name(s) == name);
        assert(command_payload(s) == payload);
        assert(command_rest(s) == tail);
        assert(seq![(name, payload)] + rest_cmds =~= cmds);
    }
}

/// A stream that reads to its end is exactly its commands, re-encoded:
/// reading loses and invents nothing.
pub proof fn lemma_commands_reassemble(s: Seq<u8>)
    requires
        commands_of(s) is Some,
    ensures
        encode_commands(commands_of(s)->0) == s,
    decreases s.len(),
{
    if s.len() > 0 {
        let cmds = commands_of(s)->0;
        lemma_commands_reassemble(command_rest(s));
        crate::wire::lemma_frame_reassemble(s);
        crate::wire::lemma_frame_reassemble(frame_rest(s));
        assert(cmds.drop_first() =~= commands_of(command_rest(s))->0);
        assert(encode_commands(cmds) =~= s);
    }
}

} // verus!

verus! {

/// What one command asks the controller to do, with the names as bytes.
pub enum ControllerCommand {
    /// Create a bridge.
    CreateBridge { bridge_name: Vec<u8> },
    /// Give a bridge an address (as text; v4 or v6) with a prefix.
    AssignIpBridge { bridge_name: Vec<u8>, address_text: Vec<u8>, prefix: u8 },
    /// Bring an interface up.
    UpInterface { name: Vec<u8> },
    /// Create a veth pair.
    CreateVeth { front: Vec<u8>, back: Vec<u8> },
    /// Give a veth end an IPv4 address with a prefix.
    AssignVethIp { veth: Vec<u8>, address: u32, prefix: u8 },
    /// Give a veth end a hardware address.
    AssignMacToVeth { veth: Vec<u8>, mac: Vec<u8> },
    /// Move a veth end into the network namespace of a process.
    MoveVethToNetnsByPid { veth: Vec<u8>, pid: u32 },
    /// Route everything through a gateway on a veth end.
    AddVethAsDefault { veth: Vec<u8>, gateway: u32 },
    /// Delete a veth end.
    DeleteVeth { veth: Vec<u8> },
    /// A command that asks for nothing.
    Nothing,
}

/// A command's meaning, with the names as byte sequences.
pub enum CommandView {
    CreateBridge { bridge_name: Seq<u8> },
    AssignIpBridge { bridge_name: Seq<u8>, address_text: Seq<u8>, prefix: u8 },
    UpInterface { name: Seq<u8> },
    CreateVeth { front: Seq<u8>, back: Seq<u8> },
    AssignVethIp { veth: Seq<u8>, address: u32, prefix: u8 },
    AssignMacToVeth { veth: Seq<u8>, mac: Seq<u8> },
    MoveVethToNetnsByPid { veth: Seq<u8>, pid: u32 },
    AddVethAsDefault { veth: Seq<u8>, gateway: u32 },
    DeleteVeth { veth: Seq<u8> },
    Nothing,
}

impl View for ControllerCommand {
    type V = CommandView;

    open spec fn view(&self) -> CommandView {
        match self {
            ControllerCommand::CreateBridge { bridge_name } => CommandView::CreateBridge {
                bridge_name: bridge_name@,
            },
            ControllerCommand::AssignIpBridge { bridge_name, address_text, prefix } =>
                CommandView::AssignIpBridge {
                bridge_name: bridge_name@,
                address_text: address_text@,
                prefix: *prefix,
            },
            ControllerCommand::UpInterface { name } => CommandView::UpInterface { name: name@ },
            ControllerCommand::CreateVeth { front, back } => CommandView::CreateVeth {
                front: front@,
                back: back@,
            },
            ControllerCommand::AssignVethIp { veth, address, prefix } => CommandView::AssignVethIp {
                veth: veth@,
                address: *address,
                prefix: *prefix,
            },
            ControllerCommand::AssignMacToVeth { veth, mac } => CommandView::AssignMacToVeth {
                veth: veth@,
                mac: mac@,
            },
            ControllerCommand::MoveVethToNetnsByPid { veth, pid } =>
                CommandView::MoveVethToNetnsByPid { veth: veth@, pid: *pid },
            ControllerCommand::AddVethAsDefault { veth, gateway } => CommandView::AddVethAsDefault {
                veth: veth@,
                gateway: *gateway,
            },
            ControllerCommand::DeleteVeth { veth } => CommandView::DeleteVeth { veth: veth@ },
            ControllerCommand::Nothing => CommandView::Nothing,
        }
    }
}

/// Which of the known command names `name` is, numbered in the order the
/// controller lists them; 0 for none of them.
pub open spec fn kind_of(name: Seq<u8>) -> u8 {
    if name == ascii("create_bridge"@) {
        1
    } else if name == ascii("assign_ip_bridge"@) {
        2
    } else if name == ascii("up_interface"@) {
        3
    } else if name == ascii("create_veth"@) {
        4
    } else if name == ascii("assign_veth_ip"@) {
        5
    } else if name == ascii("assign_mac_to_veth"@) {
        6
    } else if name == ascii("move_veth_to_netns_by_pid"@) {
        7
    } else if name == ascii("add_veth_as_default"@) {
        8
    } else if name == ascii("delete_veth"@) {
        9
    } else {
        0
    }
}

/// The payloads on which the controller's reading of a command completes:
/// every field it reads is there, a prefix byte follows the address where
/// one is read, IPv4 addresses are valid dotted text, and a process id has
/// exactly four bytes.
pub open spec fn command_ok(name: Seq<u8>, payload: Seq<u8>) -> bool {
    let second = frame_rest(payload);
    let k = kind_of(name);
    if k == 1 || k == 3 || k == 9 {
        is_framed(payload)
    } else if k == 2 {
        is_framed(payload) && is_framed(second) && frame_rest(second).len() > 0
    } else if k == 4 || k == 6 {
        is_framed(payload) && is_framed(second)
    } else if k == 5 {
        &&& is_framed(payload)
        &&& is_framed(second)
        &&& frame_rest(second).len() > 0
        &&& parse_ipv4_spec(frame_body(second)) is Some
    } else if k == 7 {
        is_framed(payload) && is_framed(second) && frame_body(second).len() == 4
    } else if k == 8 {
        &&& is_framed(payload)
        &&& is_framed(second)
        &&& parse_ipv4_spec(frame_body(second)) is Some
    } else {
        true
    }
}

/// What a command asks for: its first payload field names the interface;
/// the second, where there is one, holds the other interface, the address,
/// the hardware address or the process id; a bridge address is followed by
/// its prefix byte, and a veth address is followed by bytes whose last one
/// is its prefix.
pub open spec fn decode_spec(name: Seq<u8>, payload: Seq<u8>) -> CommandView {
    let first = frame_body(payload);
    let second = frame_rest(payload);
    let second_body = frame_body(second);
    let after_second = frame_rest(second);
    let k = kind_of(name);
    if k == 1 {
        CommandView::CreateBridge { bridge_name: first }
    } else if k == 2 {
        CommandView::AssignIpBridge {
            bridge_name: first,
            address_text: second_body,
            prefix: after_second[0],
        }
    } else if k == 3 {
        CommandView::UpInterface { name: first }
    } else if k == 4 {
        CommandView::CreateVeth { front: first, back: second_body }
    } else if k == 5 {
        CommandView::AssignVethIp {
            veth: first,
            address: parse_ipv4_spec(second_body)->0,
            prefix: after_second.last(),
        }
    } else if k == 6 {
        CommandView::AssignMacToVeth { veth: first, mac: second_body }
    } else if k == 7 {
        CommandView::MoveVethToNetnsByPid {
            veth: first,
            pid: from_octets(second_body[0], second_body[1], second_body[2], second_body[3]),
        }
    } else if k == 8 {
        CommandView::AddVethAsDefault { veth: first, gateway: parse_ipv4_spec(second_body)->0 }
    } else if k == 9 {
        CommandView::DeleteVeth { veth: first }
    } else {
        CommandView::Nothing
    }
}

/// Each known command name reads as its own kind, numbered in the order the
/// controller lists them.
proof fn lemma_known_names()
    ensures
        kind_of(ascii("create_bridge"@)) == 1,
        kind_of(ascii("assign_ip_bridge"@)) == 2,
        kind_of(ascii("up_interface"@)) == 3,
        kind_of(ascii("create_veth"@)) == 4,
        kind_of(ascii("assign_veth_ip"@)) == 5,
        kind_of(ascii("assign_mac_to_veth"@)) == 6,
        kind_of(ascii("move_veth_to_netns_by_pid"@)) == 7,
        kind_of(ascii("add_veth_as_default"@)) == 8,
        kind_of(ascii("delete_veth"@)) == 9,
{
    reveal_strlit("create_bridge");
    reveal_strlit("assign_ip_bridge");
    reveal_strlit("up_interface");
    reveal_strlit("create_veth");
    reveal_strlit("assign_veth_ip");
    reveal_strlit("assign_mac_to_veth");
    reveal_strlit("move_veth_to_netns_by_pid");
    reveal_strlit("add_veth_as_default");
    reveal_strlit("delete_veth");
    assert(ascii("create_bridge"@).len() == 13);
    assert(ascii("assign_ip_bridge"@).len() == 16);
    assert(ascii("up_interface"@).len() == 12);
    assert(ascii("create_veth"@).len() == 11);
    assert(ascii("assign_veth_ip"@).len() == 14);
    assert(ascii("assign_mac_to_veth"@).len() == 18);
    assert(ascii("move_veth_to_netns_by_pid"@).len() == 25);
    assert(ascii("add_veth_as_default"@).len() == 19);
    assert(ascii("delete_veth"@).len() == 11);
    assert(ascii("create_veth"@)[0] != ascii("delete_veth"@)[0]);
}

/// Each kind of command comes from exactly one command name: a command
/// decodes to a given kind if and only if it carries that kind's name, so two
/// distinct names never decode to the same kind, and a name the controller
/// does not know asks for nothing.
pub proof fn lemma_decode_kind_by_name(name: Seq<u8>, payload: Seq<u8>)
    ensures
        decode_spec(name, payload) is CreateBridge <==> name == ascii("create_bridge"@),
        decode_spec(name, payload) is AssignIpBridge <==> name == ascii("assign_ip_bridge"@),
        decode_spec(name, payload) is UpInterface <==> name == ascii("up_interface"@),
        decode_spec(name, payload) is CreateVeth <==> name == ascii("create_veth"@),
        decode_spec(name, payload) is AssignVethIp <==> name == ascii("assign_veth_ip"@),
        decode_spec(name, payload) is AssignMacToVeth <==> name == ascii("assign_mac_to_veth"@),
        decode_spec(name, payload) is MoveVethToNetnsByPid <==> name == ascii(
            "move_veth_to_netns_by_pid"@,
        ),
        decode_spec(name, payload) is AddVethAsDefault <==> name == ascii("add_veth_as_default"@),
        decode_spec(name, payload) is DeleteVeth <==> name == ascii("delete_veth"@),
        decode_spec(name, payload) is Nothing <==> {
            &&& name != ascii("create_bridge"@)
            &&& name != ascii("assign_ip_bridge"@)
            &&& name != ascii("up_interface"@)
            &&& name != ascii("create_veth"@)
            &&& name != ascii("assign_veth_ip"@)
            &&& name != ascii("assign_mac_to_veth"@)
            &&& name != ascii("move_veth_to_netns_by_pid"@)
            &&& name != ascii("add_veth_as_default"@)
            &&& name != ascii("delete_veth"@)
        },
{
    lemma_known_names();
}

/// A command that names one interface (creating a bridge, bringing an
/// interface up, deleting a veth end) reads its first payload field, whole,
/// as that interface, whatever follows it.
pub proof fn lemma_decode_one_interface(n: Seq<u8>, rest: Seq<u8>)
    requires
        n.len() <= u64::MAX,
    ensures
        command_ok(ascii("create_bridge"@), field(n) + rest),
        command_ok(ascii("up_interface"@), field(n) + rest),
        command_ok(ascii("delete_veth"@), field(n) + rest),
        decode_spec(ascii("create_bridge"@), field(n) + rest) == (CommandView::CreateBridge {
            bridge_name: n,
        }),
        decode_spec(ascii("up_interface"@), field(n) + rest) == (CommandView::UpInterface {
            name: n,
        }),
        decode_spec(ascii("delete_veth"@), field(n) + rest) == (CommandView::DeleteVeth { veth: n }),
{
    lemma_known_names();
    crate::wire::lemma_field_roundtrip(n, rest);
}

/// A command with two named fields reads them whole and in order: a veth
/// pair's front and back, a veth end and its hardware address, a bridge and
/// its address text, the bridge's prefix being the byte that follows.
pub proof fn lemma_decode_two_fields(n: Seq<u8>, m: Seq<u8>, rest: Seq<u8>)
    requires
        n.len() <= u64::MAX,
        m.len() <= u64::MAX,
    ensures
        command_ok(ascii("create_veth"@), field(n) + field(m) + rest),
        command_ok(ascii("assign_mac_to_veth"@), field(n) + field(m) + rest),
        decode_spec(ascii("create_veth"@), field(n) + field(m) + rest) == (CommandView::CreateVeth {
            front: n,
            back: m,
        }),
        decode_spec(ascii("assign_mac_to_veth"@), field(n) + field(m) + rest)
            == (CommandView::AssignMacToVeth { veth: n, mac: m }),
        command_ok(ascii("assign_ip_bridge"@), field(n) + field(m) + rest) <==> rest.len() > 0,
        rest.len() > 0 ==> decode_spec(ascii("assign_ip_bridge"@), field(n) + field(m) + rest)
            == (CommandView::AssignIpBridge { bridge_name: n, address_text: m, prefix: rest[0] }),
{
    lemma_known_names();
    let after = field(m) + rest;
    assert(field(n) + field(m) + rest =~= field(n) + after);
    crate::wire::lemma_field_roundtrip(n, after);
    crate::wire::lemma_field_roundtrip(m, rest);
}

/// A command that gives a veth end an IPv4 address reads the address from
/// its dotted text: the gateway of a default route is that address, and an
/// address assignment, which also needs its prefix as the last byte, gets
/// that address with that prefix.
pub proof fn lemma_decode_address(v: Seq<u8>, ip: u32, rest: Seq<u8>)
    requires
        v.len() <= u64::MAX,
    ensures
        command_ok(ascii("add_veth_as_default"@), field(v) + field(dotted(ip)) + rest),
        decode_spec(ascii("add_veth_as_default"@), field(v) + field(dotted(ip)) + rest)
            == (CommandView::AddVethAsDefault { veth: v, gateway: ip }),
        command_ok(ascii("assign_veth_ip"@), field(v) + field(dotted(ip)) + rest) <==> rest.len()
            > 0,
        rest.len() > 0 ==> decode_spec(
            ascii("assign_veth_ip"@),
            field(v) + field(dotted(ip)) + rest,
        ) == (CommandView::AssignVethIp { veth: v, address: ip, prefix: rest.last() }),
{
    lemma_known_names();
    let (o0, o1, o2, o3) = crate::ipv4::octets(ip);
    assert(crate::ipv4::octet_text(o0).len() <= 3);
    assert(crate::ipv4::octet_text(o1).len() <= 3);
    assert(crate::ipv4::octet_text(o2).len() <= 3);
    assert(crate::ipv4::octet_text(o3).len() <= 3);
    let text = dotted(ip);
    assert(text.len() <= 15);
    let after = field(text) + rest;
    assert(field(v) + field(text) + rest =~= field(v) + after);
    crate::wire::lemma_field_roundtrip(v, after);
    crate::wire::lemma_field_roundtrip(text, rest);
    crate::ipv4::lemma_parse_dotted(ip);
}

/// A process id travels as four bytes, most significant first; the command
/// that moves a veth end reads all four of them back into the same id.
pub proof fn lemma_decode_pid(v: Seq<u8>, a: u8, b: u8, c: u8, d: u8, rest: Seq<u8>)
    requires
        v.len() <= u64::MAX,
    ensures
        command_ok(ascii("move_veth_to_netns_by_pid"@), field(v) + field(seq![a, b, c, d]) + rest),
        decode_spec(ascii("move_veth_to_netns_by_pid"@), field(v) + field(seq![a, b, c, d]) + rest)
            == (CommandView::MoveVethToNetnsByPid {
            veth: v,
            pid: ((a as u32) << 24u32) | ((b as u32) << 16u32) | ((c as u32) << 8u32) | (d as u32),
        }),
{
    lemma_known_names();
    let four = seq![a, b, c, d];
    let after = field(four) + rest;
    assert(field(v) + field(four) + rest =~= field(v) + after);
    crate::wire::lemma_field_roundtrip(v, after);
    crate::wire::lemma_field_roundtrip(four, rest);
}

/// Which of the known command names `name` is; 0 for none of them.
fn command_kind(name: &[u8]) -> (r: u8)
    ensures
        r == kind_of(name@),
{
    proof {
        reveal_strlit("create_bridge");
        reveal_strlit("assign_ip_bridge");
        reveal_strlit("up_interface");
        reveal_strlit("create_veth");
        reveal_strlit("assign_veth_ip");
        reveal_strlit("assign_mac_to_veth");
        reveal_strlit("move_veth_to_netns_by_pid");
        reveal_strlit("add_veth_as_default");
        reveal_strlit("delete_veth");
        assert(ascii("create_bridge"@).len() == 13);
        assert(ascii("assign_ip_bridge"@).len() == 16);
        assert(ascii("up_interface"@).len() == 12);
        assert(ascii("create_veth"@).len() == 11);
        assert(ascii("assign_veth_ip"@).len() == 14);
        assert(ascii("assign_mac_to_veth"@).len() == 18);
        assert(ascii("move_veth_to_netns_by_pid"@).len() == 25);
        assert(ascii("add_veth_as_default"@).len() == 19);
        assert(ascii("delete_veth"@).len() == 11);
        assert(ascii("create_veth"@)[0] != ascii("delete_veth"@)[0]);
    }
    if bytes_equal(name, literal("create_bridge")) {
        1
    } else if bytes_equal(name, literal("assign_ip_bridge")) {
        2
    } else if bytes_equal(name, literal("up_interface")) {
        3
    } else if bytes_equal(name, literal("create_veth")) {
        4
    } else if bytes_equal(name, literal("assign_veth_ip")) {
        5
    } else if bytes_equal(name, literal("assign_mac_to_veth")) {
        6
    } else if bytes_equal(name, literal("move_veth_to_netns_by_pid")) {
        7
    } else if bytes_equal(name, literal("add_veth_as_default")) {
        8
    } else if bytes_equal(name, literal("delete_veth")) {
        9
    } else {
        0
    }
}

/// Whether the controller's reading of the command completes.
pub fn command_decodable(name: &[u8], payload: &[u8]) -> (r: bool)
    ensures
        r == command_ok(name@, payload@),
{
    let kind = command_kind(name);
    if kind == 0 {
        return true;
    }
    if !starts_with_field(payload) {
        return false;
    }
    if kind == 1 || kind == 3 || kind == 9 {
        return true;
    }
    let end = field_end(payload);
    let second = vstd::slice::slice_subrange(payload, end, payload.len());
    assert(second@ == frame_rest(payload@));
    if !starts_with_field(second) {
        return false;
    }
    if kind == 4 || kind == 6 {
        return true;
    }
    let end2 = field_end(second);
    let body = vstd::slice::slice_subrange(second, 8, end2);
    let after = vstd::slice::slice_subrange(second, end2, second.len());
    assert(body@ == frame_body(second@));
    assert(after@ == frame_rest(second@));
    if kind == 2 {
        after.len() > 0
    } else if kind == 5 {
        after.len() > 0 && parse_ipv4(body).is_some()
    } else if kind == 7 {
        body.len() == 4
    } else {
        parse_ipv4(body).is_some()
    }
}

/// What the command `command_buf` with `payload` asks the controller to do.
pub fn decode_command(command_buf: Vec<u8>, payload: Vec<u8>) -> (r: ControllerCommand)
    requires
        command_ok(command_buf@, payload@),
    ensures
        r@ == decode_spec(command_buf@, payload@),
{
    let kind = command_kind(command_buf.as_slice());
    if kind == 0 {
        return ControllerCommand::Nothing;
    }
    let (first, rest) = simplify(payload);
    if kind == 1 {
        return ControllerCommand::CreateBridge { bridge_name: first };
    }
    if kind == 3 {
        return ControllerCommand::UpInterface { name: first };
    }
    if kind == 9 {
        return ControllerCommand::DeleteVeth { veth: first };
    }
    let (second, mut after) = simplify(rest);
    if kind == 2 {
        let prefix = after[0];
        ControllerCommand::AssignIpBridge { bridge_name: first, address_text: second, prefix }
    } else if kind == 4 {
        ControllerCommand::CreateVeth { front: first, back: second }
    } else if kind == 5 {
        let address = parse_ipv4(second.as_slice()).unwrap();
        let ghost tail = after@;
        let prefix = after.pop().unwrap();
        assert(prefix == tail.last());
        ControllerCommand::AssignVethIp { veth: first, address, prefix }
    } else if kind == 6 {
        ControllerCommand::AssignMacToVeth { veth: first, mac: second }
    } else if kind == 7 {
        let pid = ipv4(second[0], second[1], second[2], second[3]);
        ControllerCommand::MoveVethToNetnsByPid { veth: first, pid }
    } else {
        let gateway = parse_ipv4(second.as_slice()).unwrap();
        ControllerCommand::AddVethAsDefault { veth: first, gateway }
    }
}

} // verus!
