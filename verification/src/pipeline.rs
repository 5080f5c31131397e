//! Laws that span the command line, the server, the manager and the
//! controller: what one side writes, the next one reads.
use crate::cli::{parse_u8_spec, request_spec};
use crate::controller::{
    lemma_decode_pid, lemma_decode_two_fields, command_ok, commands_fit, commands_of, decode_spec, encode_commands, kind_of,
    lemma_commands_roundtrip, CommandView,
};
use crate::ip_pool::network_setup_commands;
use crate::manager::{be32, move_veth_message};
use crate::ipv4::{dotted, lemma_parse_dotted, parse_ipv4_spec};
use crate::server::{handle_operation_spec, operation_ok};
use crate::wire::{ascii, field, frame_body, frame_rest, is_framed, lemma_field_roundtrip};
use vstd::prelude::*;
use vstd::utf8::encode_utf8;

verus! {

proof fn lemma_names_distinct()
    ensures
        kind_of(ascii("create_bridge"@)) == 1,
        kind_of(ascii("assign_ip_bridge"@)) == 2,
        kind_of(ascii("up_interface"@)) == 3,
{
    reveal_strlit("create_bridge");
    reveal_strlit("assign_ip_bridge");
    reveal_strlit("up_interface");
    assert(ascii("create_bridge"@).len() == 13);
    assert(ascii("assign_ip_bridge"@).len() == 16);
    assert(ascii("up_interface"@).len() == 12);
}

/// The commands that set a bridge up read, at the controller, as exactly
/// three commands: create the bridge, bring it up, and give it the gateway
/// address with the prefix; the address text reads back as the gateway.
pub proof fn lemma_setup_commands_reach_controller(bridge: Seq<u8>, gateway: u32, prefix: u8)
    requires
        bridge.len() + 64 <= u64::MAX,
    ensures
        ({
            let assign = field(bridge) + field(dotted(gateway)) + seq![prefix];
            let cmds = seq![
                (ascii("create_bridge"@), field(bridge)),
                (ascii("up_interface"@), field(bridge)),
                (ascii("assign_ip_bridge"@), assign),
            ];
            &&& commands_of(network_setup_commands(bridge, gateway, prefix)) == Some(cmds)
            &&& command_ok(cmds[0].0, cmds[0].1)
            &&& command_ok(cmds[1].0, cmds[1].1)
            &&& command_ok(cmds[2].0, cmds[2].1)
            &&& decode_spec(cmds[0].0, cmds[0].1) == CommandView::CreateBridge {
                bridge_name: bridge,
            }
            &&& decode_spec(cmds[1].0, cmds[1].1) == CommandView::UpInterface { name: bridge }
            &&& decode_spec(cmds[2].0, cmds[2].1) == CommandView::AssignIpBridge {
                bridge_name: bridge,
                address_text: dotted(gateway),
                prefix,
            }
            &&& parse_ipv4_spec(dotted(gateway)) == Some(gateway)
        }),
{
    let text = dotted(gateway);
    let assign = field(bridge) + field(text) + seq![prefix];
    let cmds = seq![
        (ascii("create_bridge"@), field(bridge)),
        (ascii("up_interface"@), field(bridge)),
        (ascii("assign_ip_bridge"@), assign),
    ];
    reveal_strlit("create_bridge");
    reveal_strlit("assign_ip_bridge");
    reveal_strlit("up_interface");
    lemma_names_distinct();
    let (o0, o1, o2, o3) = crate::ipv4::octets(gateway);
    assert(crate::ipv4::octet_text(o0).len() <= 3);
    assert(crate::ipv4::octet_text(o1).len() <= 3);
    assert(crate::ipv4::octet_text(o2).len() <= 3);
    assert(crate::ipv4::octet_text(o3).len() <= 3);
    assert(text.len() <= 15);
    assert(commands_fit(cmds));
    reveal_with_fuel(encode_commands, 4);
    assert(cmds.drop_first().drop_first().drop_first() =~= Seq::<(Seq<u8>, Seq<u8>)>::empty());
    assert(encode_commands(cmds) =~= network_setup_commands(bridge, gateway, prefix));
    lemma_commands_roundtrip(cmds);

    let empty = Seq::<u8>::empty();
    lemma_field_roundtrip(bridge, empty);
    assert(field(bridge) + empty =~= field(bridge));
    let after = field(text) + seq![prefix];
    lemma_field_roundtrip(bridge, after);
    assert(assign =~= field(bridge) + after);
    lemma_field_roundtrip(text, seq![prefix]);
    lemma_parse_dotted(gateway);
}

/// The words of a bridge request on the command line reach the controller as
/// one command that creates a bridge with the requested name; the address
/// and prefix travel in its payload.
pub proof fn lemma_bridge_request_reaches_controller(
    name: Seq<char>,
    address: Seq<char>,
    prefix_text: Seq<char>,
)
    requires
        parse_u8_spec(prefix_text) is Some,
        encode_utf8(name).len() + encode_utf8(address).len() + 128 <= u64::MAX,
    ensures
        ({
            let words = seq!["create_bridge"@, name, address, prefix_text];
            let n = encode_utf8(name);
            let a = encode_utf8(address);
            let p = parse_u8_spec(prefix_text)->0;
            let request = request_spec(words)->Ok_0;
            let payload = frame_body(request);
            let op = frame_body(payload);
            let rest = frame_rest(payload);
            let stream = handle_operation_spec(op, rest);
            &&& request_spec(words) is Ok
            &&& is_framed(request) && frame_rest(request).len() == 0
            &&& is_framed(payload)
            &&& op == ascii("create_bridge"@)
            &&& operation_ok(op, rest)
            &&& commands_of(stream) == Some(
                seq![(ascii("create_bridge"@), field(n) + field(a) + seq![p])],
            )
            &&& command_ok(ascii("create_bridge"@), field(n) + field(a) + seq![p])
            &&& decode_spec(ascii("create_bridge"@), field(n) + field(a) + seq![p])
                == CommandView::CreateBridge { bridge_name: n }
        }),
{
    let words = seq!["create_bridge"@, name, address, prefix_text];
    let n = encode_utf8(name);
    let a = encode_utf8(address);
    let p = parse_u8_spec(prefix_text)->0;
    reveal_strlit("create_bridge");
    reveal_strlit("create_veth");
    reveal_strlit("create container");
    reveal_strlit("create_container");
    lemma_names_distinct();
    let cb = ascii("create_bridge"@);
    assert(cb.len() == 13);
    let rest = field(n) + field(a) + seq![p];
    let payload = field(cb) + rest;
    assert(payload =~= field(cb) + field(n) + field(a) + seq![p]);
    assert(request_spec(words) == Ok::<Seq<u8>, Seq<char>>(field(payload)));
    let request = field(payload);
    let empty = Seq::<u8>::empty();
    lemma_field_roundtrip(payload, empty);
    assert(request + empty =~= request);
    lemma_field_roundtrip(cb, rest);
    let after_n = field(a) + seq![p];
    assert(rest =~= field(n) + after_n);
    lemma_field_roundtrip(n, after_n);
    lemma_field_roundtrip(a, seq![p]);
    let inner = field(n) + field(a) + seq![p];
    let stream = handle_operation_spec(cb, rest);
    assert(stream == field(cb) + field(inner));
    let cmds = seq![(cb, inner)];
    reveal_with_fuel(encode_commands, 2);
    assert(cmds.drop_first() =~= Seq::<(Seq<u8>, Seq<u8>)>::empty());
    assert(encode_commands(cmds) =~= stream);
    assert(commands_fit(cmds));
    lemma_commands_roundtrip(cmds);
}

/// The words of a container request on the command line (path, arguments,
/// name) reach the server's output as the command that creates a veth pair
/// named after the container, then the command that starts the process with
/// that path and those arguments.
pub proof fn lemma_container_request_reaches_server(
    path: Seq<char>,
    arguments: Seq<char>,
    name: Seq<char>,
)
    requires
        encode_utf8(path).len() + encode_utf8(arguments).len() + encode_utf8(name).len() + 128
            <= u64::MAX,
    ensures
        ({
            let words = seq!["create_container"@, path, arguments, name];
            let p = encode_utf8(path);
            let a = encode_utf8(arguments);
            let n = encode_utf8(name);
            let front = ascii("_veth_front"@) + n;
            let request = request_spec(words)->Ok_0;
            let payload = frame_body(request);
            let op = frame_body(payload);
            let rest = frame_rest(payload);
            &&& request_spec(words) is Ok
            &&& is_framed(request) && frame_rest(request).len() == 0
            &&& is_framed(payload)
            &&& op == ascii("create container"@)
            &&& rest == field(p) + field(a) + field(n)
            &&& operation_ok(op, rest)
            &&& handle_operation_spec(op, rest) == field(
                field(ascii("create_veth"@)) + field(field(front) + field(front)),
            ) + field(field(ascii("start_process"@)) + field(p) + field(a))
        }),
{
    let words = seq!["create_container"@, path, arguments, name];
    let p = encode_utf8(path);
    let a = encode_utf8(arguments);
    let n = encode_utf8(name);
    reveal_strlit("create_bridge");
    reveal_strlit("create_veth");
    reveal_strlit("create container");
    reveal_strlit("create_container");
    reveal_strlit("_veth_front");
    let cc = ascii("create container"@);
    assert(cc.len() == 16);
    assert(ascii("create_bridge"@).len() == 13);
    assert("create_container"@.len() == 16);
    assert("create_bridge"@.len() == 13);
    assert("create_veth"@.len() == 11);
    let rest = field(p) + field(a) + field(n);
    let payload = field(cc) + rest;
    assert(payload =~= field(cc) + field(p) + field(a) + field(n));
    assert(request_spec(words) == Ok::<Seq<u8>, Seq<char>>(field(payload)));
    let request = field(payload);
    let empty = Seq::<u8>::empty();
    lemma_field_roundtrip(payload, empty);
    assert(request + empty =~= request);
    lemma_field_roundtrip(cc, rest);
    let after_p = field(a) + field(n);
    assert(rest =~= field(p) + after_p);
    lemma_field_roundtrip(p, after_p);
    lemma_field_roundtrip(a, field(n));
    lemma_field_roundtrip(n, empty);
    assert(field(n) + empty =~= field(n));
}

/// A process id that the manager writes in its move command reads back, at
/// the controller, as the same id, for every id: the bytes after the
/// command's name move the same veth end into the namespace of that very
/// process, whatever follows them.
pub proof fn lemma_move_message_reaches_controller(v: Seq<u8>, pid: u32, rest: Seq<u8>)
    requires
        v.len() <= u64::MAX,
    ensures
        ({
            let msg = move_veth_message(v, pid);
            let name = ascii("move_veth_to_netns_by_pid"@);
            &&& is_framed(msg)
            &&& frame_body(msg) == name
            &&& frame_rest(msg) == field(v) + field(be32(pid))
            &&& command_ok(name, field(v) + field(be32(pid)) + rest)
            &&& decode_spec(name, field(v) + field(be32(pid)) + rest)
                == (CommandView::MoveVethToNetnsByPid { veth: v, pid })
        }),
{
    let name = ascii("move_veth_to_netns_by_pid"@);
    reveal_strlit("move_veth_to_netns_by_pid");
    assert(name.len() == 25);
    let after = field(v) + field(be32(pid));
    let msg = move_veth_message(v, pid);
    assert(msg =~= field(name) + after);
    lemma_field_roundtrip(name, after);
    let four = be32(pid);
    lemma_decode_pid(v, four[0], four[1], four[2], four[3], rest);
    assert(seq![four[0], four[1], four[2], four[3]] =~= four);
    crate::ipv4::lemma_from_octets_of_octets(pid);
}

/// The words `create_veth`, a front name and a back name make a request that
/// carries both names whole, as UTF-8, in that order, and nothing more; what
/// follows the operation's name reads, as a controller command, as the veth
/// pair with that front and that back.
pub proof fn lemma_veth_request_words(front: Seq<char>, back: Seq<char>)
    requires
        encode_utf8(front).len() + encode_utf8(back).len() + 128 <= u64::MAX,
    ensures
        ({
            let words = seq!["create_veth"@, front, back];
            let f = encode_utf8(front);
            let b = encode_utf8(back);
            let request = request_spec(words)->Ok_0;
            let payload = frame_body(request);
            let rest = frame_rest(payload);
            &&& request_spec(words) is Ok
            &&& is_framed(request) && frame_rest(request).len() == 0
            &&& is_framed(payload)
            &&& frame_body(payload) == ascii("create_veth"@)
            &&& is_framed(rest) && frame_body(rest) == f
            &&& is_framed(frame_rest(rest)) && frame_body(frame_rest(rest)) == b
            &&& frame_rest(frame_rest(rest)).len() == 0
            &&& decode_spec(ascii("create_veth"@), rest) == (CommandView::CreateVeth {
                front: f,
                back: b,
            })
        }),
{
    let words = seq!["create_veth"@, front, back];
    let f = encode_utf8(front);
    let b = encode_utf8(back);
    reveal_strlit("create_bridge");
    reveal_strlit("create_veth");
    let cv = ascii("create_veth"@);
    assert(cv.len() == 11);
    assert("create_bridge"@.len() == 13);
    assert("create_veth"@.len() == 11);
    assert("create_bridge"@ != "create_veth"@);
    let rest = field(f) + field(b);
    let payload = field(cv) + rest;
    assert(payload =~= field(cv) + field(f) + field(b));
    assert(request_spec(words) == Ok::<Seq<u8>, Seq<char>>(field(payload)));
    let request = field(payload);
    let empty = Seq::<u8>::empty();
    lemma_field_roundtrip(payload, empty);
    assert(request + empty =~= request);
    lemma_field_roundtrip(cv, rest);
    lemma_field_roundtrip(f, field(b));
    lemma_field_roundtrip(b, empty);
    assert(field(b) + empty =~= field(b));
    lemma_decode_two_fields(f, b, empty);
    assert(field(f) + field(b) + empty =~= rest);
}

} // verus!
