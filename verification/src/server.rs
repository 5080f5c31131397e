//! The server's side: turning an operation that the command line asked for
//! into the commands that the network controller carries out.
use crate::wire::{
    add_field, append_bytes, ascii, bytes_equal, field, field_end, frame_body, frame_rest,
    is_framed, literal, simplify, starts_with_field,
};
use vstd::prelude::*;

verus! {

/// The veth pair named after the container whose name is the first field of
/// `payload`, and what follows that field. Both ends get the name
/// `_veth_front` followed by the container's name.
pub open spec fn veth_pair_spec(payload: Seq<u8>) -> (Seq<u8>, Seq<u8>) {
    let front = ascii("_veth_front"@) + frame_body(payload);
    (field(ascii("create_veth"@)) + field(field(front) + field(front)), frame_rest(payload))
}

/// The command that starts the process whose path and arguments are the
/// first two fields of `payload`, and what follows them. The path and the
/// arguments follow the command's name directly, without an enclosing field.
pub open spec fn start_process_spec(payload: Seq<u8>) -> (Seq<u8>, Seq<u8>) {
    let path = frame_body(payload);
    let after_path = frame_rest(payload);
    (
        field(ascii("start_process"@)) + field(path) + field(frame_body(after_path)),
        frame_rest(after_path),
    )
}

/// The payloads on which the server's handling of an operation completes:
/// every field it reads is there, and a bridge request ends with a prefix byte.
pub open spec fn operation_ok(op: Seq<u8>, payload: Seq<u8>) -> bool {
    if op == ascii("create_bridge"@) {
        &&& is_framed(payload)
        &&& is_framed(frame_rest(payload))
        &&& frame_rest(frame_rest(payload)).len() > 0
    } else if op == ascii("create container"@) {
        &&& is_framed(payload)
        &&& is_framed(frame_rest(payload))
        &&& is_framed(frame_rest(frame_rest(payload)))
    } else {
        true
    }
}

/// The controller commands for an operation: a bridge request keeps its
/// name, address and last byte as prefix; a container request (path,
/// arguments, name) becomes a veth pair named after the container and the
/// start of the process with that path and those arguments; anything else
/// asks for nothing.
pub open spec fn handle_operation_spec(op: Seq<u8>, payload: Seq<u8>) -> Seq<u8> {
    if op == ascii("create_bridge"@) {
        let name = frame_body(payload);
        let after_name = frame_rest(payload);
        let ip = frame_body(after_name);
        let tail = frame_rest(after_name);
        field(ascii("create_bridge"@)) + field(field(name) + field(ip) + seq![tail.last()])
    } else if op == ascii("create container"@) {
        let (process, after) = start_process_spec(payload);
        let (veth, _) = veth_pair_spec(after);
        field(veth) + field(process)
    } else {
        Seq::empty()
    }
}

/// Whether the server's handling of `op` completes on `payload`.
pub fn operation_well_formed(op: &[u8], payload: &[u8]) -> (r: bool)
    ensures
        r == operation_ok(op@, payload@),
{
    proof {
        reveal_strlit("create_bridge");
        reveal_strlit("create container");
    }
    let is_bridge = bytes_equal(op, literal("create_bridge"));
    let is_container = bytes_equal(op, literal("create container"));
    if !is_bridge && !is_container {
        return true;
    }
    if !starts_with_field(payload) {
        return false;
    }
    let end1 = field_end(payload);
    let rest1 = vstd::slice::slice_subrange(payload, end1, payload.len());
    assert(rest1@ == frame_rest(payload@));
    if !starts_with_field(rest1) {
        return false;
    }
    let end2 = field_end(rest1);
    let rest2 = vstd::slice::slice_subrange(rest1, end2, rest1.len());
    assert(rest2@ == frame_rest(rest1@));
    if is_bridge {
        rest2.len() > 0
    } else {
        starts_with_field(rest2)
    }
}

/// The command that creates the veth pair for the container named by the
/// first field of `payload`, and what follows that field.
pub fn CreateVethPair(payload: Vec<u8>) -> (r: (Vec<u8>, Vec<u8>))
    requires
        is_framed(payload@),
    ensures
        (r.0@, r.1@) == veth_pair_spec(payload@),
{
    proof {
        reveal_strlit("create_veth");
        reveal_strlit("_veth_front");
    }
    let mut final_buf: Vec<u8> = Vec::new();
    add_field(&mut final_buf, literal("create_veth"));

    let (container_name_buf, payload) = simplify(payload);
    let mut veth_front: Vec<u8> = Vec::new();
    append_bytes(&mut veth_front, literal("_veth_front"));
    append_bytes(&mut veth_front, container_name_buf.as_slice());

    let mut buf: Vec<u8> = Vec::new();
    add_field(&mut buf, veth_front.as_slice());
    add_field(&mut buf, veth_front.as_slice());
    add_field(&mut final_buf, buf.as_slice());
    (final_buf, payload)
}

/// The command that starts the process whose path and arguments are the
/// first two fields of `payload`, and what follows them.
pub fn StartProcess(payload: Vec<u8>) -> (r: (Vec<u8>, Vec<u8>))
    requires
        is_framed(payload@),
        is_framed(frame_rest(payload@)),
    ensures
        (r.0@, r.1@) == start_process_spec(payload@),
{
    proof {
        reveal_strlit("start_process");
    }
    let mut final_buf: Vec<u8> = Vec::new();
    add_field(&mut final_buf, literal("start_process"));
    let (path_buf, payload) = simplify(payload);
    add_field(&mut final_buf, path_buf.as_slice());
    let (arguments_buf, payload) = simplify(payload);
    add_field(&mut final_buf, arguments_buf.as_slice());
    (final_buf, payload)
}

/// The controller commands for the operation `operation_name_buf` with its
/// `payload`.
pub fn HandleOperation(operation_name_buf: Vec<u8>, payload: Vec<u8>) -> (r: Vec<u8>)
    requires
        operation_ok(operation_name_buf@, payload@),
    ensures
        r@ == handle_operation_spec(operation_name_buf@, payload@),
{
    proof {
        reveal_strlit("create_bridge");
        reveal_strlit("create container");
    }
    if bytes_equal(operation_name_buf.as_slice(), literal("create_bridge")) {
        let mut final_buf: Vec<u8> = Vec::new();
        add_field(&mut final_buf, literal("create_bridge"));
        let (bridge_name_buf, payload) = simplify(payload);
        let mut buf: Vec<u8> = Vec::new();
        add_field(&mut buf, bridge_name_buf.as_slice());
        let (bridge_ip, mut payload) = simplify(payload);
        add_field(&mut buf, bridge_ip.as_slice());
        let ghost tail = payload@;
        let prefix = payload.pop().unwrap();
        buf.push(prefix);
        add_field(&mut final_buf, buf.as_slice());
        assert(prefix == tail.last());
        final_buf
    } else if bytes_equal(operation_name_buf.as_slice(), literal("create container")) {
        let mut final_buf: Vec<u8> = Vec::new();
        let (process_buf, payload) = StartProcess(payload);
        let (veth_buf, _payload) = CreateVethPair(payload);
        add_field(&mut final_buf, veth_buf.as_slice());
        add_field(&mut final_buf, process_buf.as_slice());
        final_buf
    } else {
        Vec::new()
    }
}

} // verus!
