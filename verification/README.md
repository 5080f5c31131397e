# minidocker

A small container runtime. A command line turns typed commands into
length-prefixed requests; a server turns each request into a stream of
network commands; a controller runs those commands against the kernel
through rtnetlink; a manager hands out addresses from a bridge's subnet and
wires new processes into it.

`src/` is the verified library; every function carries its contract:

- `wire`: the eight-byte big-endian length prefix, fields, and the laws that
  reading a field gives back what was written and loses nothing.
- `ipv4`: addresses as `u32`, their dotted-decimal text (written and read,
  with the law that the two are inverse), subnets through `ipnetwork`, and
  random draws through `rand`.
- `cli`: trimming and splitting an input line, parsing a prefix, and
  building a request.
- `server`: the operations the server understands and the commands they
  become.
- `controller`: reading a command stream one command at a time, and what
  each command asks for.
- `ip_pool`, `manager`: address pools, the default pool, and the commands
  that wire a started process into the network.
- `pipeline`: laws across the parts: a bridge request from the command line
  and the pool's setup commands are what the controller reads; a container
  request from the command line is followed as far as the server's output
  (a veth pair named after the container and the start of its process).

`app/` is the program around it: sockets, the interactive loop, rtnetlink,
and cloning processes.
