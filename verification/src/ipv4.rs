//! IPv4 addresses as numbers, their dotted-decimal text, and subnets.
//!
//! An address is the `u32` whose big-endian bytes are its four octets, so
//! `10.2.0.1` is `0x0a02_0001`.
use ipnetwork::Ipv4Network;
use rand::RngExt;
use vstd::prelude::*;

verus! {

/// A subnet: an address and a prefix length. Well formed when the prefix
/// is at most 32.
#[derive(Clone, Copy, Debug, PartialEq, Eq)]
pub struct Subnet {
    pub addr: u32,
    pub prefix: u8,
}

impl Subnet {
    pub open spec fn wf(self) -> bool {
        self.prefix <= 32
    }
}

/// The netmask of a prefix: its `prefix` most significant bits set.
pub open spec fn mask(prefix: u8) -> u32 {
    if prefix == 0 {
        0u32
    } else {
        u32::MAX << ((32 - prefix) as u32)
    }
}

/// The lowest address of the subnet.
pub open spec fn network_of(net: Subnet) -> u32 {
    net.addr & mask(net.prefix)
}

/// The highest address of the subnet.
pub open spec fn broadcast_of(net: Subnet) -> u32 {
    net.addr | !mask(net.prefix)
}

/// The lowest address of a subnet never exceeds the highest.
pub proof fn lemma_network_le_broadcast(net: Subnet)
    ensures
        network_of(net) <= broadcast_of(net),
{
    let a = net.addr;
    let m = mask(net.prefix);
    assert((a & m) <= (a | !m)) by (bit_vector);
}

/// Builds the subnet with `ipnetwork::Ipv4Network::new`. The crate accepts
/// every prefix up to 32 and keeps the address as given; larger prefixes are
/// refused. Stated here: the result exists exactly for prefixes up to 32 and
/// then holds the address and prefix that were passed in.
#[verifier::external_body]
pub fn ipv4_network_new(addr: u32, prefix: u8) -> (r: Option<Subnet>)
    ensures
        r is Some <==> prefix <= 32,
        r matches Some(n) ==> n.addr == addr && n.prefix == prefix,
{
    match Ipv4Network::new(addr.into(), prefix) {
        Ok(n) => Some(Subnet { addr: u32::from(n.ip()), prefix: n.prefix() }),
        Err(_) => None,
    }
}

/// The network address that `ipnetwork::Ipv4Network::network` computes: the
/// address with every bit outside the prefix cleared.
#[verifier::external_body]
pub fn subnet_network(net: &Subnet) -> (r: u32)
    requires
        net.wf(),
    ensures
        r == network_of(*net),
{
    u32::from(Ipv4Network::new(net.addr.into(), net.prefix).unwrap().network())
}

/// The broadcast address that `ipnetwork::Ipv4Network::broadcast` computes:
/// the address with every bit outside the prefix set.
#[verifier::external_body]
pub fn subnet_broadcast(net: &Subnet) -> (r: u32)
    requires
        net.wf(),
    ensures
        r == broadcast_of(*net),
{
    u32::from(Ipv4Network::new(net.addr.into(), net.prefix).unwrap().broadcast())
}

/// A number drawn by `rand::RngExt::random_range` on the inclusive range
/// `lo..=hi` of the thread-local generator. The draw depends on chance, so
/// only its range is stated.
#[verifier::external_body]
pub fn random_in_range(lo: u32, hi: u32) -> (r: u32)
    requires
        lo <= hi,
    ensures
        lo <= r <= hi,
{
    rand::rng().random_range(lo..=hi)
}

/// The ASCII digits of `n`, without leading zeros.
pub open spec fn octet_text(n: u8) -> Seq<u8> {
    if n < 10 {
        seq![(48 + n) as u8]
    } else if n < 100 {
        seq![(48 + n / 10) as u8, (48 + n % 10) as u8]
    } else {
        seq![(48 + n / 100) as u8, (48 + (n / 10) % 10) as u8, (48 + n % 10) as u8]
    }
}

/// The octets of an address, most significant first.
pub open spec fn octets(ip: u32) -> (u8, u8, u8, u8) {
    ((ip >> 24u32) as u8, (ip >> 16u32) as u8, (ip >> 8u32) as u8, ip as u8)
}

/// The dotted-decimal text of an address, as `Ipv4Addr`'s `Display` writes it.
pub open spec fn dotted(ip: u32) -> Seq<u8> {
    let (a, b, c, d) = octets(ip);
    octet_text(a) + seq![46u8] + octet_text(b) + seq![46u8] + octet_text(c) + seq![46u8]
        + octet_text(d)
}

/// The address with the given octets, most significant first.
pub open spec fn from_octets(a: u8, b: u8, c: u8, d: u8) -> u32 {
    ((a as u32) << 24u32) | ((b as u32) << 16u32) | ((c as u32) << 8u32) | (d as u32)
}

/// The address with the given octets, most significant first, as
/// `Ipv4Addr::new` builds it.
pub fn ipv4(a: u8, b: u8, c: u8, d: u8) -> (r: u32)
    ensures
        r == from_octets(a, b, c, d),
        octets(r) == (a, b, c, d),
{
    let r = ((a as u32) << 24u32) | ((b as u32) << 16u32) | ((c as u32) << 8u32) | (d as u32);
    assert({
        &&& (r >> 24u32) as u8 == a
        &&& (r >> 16u32) as u8 == b
        &&& (r >> 8u32) as u8 == c
        &&& r as u8 == d
    }) by (bit_vector)
        requires
            r == ((a as u32) << 24u32) | ((b as u32) << 16u32) | ((c as u32) << 8u32) | (d as u32),
    ;
    r
}

/// Appends the decimal digits of `n` to `buf`.
fn push_octet_text(buf: &mut Vec<u8>, n: u8)
    ensures
        final(buf)@ == old(buf)@ + octet_text(n),
{
    if n < 10 {
        buf.push(48 + n);
    } else if n < 100 {
        buf.push(48 + n / 10);
        buf.push(48 + n % 10);
    } else {
        buf.push(48 + n / 100);
        buf.push(48 + (n / 10) % 10);
        buf.push(48 + n % 10);
    }
    assert(final(buf)@ =~= old(buf)@ + octet_text(n));
}

/// The dotted-decimal text of `ip`, as `Ipv4Addr::to_string` gives it.
pub fn ipv4_to_text(ip: u32) -> (r: Vec<u8>)
    ensures
        r@ == dotted(ip),
{
    let mut buf: Vec<u8> = Vec::new();
    push_octet_text(&mut buf, (ip >> 24u32) as u8);
    buf.push(46);
    push_octet_text(&mut buf, (ip >> 16u32) as u8);
    buf.push(46);
    push_octet_text(&mut buf, (ip >> 8u32) as u8);
    buf.push(46);
    push_octet_text(&mut buf, ip as u8);
    assert(buf@ =~= dotted(ip));
    buf
}

} // verus!

verus! {

/// An ASCII decimal digit.
pub open spec fn is_ascii_digit(b: u8) -> bool {
    48 <= b && b <= 57
}

/// The number that a string of ASCII decimal digits spells.
pub open spec fn ascii_value(t: Seq<u8>) -> nat
    decreases t.len(),
{
    if t.len() == 0 {
        0
    } else {
        ascii_value(t.drop_last()) * 10 + ((t.last() - 48) as nat)
    }
}

/// How many ASCII digits follow one another in `s` from `pos` on.
pub open spec fn digit_run(s: Seq<u8>, pos: nat) -> nat
    decreases s.len() - pos,
{
    if pos < s.len() && is_ascii_digit(s[pos as int]) {
        1 + digit_run(s, pos + 1)
    } else {
        0
    }
}

/// The text of an octet as `Ipv4Addr`'s parser accepts it: one to three
/// digits, no leading zero unless the octet is `0`, and a value below 256.
pub open spec fn octet_ok(t: Seq<u8>) -> bool {
    &&& 1 <= t.len() <= 3
    &&& forall|i: int| 0 <= i < t.len() ==> is_ascii_digit(#[trigger] t[i])
    &&& (t.len() == 1 || t[0] != 48)
    &&& ascii_value(t) <= 255
}

/// The octet whose digits start at `pos` in `s`, and where its digits end.
pub open spec fn read_octet(s: Seq<u8>, pos: nat) -> Option<(u8, nat)> {
    let n = digit_run(s, pos);
    let t = s.subrange(pos as int, pos + n as int);
    if octet_ok(t) {
        Some((ascii_value(t) as u8, pos + n))
    } else {
        None
    }
}

/// A dot at `pos` in `s`, then an octet.
pub open spec fn read_dot_octet(s: Seq<u8>, pos: nat) -> Option<(u8, nat)> {
    if pos < s.len() && s[pos as int] == 46 {
        read_octet(s, pos + 1)
    } else {
        None
    }
}

/// The address that `s` spells as four dotted octets and nothing else.
pub open spec fn parse_ipv4_spec(s: Seq<u8>) -> Option<u32> {
    match read_octet(s, 0) {
        None => None,
        Some((a, p1)) => match read_dot_octet(s, p1) {
            None => None,
            Some((b, p2)) => match read_dot_octet(s, p2) {
                None => None,
                Some((c, p3)) => match read_dot_octet(s, p3) {
                    None => None,
                    Some((d, p4)) => if p4 == s.len() {
                        Some(from_octets(a, b, c, d))
                    } else {
                        None
                    },
                },
            },
        },
    }
}

proof fn lemma_octets_of_from_octets(a: u8, b: u8, c: u8, d: u8)
    ensures
        octets(from_octets(a, b, c, d)) == (a, b, c, d),
{
    let r = from_octets(a, b, c, d);
    assert({
        &&& (r >> 24u32) as u8 == a
        &&& (r >> 16u32) as u8 == b
        &&& (r >> 8u32) as u8 == c
        &&& r as u8 == d
    }) by (bit_vector)
        requires
            r == ((a as u32) << 24u32) | ((b as u32) << 16u32) | ((c as u32) << 8u32) | (d as u32),
    ;
}

/// An address is rebuilt from its four octets.
pub proof fn lemma_from_octets_of_octets(ip: u32)
    ensures
        ({
            let (a, b, c, d) = octets(ip);
            from_octets(a, b, c, d) == ip
        }),
{
    let a = (ip >> 24u32) as u8;
    let b = (ip >> 16u32) as u8;
    let c = (ip >> 8u32) as u8;
    let d = ip as u8;
    assert(((a as u32) << 24u32) | ((b as u32) << 16u32) | ((c as u32) << 8u32) | (d as u32)
        == ip) by (bit_vector)
        requires
            a == (ip >> 24u32) as u8,
            b == (ip >> 16u32) as u8,
            c == (ip >> 8u32) as u8,
            d == ip as u8,
    ;
}

/// The text of an octet is accepted and spells the octet.
proof fn lemma_octet_text_ok(n: u8)
    ensures
        octet_ok(octet_text(n)),
        ascii_value(octet_text(n)) == n,
{
    reveal_with_fuel(ascii_value, 4);
    let t = octet_text(n);
    if n < 10 {
        assert(t.drop_last() =~= Seq::<u8>::empty());
    } else if n < 100 {
        let q = n / 10;
        let r = n % 10;
        assert(n == q * 10 + r && 1 <= q <= 9 && r <= 9) by (nonlinear_arith)
            requires
                10 <= n < 100,
                q == n / 10,
                r == n % 10,
        ;
        assert(t.drop_last() =~= seq![(48 + q) as u8]);
        assert(t.drop_last().drop_last() =~= Seq::<u8>::empty());
    } else {
        let h = n / 100;
        let q = (n / 10) % 10;
        let r = n % 10;
        assert(n == h * 100 + q * 10 + r && 1 <= h <= 2 && q <= 9 && r <= 9) by (nonlinear_arith)
            requires
                100 <= n <= 255,
                h == n / 100,
                q == (n / 10) % 10,
                r == n % 10,
        ;
        assert(t.drop_last() =~= seq![(48 + h) as u8, (48 + q) as u8]);
        assert(t.drop_last().drop_last() =~= seq![(48 + h) as u8]);
        assert(t.drop_last().drop_last().drop_last() =~= Seq::<u8>::empty());
    }
}

/// An accepted octet text is the text of the octet it spells.
proof fn lemma_octet_ok_canonical(t: Seq<u8>)
    requires
        octet_ok(t),
    ensures
        octet_text(ascii_value(t) as u8) == t,
{
    reveal_with_fuel(ascii_value, 4);
    assert(is_ascii_digit(t[0]));
    let d0 = (t[0] - 48) as nat;
    if t.len() == 1 {
        assert(t.drop_last() =~= Seq::<u8>::empty());
        assert(ascii_value(t) == d0);
        assert(octet_text(ascii_value(t) as u8) =~= t);
    } else if t.len() == 2 {
        assert(is_ascii_digit(t[1]));
        let d1 = (t[1] - 48) as nat;
        assert(t.drop_last() =~= seq![t[0]]);
        assert(t.drop_last().drop_last() =~= Seq::<u8>::empty());
        let n = ascii_value(t);
        assert(n == d0 * 10 + d1);
        assert(10 <= n < 100 && n / 10 == d0 && n % 10 == d1) by (nonlinear_arith)
            requires
                n == d0 * 10 + d1,
                1 <= d0 <= 9,
                d1 <= 9,
        ;
        assert(octet_text(n as u8) =~= t);
    } else {
        assert(is_ascii_digit(t[1]));
        assert(is_ascii_digit(t[2]));
        let d1 = (t[1] - 48) as nat;
        let d2 = (t[2] - 48) as nat;
        assert(t.drop_last() =~= seq![t[0], t[1]]);
        assert(t.drop_last().drop_last() =~= seq![t[0]]);
        assert(t.drop_last().drop_last().drop_last() =~= Seq::<u8>::empty());
        let n = ascii_value(t);
        assert(n == (d0 * 10 + d1) * 10 + d2);
        assert(100 <= n && n / 100 == d0 && (n / 10) % 10 == d1 && n % 10 == d2) by (nonlinear_arith)
            requires
                n == (d0 * 10 + d1) * 10 + d2,
                1 <= d0 <= 9,
                d1 <= 9,
                d2 <= 9,
        ;
        assert(octet_text(n as u8) =~= t);
    }
}

/// A run of `len` digits at `pos`, followed by the end or a non-digit, is
/// exactly the digit run there.
proof fn lemma_digit_run_exact(s: Seq<u8>, pos: nat, len: nat)
    requires
        pos + len <= s.len(),
        forall|i: int| pos <= i < pos + len ==> is_ascii_digit(#[trigger] s[i]),
        pos + len == s.len() || !is_ascii_digit(s[pos + len as int]),
    ensures
        digit_run(s, pos) == len,
    decreases len,
{
    if len > 0 {
        lemma_digit_run_exact(s, pos + 1, (len - 1) as nat);
    }
}

/// Reading an octet from text that starts with an octet's text, followed by
/// the end or a dot, gives that octet and stops right after its text.
proof fn lemma_read_octet_text(s: Seq<u8>, pos: nat, n: u8)
    requires
        pos + octet_text(n).len() <= s.len(),
        s.subrange(pos as int, pos + octet_text(n).len() as int) == octet_text(n),
        pos + octet_text(n).len() == s.len() || s[pos + octet_text(n).len() as int] == 46,
    ensures
        read_octet(s, pos) == Some((n, pos + octet_text(n).len())),
{
    let t = octet_text(n);
    lemma_octet_text_ok(n);
    assert forall|i: int| pos <= i < pos + t.len() implies is_ascii_digit(#[trigger] s[i]) by {
        assert(s[i] == t[i - pos]);
    }
    lemma_digit_run_exact(s, pos, t.len());
}

/// The dotted text of an address reads back as that address.
pub proof fn lemma_parse_dotted(ip: u32)
    ensures
        parse_ipv4_spec(dotted(ip)) == Some(ip),
{
    let (a, b, c, d) = octets(ip);
    let s = dotted(ip);
    let ta = octet_text(a);
    let tb = octet_text(b);
    let tc = octet_text(c);
    let td = octet_text(d);
    let p1 = ta.len();
    let p2 = p1 + 1 + tb.len();
    let p3 = p2 + 1 + tc.len();
    let p4 = p3 + 1 + td.len();
    assert(s.len() == p4);
    assert(s.subrange(0, p1 as int) =~= ta);
    assert(s[p1 as int] == 46);
    assert(s.subrange(p1 + 1 as int, p2 as int) =~= tb);
    assert(s[p2 as int] == 46);
    assert(s.subrange(p2 + 1 as int, p3 as int) =~= tc);
    assert(s[p3 as int] == 46);
    assert(s.subrange(p3 + 1 as int, p4 as int) =~= td);
    lemma_read_octet_text(s, 0, a);
    lemma_read_octet_text(s, (p1 + 1) as nat, b);
    lemma_read_octet_text(s, (p2 + 1) as nat, c);
    lemma_read_octet_text(s, (p3 + 1) as nat, d);
    lemma_from_octets_of_octets(ip);
}

/// What reads as an address is that address's dotted text.
pub proof fn lemma_parsed_is_dotted(s: Seq<u8>)
    requires
        parse_ipv4_spec(s) is Some,
    ensures
        dotted(parse_ipv4_spec(s)->0) == s,
{
    let (a, p1) = read_octet(s, 0)->0;
    let (b, p2) = read_dot_octet(s, p1)->0;
    let (c, p3) = read_dot_octet(s, p2)->0;
    let (d, p4) = read_dot_octet(s, p3)->0;
    let ta = s.subrange(0, p1 as int);
    let tb = s.subrange(p1 + 1 as int, p2 as int);
    let tc = s.subrange(p2 + 1 as int, p3 as int);
    let td = s.subrange(p3 + 1 as int, p4 as int);
    lemma_octet_ok_canonical(ta);
    lemma_octet_ok_canonical(tb);
    lemma_octet_ok_canonical(tc);
    lemma_octet_ok_canonical(td);
    lemma_octets_of_from_octets(a, b, c, d);
    assert(s =~= ta + seq![46u8] + tb + seq![46u8] + tc + seq![46u8] + td);
}

/// Distinct addresses have distinct dotted texts.
pub proof fn lemma_dotted_injective(ip1: u32, ip2: u32)
    requires
        dotted(ip1) == dotted(ip2),
    ensures
        ip1 == ip2,
{
    lemma_parse_dotted(ip1);
    lemma_parse_dotted(ip2);
}

} // verus!

verus! {

/// The octet read at `pos`, with where it ends, as plain numbers.
pub open spec fn same_read(r: Option<(u8, usize)>, s: Option<(u8, nat)>) -> bool {
    match (r, s) {
        (None, None) => true,
        (Some((a, p)), Some((b, q))) => a == b && p as nat == q,
        _ => false,
    }
}

fn digit_run_exec(s: &[u8], pos: usize) -> (r: usize)
    requires
        pos <= s@.len(),
    ensures
        r as nat == digit_run(s@, pos as nat),
        pos + r <= s@.len(),
{
    let mut i = pos;
    while i < s.len() && 48 <= s[i] && s[i] <= 57
        invariant
            pos <= i <= s@.len(),
            digit_run(s@, pos as nat) == (i - pos) + digit_run(s@, i as nat),
        decreases s@.len() - i,
    {
        i = i + 1;
    }
    i - pos
}

proof fn lemma_ascii_value_push(t: Seq<u8>, b: u8)
    ensures
        ascii_value(t.push(b)) == ascii_value(t) * 10 + ((b - 48) as nat),
{
    assert(t.push(b).drop_last() =~= t);
}

fn read_octet_exec(s: &[u8], pos: usize) -> (r: Option<(u8, usize)>)
    requires
        pos <= s@.len(),
    ensures
        same_read(r, read_octet(s@, pos as nat)),
        r matches Some((_, p)) ==> p <= s@.len(),
{
    let n = digit_run_exec(s, pos);
    let ghost t = s@.subrange(pos as int, pos + n as int);
    assert forall|i: int| 0 <= i < n implies is_ascii_digit(#[trigger] t[i]) by {
        lemma_digit_run_prefix(s@, pos as nat, i as nat);
    }
    if n < 1 || n > 3 {
        return None;
    }
    if n > 1 && s[pos] == 48 {
        return None;
    }
    let len = s.len();
    let mut v: u32 = 0;
    let mut k: usize = 0;
    while k < n
        invariant
            len == s@.len(),
            k <= n <= 3,
            pos + n <= s@.len(),
            t == s@.subrange(pos as int, pos + n as int),
            forall|i: int| 0 <= i < n ==> is_ascii_digit(#[trigger] t[i]),
            v as nat == ascii_value(t.take(k as int)),
            v < 1000,
            k == 0 ==> v == 0,
            k == 1 ==> v < 10,
            k == 2 ==> v < 100,
        decreases n - k,
    {
        let b = s[pos + k];
        assert(b == t[k as int]);
        assert(is_ascii_digit(t[k as int]));
        proof {
            lemma_ascii_value_push(t.take(k as int), b);
            assert(t.take(k + 1 as int) =~= t.take(k as int).push(b));
        }
        v = v * 10 + (b - 48) as u32;
        k = k + 1;
    }
    assert(t.take(n as int) =~= t);
    if v > 255 {
        return None;
    }
    Some((v as u8, pos + n))
}

proof fn lemma_digit_run_prefix(s: Seq<u8>, pos: nat, i: nat)
    requires
        i < digit_run(s, pos),
    ensures
        pos + i < s.len(),
        is_ascii_digit(s[pos + i as int]),
    decreases i,
{
    if i > 0 {
        lemma_digit_run_prefix(s, pos + 1, (i - 1) as nat);
    }
}

fn read_dot_octet_exec(s: &[u8], pos: usize) -> (r: Option<(u8, usize)>)
    requires
        pos <= s@.len(),
    ensures
        same_read(r, read_dot_octet(s@, pos as nat)),
        r matches Some((_, p)) ==> p <= s@.len(),
{
    if pos < s.len() && s[pos] == 46 {
        read_octet_exec(s, pos + 1)
    } else {
        None
    }
}

/// Reads dotted-decimal IPv4 text the way `Ipv4Addr`'s `FromStr` does: the
/// text of some address, and nothing else, reads as that address.
pub fn parse_ipv4(s: &[u8]) -> (r: Option<u32>)
    ensures
        r == parse_ipv4_spec(s@),
        r matches Some(ip) ==> dotted(ip) == s@,
        r is None ==> forall|ip: u32| dotted(ip) != s@,
{
    let r = match read_octet_exec(s, 0) {
        None => None,
        Some((a, p1)) => match read_dot_octet_exec(s, p1) {
            None => None,
            Some((b, p2)) => match read_dot_octet_exec(s, p2) {
                None => None,
                Some((c, p3)) => match read_dot_octet_exec(s, p3) {
                    None => None,
                    Some((d, p4)) => if p4 == s.len() {
                        Some(ipv4(a, b, c, d))
                    } else {
                        None
                    },
                },
            },
        },
    };
    proof {
        if r is Some {
            lemma_parsed_is_dotted(s@);
        } else {
            assert forall|ip: u32| dotted(ip) != s@ by {
                if dotted(ip) == s@ {
                    lemma_parse_dotted(ip);
                }
            }
        }
    }
    r
}

} // verus!
