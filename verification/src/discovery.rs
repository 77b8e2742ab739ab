//! Finding the room on the local network: the datagrams client and server
//! exchange, and the broadcast addresses they are sent to.

use vstd::prelude::*;

verus! {

/// Datagram sent by clients looking for a server: ASCII `discover`.
pub const DISCOVER_MESSAGE: [u8; 8] = [0x64, 0x69, 0x73, 0x63, 0x6f, 0x76, 0x65, 0x72];

/// Datagram sent by the server, as a beacon or a reply: ASCII `server`.
pub const SERVER_MESSAGE: [u8; 6] = [0x73, 0x65, 0x72, 0x76, 0x65, 0x72];

/// 255.255.255.255, the limited broadcast address.
pub const LIMITED_BROADCAST: u32 = 0xffff_ffff;

/// 127.0.0.1.
pub const LOCALHOST: u32 = 0x7f00_0001;

pub open spec fn discover_bytes() -> Seq<u8> {
    seq![0x64u8, 0x69u8, 0x73u8, 0x63u8, 0x6fu8, 0x76u8, 0x65u8, 0x72u8]
}

pub open spec fn server_bytes() -> Seq<u8> {
    seq![0x73u8, 0x65u8, 0x72u8, 0x76u8, 0x65u8, 0x72u8]
}

fn same_bytes(a: &[u8], b: &[u8]) -> (r: bool)
    ensures
        r == (a@ == b@),
{
    if a.len() != b.len() {
        return false;
    }
    let mut i: usize = 0;
    while i < a.len()
        invariant
            0 <= i <= a@.len(),
            a@.len() == b@.len(),
            forall|j: int| 0 <= j < i ==> a@[j] == b@[j],
        decreases a@.len() - i,
    {
        if a[i] != b[i] {
            return false;
        }
        i = i + 1;
    }
    assert(a@ =~= b@);
    true
}

/// Whether a datagram is a client's probe.
pub fn is_discovery_probe(datagram: &[u8]) -> (r: bool)
    ensures
        r == (datagram@ == discover_bytes()),
{
    let expected = DISCOVER_MESSAGE;
    assert(expected@ =~= discover_bytes());
    same_bytes(datagram, expected.as_slice())
}

/// Whether a datagram is the server's announcement.
pub fn is_server_reply(datagram: &[u8]) -> (r: bool)
    ensures
        r == (datagram@ == server_bytes()),
{
    let expected = SERVER_MESSAGE;
    assert(expected@ =~= server_bytes());
    same_bytes(datagram, expected.as_slice())
}

/// An IPv4 address and port to send discovery datagrams to.
#[derive(Clone, Copy, Debug, PartialEq, Eq, Hash, Structural)]
pub struct BroadcastTarget {
    pub ip: u32,
    pub port: u16,
}

/// The address of one network interface of this machine.
#[derive(Clone, Copy, Debug, PartialEq, Eq, Structural)]
pub enum InterfaceAddress {
    V4 { ip: u32, broadcast: Option<u32> },
    V6 { ip_v6: u128 },
}

/// Whether an interface is a loopback one (127.0.0.0/8 or ::1).
pub open spec fn is_loopback(a: InterfaceAddress) -> bool {
    match a {
        InterfaceAddress::V4 { ip, .. } => ip / 0x100_0000 == 127,
        InterfaceAddress::V6 { ip_v6 } => ip_v6 == 1,
    }
}

fn loopback(a: &InterfaceAddress) -> (r: bool)
    ensures
        r == is_loopback(*a),
{
    match a {
        InterfaceAddress::V4 { ip, .. } => *ip / 0x100_0000 == 127,
        InterfaceAddress::V6 { ip_v6 } => *ip_v6 == 1,
    }
}

/// The broadcast target an interface adds, if any: the directed broadcast
/// address of a non-loopback IPv4 interface that has one.
pub open spec fn interface_target(a: InterfaceAddress, port: u16) -> Option<BroadcastTarget> {
    if is_loopback(a) {
        None
    } else {
        match a {
            InterfaceAddress::V4 { broadcast: Some(b), .. } => Some(BroadcastTarget { ip: b, port }),
            _ => None,
        }
    }
}

/// Broadcast targets for a list of interfaces: the limited broadcast first,
/// then each interface's directed broadcast, each target once.
pub open spec fn targets_for(interfaces: Seq<InterfaceAddress>, port: u16) -> Seq<BroadcastTarget>
    decreases interfaces.len(),
{
    if interfaces.len() == 0 {
        seq![BroadcastTarget { ip: LIMITED_BROADCAST, port }]
    } else {
        let acc = targets_for(interfaces.drop_last(), port);
        match interface_target(interfaces.last(), port) {
            Some(t) => if acc.contains(t) {
                acc
            } else {
                acc.push(t)
            },
            None => acc,
        }
    }
}

/// The targets start with the limited broadcast, all use `port`, and none
/// occurs twice.
pub proof fn lemma_targets_well_formed(interfaces: Seq<InterfaceAddress>, port: u16)
    ensures
        targets_for(interfaces, port).len() >= 1,
        targets_for(interfaces, port)[0] == (BroadcastTarget { ip: LIMITED_BROADCAST, port }),
        forall|i: int|
            0 <= i < targets_for(interfaces, port).len() ==> (#[trigger] targets_for(
                interfaces,
                port,
            )[i]).port == port,
        targets_for(interfaces, port).no_duplicates(),
    decreases interfaces.len(),
{
    if interfaces.len() > 0 {
        lemma_targets_well_formed(interfaces.drop_last(), port);
        let acc = targets_for(interfaces.drop_last(), port);
        match interface_target(interfaces.last(), port) {
            Some(t) => {
                if !acc.contains(t) {
                    let r = acc.push(t);
                    assert forall|a: int, b: int|
                        0 <= a < r.len() && 0 <= b < r.len() && a != b implies r[a] != r[b] by {
                        if a == acc.len() {
                            assert(r[b] == acc[b]);
                        } else if b == acc.len() {
                            assert(r[a] == acc[a]);
                        }
                    }
                }
            },
            None => {},
        }
    }
}

fn contains_target(targets: &Vec<BroadcastTarget>, t: BroadcastTarget) -> (r: bool)
    ensures
        r == targets@.contains(t),
{
    let mut i: usize = 0;
    while i < targets.len()
        invariant
            0 <= i <= targets@.len(),
            forall|j: int| 0 <= j < i ==> targets@[j] != t,
        decreases targets@.len() - i,
    {
        if targets[i] == t {
            assert(targets@[i as int] == t);
            return true;
        }
        i = i + 1;
    }
    false
}

/// Broadcast targets for the given interfaces.
pub fn targets_from_interfaces(interfaces: &Vec<InterfaceAddress>, port: u16) -> (r: Vec<
    BroadcastTarget,
>)
    ensures
        r@ == targets_for(interfaces@, port),
{
    let mut targets: Vec<BroadcastTarget> = Vec::new();
    targets.push(BroadcastTarget { ip: LIMITED_BROADCAST, port });
    let mut i: usize = 0;
    while i < interfaces.len()
        invariant
            0 <= i <= interfaces@.len(),
            targets@ == targets_for(interfaces@.subrange(0, i as int), port),
        decreases interfaces@.len() - i,
    {
        let ghost prefix = interfaces@.subrange(0, i + 1);
        assert(prefix.drop_last() =~= interfaces@.subrange(0, i as int));
        let a = interfaces[i];
        if !loopback(&a) {
            match a {
                InterfaceAddress::V4 { broadcast: Some(b), .. } => {
                    let t = BroadcastTarget { ip: b, port };
                    if !contains_target(&targets, t) {
                        targets.push(t);
                    }
                },
                _ => {},
            }
        }
        i = i + 1;
    }
    assert(interfaces@.subrange(0, interfaces@.len() as int) =~= interfaces@);
    targets
}

/// `if_addrs::get_if_addrs`, each interface reduced to its address (and
/// broadcast address, for IPv4) as integers; `None` when the interfaces
/// cannot be listed. What this machine's interfaces are is not claimed.
#[verifier::external_body]
fn network_interfaces() -> (r: Option<Vec<InterfaceAddress>>) {
    if_addrs::get_if_addrs().ok().map(
        |list| {
            list.into_iter().map(|i| match i.addr {
                if_addrs::IfAddr::V4(v4) => InterfaceAddress::V4 {
                    ip: u32::from(v4.ip),
                    broadcast: v4.broadcast.map(u32::from),
                },
                if_addrs::IfAddr::V6(v6) => InterfaceAddress::V6 { ip_v6: u128::from(v6.ip) },
            }).collect()
        },
    )
}

/// Broadcast targets for server beacons and client probes: the limited
/// broadcast address, then the directed broadcast address of every
/// non-loopback IPv4 interface of this machine, each once, all on `port`.
/// When the interfaces cannot be listed, only the limited broadcast.
pub fn discovery_targets(port: u16) -> (r: Vec<BroadcastTarget>)
    ensures
        exists|interfaces: Seq<InterfaceAddress>| r@ == targets_for(interfaces, port),
        r@.len() >= 1,
        r@[0] == (BroadcastTarget { ip: LIMITED_BROADCAST, port }),
        forall|i: int| 0 <= i < r@.len() ==> (#[trigger] r@[i]).port == port,
        r@.no_duplicates(),
{
    let none: Vec<InterfaceAddress> = Vec::new();
    let r = match network_interfaces() {
        Some(list) => targets_from_interfaces(&list, port),
        None => targets_from_interfaces(&none, port),
    };
    proof {
        let ifs = choose|ifs: Seq<InterfaceAddress>| r@ == targets_for(ifs, port);
        lemma_targets_well_formed(ifs, port);
    }
    r
}

/// Where a client sends its probes and a server its beacons: the discovery
/// targets, then this machine's loopback address (a broadcast does not
/// reliably reach a socket on the same host).
pub fn announcement_targets(port: u16) -> (r: Vec<BroadcastTarget>)
    ensures
        exists|interfaces: Seq<InterfaceAddress>|
            r@ == targets_for(interfaces, port).push(BroadcastTarget { ip: LOCALHOST, port }),
{
    let mut targets = discovery_targets(port);
    targets.push(BroadcastTarget { ip: LOCALHOST, port });
    targets
}

} // verus!
