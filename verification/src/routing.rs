//! Which addresses go through the tunnel, and the routes that send them there.

use vstd::prelude::*;
use vstd::string::StringExecFns;
use crate::bytes::{self, u32_from_be};
use crate::text::{self, push_ip};

verus! {

/// Whether an address is one of a game server: 210.242.x.x, 216.107.244.x or
/// 216.107.253.x.
pub open spec fn is_game_address(ip: Seq<u8>) -> bool {
    ||| ip[0] == 210 && ip[1] == 242
    ||| ip[0] == 216 && ip[1] == 107 && ip[2] == 244
    ||| ip[0] == 216 && ip[1] == 107 && ip[2] == 253
}

/// The number whose first `prefix` bits are ones and whose others are zeros.
pub open spec fn prefix_mask(prefix: u32) -> u32 {
    if prefix == 0 {
        0
    } else {
        0xffff_ffffu32 << ((32 - prefix) as u32)
    }
}

/// Whether two addresses agree in their first `prefix` bits.
pub open spec fn same_prefix(a: u32, b: u32, prefix: u32) -> bool {
    a & prefix_mask(prefix) == b & prefix_mask(prefix)
}

fn shares_prefix(a: u32, b: u32, prefix: u32) -> (r: bool)
    requires
        prefix <= 32,
    ensures
        r == same_prefix(a, b, prefix),
{
    let mask: u32 = if prefix == 0 {
        0
    } else {
        0xffff_ffffu32 << (32 - prefix)
    };
    (a & mask) == (b & mask)
}

/// The ranges of game addresses: an address of each, and how many bits of it
/// count.
fn game_subnets() -> (subnets: [([u8; 4], u32); 3])
    ensures
        subnets@ =~= seq![
            ([210u8, 242u8, 0u8, 0u8], 16u32),
            ([216u8, 107u8, 244u8, 0u8], 24u32),
            ([216u8, 107u8, 253u8, 0u8], 24u32),
        ],
{
    [
        ([210, 242, 0, 0], 16),  // HiNet game servers
        ([216, 107, 244, 0], 24),  // NCSOFT auth
        ([216, 107, 253, 0], 24),  // NCSOFT auth
    ]
}

proof fn lemma_prefix_16(a: u32, b: u32)
    ensures
        same_prefix(a, b, 16) <==> a / 0x1_0000 == b / 0x1_0000,
{
    assert(a & (0xffff_ffffu32 << 16u32) == b & (0xffff_ffffu32 << 16u32) <==> a / 0x1_0000 == b
        / 0x1_0000) by (bit_vector);
}

proof fn lemma_prefix_24(a: u32, b: u32)
    ensures
        same_prefix(a, b, 24) <==> a / 0x100 == b / 0x100,
{
    assert(a & (0xffff_ffffu32 << 8u32) == b & (0xffff_ffffu32 << 8u32) <==> a / 0x100 == b
        / 0x100) by (bit_vector);
}

/// Whether an address is routed through the tunnel.
pub fn is_game_ip(ip: [u8; 4]) -> (r: bool)
    ensures
        r == is_game_address(ip@),
{
    let subnets: [([u8; 4], u32); 3] = game_subnets();
    let addr: u32 = u32_from_be(&ip);
    let mut i: usize = 0;
    while i < 3
        invariant
            0 <= i <= 3,
            addr == bytes::from_be32(ip@),
            subnets@ =~= seq![
                ([210u8, 242u8, 0u8, 0u8], 16u32),
                ([216u8, 107u8, 244u8, 0u8], 24u32),
                ([216u8, 107u8, 253u8, 0u8], 24u32),
            ],
            i >= 1 ==> !(ip@[0] == 210 && ip@[1] == 242),
            i >= 2 ==> !(ip@[0] == 216 && ip@[1] == 107 && ip@[2] == 244),
            i >= 3 ==> !(ip@[0] == 216 && ip@[1] == 107 && ip@[2] == 253),
        decreases 3 - i,
    {
        let (network, prefix): ([u8; 4], u32) = subnets[i];
        let base: u32 = u32_from_be(&network);
        proof {
            assert((network, prefix) == subnets@[i as int]);
            lemma_prefix_16(addr, base);
            lemma_prefix_24(addr, base);
        }
        if shares_prefix(addr, base, prefix) {
            return true;
        }
        i = i + 1;
    }
    false
}

/// A range of addresses that the capturing adapter gets.
#[derive(Debug, Clone, Copy, PartialEq, Eq)]
pub struct Route {
    pub network: [u8; 4],
    pub mask: [u8; 4],
}

impl Route {
    /// Whether an address belongs to the range.
    pub open spec fn covers(self, ip: Seq<u8>) -> bool {
        forall|i: int| 0 <= i < 4 ==> #[trigger] ip[i] & self.mask@[i] == self.network@[i]
    }
}

/// The routes for the game's address ranges.
pub open spec fn route_list() -> Seq<Route> {
    seq![
        Route { network: [210, 242, 0, 0], mask: [255, 255, 0, 0] },
        Route { network: [216, 107, 244, 0], mask: [255, 255, 255, 0] },
        Route { network: [216, 107, 253, 0], mask: [255, 255, 255, 0] },
    ]
}

/// The routes that are added for the game's address ranges.
pub fn game_routes() -> (routes: Vec<Route>)
    ensures
        routes@ == route_list(),
{
    let mut routes: Vec<Route> = Vec::new();
    routes.push(Route { network: [210, 242, 0, 0], mask: [255, 255, 0, 0] });  // HiNet game servers
    routes.push(Route { network: [216, 107, 244, 0], mask: [255, 255, 255, 0] });  // NCSOFT auth
    routes.push(Route { network: [216, 107, 253, 0], mask: [255, 255, 255, 0] });  // NCSOFT auth
    assert(routes@ =~= route_list());
    routes
}

/// The routes cover the addresses that the tunnel takes, and no others.
pub proof fn lemma_routes_cover_game_addresses(ip: Seq<u8>)
    requires
        ip.len() == 4,
    ensures
        is_game_address(ip) <==> exists|i: int|
            0 <= i < route_list().len() && #[trigger] route_list()[i].covers(ip),
{
    let routes = route_list();
    assert forall|x: u8| #![trigger x & 255] x & 255 == x by {
        assert(x & 255 == x) by (bit_vector);
    }
    assert forall|x: u8| #![trigger x & 0] x & 0 == 0 by {
        assert(x & 0 == 0) by (bit_vector);
    }
    assert(routes[0].covers(ip) <==> ip[0] == 210 && ip[1] == 242) by {
        lemma_covers(routes[0], ip);
    }
    assert(routes[1].covers(ip) <==> ip[0] == 216 && ip[1] == 107 && ip[2] == 244) by {
        lemma_covers(routes[1], ip);
    }
    assert(routes[2].covers(ip) <==> ip[0] == 216 && ip[1] == 107 && ip[2] == 253) by {
        lemma_covers(routes[2], ip);
    }
}

proof fn lemma_covers(route: Route, ip: Seq<u8>)
    requires
        ip.len() == 4,
    ensures
        route.covers(ip) <==> {
            &&& ip[0] & route.mask@[0] == route.network@[0]
            &&& ip[1] & route.mask@[1] == route.network@[1]
            &&& ip[2] & route.mask@[2] == route.network@[2]
            &&& ip[3] & route.mask@[3] == route.network@[3]
        },
{
}

/// The arguments of the system command that adds a route.
pub open spec fn route_words(route: Route) -> Seq<Seq<char>> {
    seq![
        "add"@,
        text::ip_text(route.network@),
        "mask"@,
        text::ip_text(route.mask@),
        "10.200.0.1"@,
        "metric"@,
        "5"@,
    ]
}

/// The arguments of the system command that adds a route through the adapter.
pub fn route_args(route: &Route) -> (args: Vec<String>)
    ensures
        text::texts(args@) == route_words(*route),
{
    let mut network = String::new();
    push_ip(&mut network, &route.network);
    let mut mask = String::new();
    push_ip(&mut mask, &route.mask);
    let mut args: Vec<String> = Vec::new();
    args.push("add".to_owned());
    args.push(network);
    args.push("mask".to_owned());
    args.push(mask);
    args.push("10.200.0.1".to_owned());
    args.push("metric".to_owned());
    args.push("5".to_owned());
    proof {
        assert(Seq::<char>::empty() + text::ip_text(route.network@) =~= text::ip_text(
            route.network@,
        ));
        assert(Seq::<char>::empty() + text::ip_text(route.mask@) =~= text::ip_text(route.mask@));
        assert(text::texts(args@) =~= route_words(*route));
    }
    args
}

/// The arguments of the system command that gives the adapter an address.
pub open spec fn adapter_words(ip: Seq<char>, mask: Seq<char>) -> Seq<Seq<char>> {
    seq![
        "interface"@,
        "ip"@,
        "set"@,
        "address"@,
        "name=Aion2Proxy"@,
        "source=static"@,
        "addr="@ + ip,
        "mask="@ + mask,
    ]
}

/// The arguments of the system command that gives the adapter an address.
pub fn adapter_args(ip: &str, mask: &str) -> (args: Vec<String>)
    ensures
        text::texts(args@) == adapter_words(ip@, mask@),
{
    let mut addr_word = "addr=".to_owned();
    addr_word.append(ip);
    let mut mask_word = "mask=".to_owned();
    mask_word.append(mask);
    let mut args: Vec<String> = Vec::new();
    args.push("interface".to_owned());
    args.push("ip".to_owned());
    args.push("set".to_owned());
    args.push("address".to_owned());
    args.push("name=Aion2Proxy".to_owned());
    args.push("source=static".to_owned());
    args.push(addr_word);
    args.push(mask_word);
    assert(text::texts(args@) =~= adapter_words(ip@, mask@));
    args
}

/// The game's addresses are, as numbers, those of three ranges: of 2^16, of 256 and
/// of 256 addresses.
pub proof fn lemma_game_ranges(ip: Seq<u8>)
    requires
        ip.len() == 4,
    ensures
        is_game_address(ip) <==> {
            let n = 0x100_0000 * ip[0] + 0x1_0000 * ip[1] + 0x100 * ip[2] + ip[3];
            ||| 0xD2F2_0000 <= n <= 0xD2F2_FFFF
            ||| 0xD86B_F400 <= n <= 0xD86B_F4FF
            ||| 0xD86B_FD00 <= n <= 0xD86B_FDFF
        },
{
}

} // verus!
