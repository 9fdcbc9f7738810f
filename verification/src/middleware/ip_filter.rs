//! Client address filtering by single addresses and networks.

use vstd::prelude::*;
use vstd::arithmetic::power2::pow2;
use vstd::bits::{lemma_u32_shr_is_div, lemma_u128_shr_is_div};

verus! {

/// An IP address, as its number: 32 bits for IPv4, 128 for IPv6.
#[derive(Clone, Copy, Debug, PartialEq, Eq, Structural)]
pub enum IpAddress {
    V4(u32),
    V6(u128),
}

/// A network: an address and the length of its prefix.
#[derive(Clone, Copy, Debug, PartialEq, Eq, Structural)]
pub struct IpNetwork {
    pub addr: IpAddress,
    pub prefix_len: u8,
}

/// What `ipnet`'s parser (`IpNet::from_str`) makes of `s`: a network, or
/// nothing when `s` is not one.
pub uninterp spec fn ipnet_parse(s: Seq<char>) -> Option<IpNetwork>;

/// Reads `s` as a network with `ipnet` (`"10.0.0.0/24"`, `"fd00::/8"`).
/// What it accepts is `ipnet_parse`; a network it gives has a prefix no
/// longer than its address.
#[verifier::external_body]
fn parse_network(s: &str) -> (r: Option<IpNetwork>)
    ensures
        r == ipnet_parse(s@),
        r matches Some(n) ==> match n.addr {
            IpAddress::V4(_) => n.prefix_len <= 32,
            IpAddress::V6(_) => n.prefix_len <= 128,
        },
{
    match s.parse::<ipnet::IpNet>() {
        Ok(ipnet::IpNet::V4(n)) => Some(IpNetwork { addr: IpAddress::V4(u32::from(n.addr())), prefix_len: n.prefix_len() }),
        Ok(ipnet::IpNet::V6(n)) => Some(IpNetwork { addr: IpAddress::V6(u128::from(n.addr())), prefix_len: n.prefix_len() }),
        Err(_) => None,
    }
}

/// Whether `ip` lies in `net`: the same family, and the same first
/// `prefix_len` bits (what `IpNet::contains` checks).
pub open spec fn net_contains(net: IpNetwork, ip: IpAddress) -> bool {
    match (net.addr, ip) {
        (IpAddress::V4(a), IpAddress::V4(x)) => net.prefix_len == 0 || (net.prefix_len <= 32 && (a
            >> ((32 - net.prefix_len) as u32)) == (x >> ((32 - net.prefix_len) as u32))),
        (IpAddress::V6(a), IpAddress::V6(x)) => net.prefix_len == 0 || (net.prefix_len <= 128 && (a
            >> ((128 - net.prefix_len) as u32)) == (x >> ((128 - net.prefix_len) as u32))),
        _ => false,
    }
}

/// Whether `ip` lies in `net`, as `net_contains` says.
pub fn network_contains(net: &IpNetwork, ip: &IpAddress) -> (b: bool)
    ensures
        b == net_contains(*net, *ip),
{
    let p = net.prefix_len;
    match (net.addr, *ip) {
        (IpAddress::V4(a), IpAddress::V4(x)) => p == 0 || (p <= 32 && (a >> ((32 - p) as u32)) == (x >> ((32 - p) as u32))),
        (IpAddress::V6(a), IpAddress::V6(x)) => p == 0 || (p <= 128 && (a >> ((128 - p) as u32)) == (x >> ((128 - p) as u32))),
        _ => false,
    }
}

/// Whether the rules let matching addresses in or keep them out.
#[derive(Clone, Copy, Debug, PartialEq, Eq, Structural)]
pub enum IpFilterMode {
    Whitelist,
    Blacklist,
}

/// Settings of the filter.
#[derive(Clone, Debug)]
pub struct IpFilterConfig {
    pub mode: IpFilterMode,
    /// Addresses or networks (`a.b.c.d/n`).
    pub rules: Vec<String>,
}

/// Whether `ip` matches: it is one of the addresses or lies in one of the
/// networks.
pub open spec fn ip_matches_spec(exact: Seq<IpAddress>, nets: Seq<IpNetwork>, ip: IpAddress) -> bool {
    exact.contains(ip) || exists|i: int| 0 <= i < nets.len() && net_contains(#[trigger] nets[i], ip)
}

/// The networks, then the addresses, that the rules `rules[..k]` stand for:
/// a rule that reads as a network is one; else one that reads as an address
/// (`addrs[i]`, read by the caller) is one; others are dropped.
pub open spec fn rules_spec(rules: Seq<Seq<char>>, addrs: Seq<Option<IpAddress>>, k: nat) -> (Seq<IpNetwork>, Seq<IpAddress>)
    decreases k,
{
    if k == 0 {
        (Seq::empty(), Seq::empty())
    } else {
        let (n, e) = rules_spec(rules, addrs, (k - 1) as nat);
        match ipnet_parse(rules[k - 1]) {
            Some(net) => (n.push(net), e),
            None => match addrs[k - 1] {
                Some(a) => (n, e.push(a)),
                None => (n, e),
            },
        }
    }
}

/// The filter.
pub struct IpFilterMiddleware {
    mode: IpFilterMode,
    networks: Vec<IpNetwork>,
    exact_ips: Vec<IpAddress>,
}

impl IpFilterMiddleware {
    /// The mode.
    pub closed spec fn mode_spec(&self) -> IpFilterMode {
        self.mode
    }

    /// The networks.
    pub closed spec fn networks_spec(&self) -> Seq<IpNetwork> {
        self.networks@
    }

    /// The single addresses.
    pub closed spec fn exact_spec(&self) -> Seq<IpAddress> {
        self.exact_ips@
    }

    /// A filter from the rules, as `rules_spec` says; `addresses[i]` is rule
    /// `i` read as an IP address, when it reads as one.
    pub fn new(config: IpFilterConfig, addresses: &Vec<Option<IpAddress>>) -> (m: Self)
        requires
            addresses@.len() == config.rules@.len(),
        ensures
            m.mode_spec() == config.mode,
            (m.networks_spec(), m.exact_spec()) == rules_spec(
                Seq::new(config.rules@.len(), |i: int| config.rules@[i]@),
                addresses@,
                config.rules@.len(),
            ),
    {
        let ghost rv = Seq::new(config.rules@.len(), |i: int| config.rules@[i]@);
        let mut networks: Vec<IpNetwork> = Vec::new();
        let mut exact_ips: Vec<IpAddress> = Vec::new();
        let mut i: usize = 0;
        while i < config.rules.len()
            invariant
                i <= config.rules@.len(),
                addresses@.len() == config.rules@.len(),
                rv == Seq::new(config.rules@.len(), |i: int| config.rules@[i]@),
                (networks@, exact_ips@) == rules_spec(rv, addresses@, i as nat),
            decreases config.rules@.len() - i,
        {
            match parse_network(config.rules[i].as_str()) {
                Some(net) => networks.push(net),
                None => match addresses[i] {
                    Some(a) => exact_ips.push(a),
                    None => {},
                },
            }
            i = i + 1;
        }
        IpFilterMiddleware { mode: config.mode, networks, exact_ips }
    }

    /// The middleware's name.
    pub fn name(&self) -> (n: &'static str)
        ensures
            n@ == "ip_filter"@,
    {
        proof {
            reveal_strlit("ip_filter");
        }
        "ip_filter"
    }

    /// Its place in the chain: very early.
    pub fn priority(&self) -> (p: i32)
        ensures
            p == 99,
    {
        99
    }

    /// Whether `ip` matches a rule, as `ip_matches_spec` says.
    pub fn ip_matches(&self, ip: &IpAddress) -> (b: bool)
        ensures
            b == ip_matches_spec(self.exact_spec(), self.networks_spec(), *ip),
    {
        let mut i: usize = 0;
        while i < self.exact_ips.len()
            invariant
                i <= self.exact_ips@.len(),
                forall|j: int| 0 <= j < i ==> self.exact_ips@[j] != *ip,
            decreases self.exact_ips@.len() - i,
        {
            if self.exact_ips[i] == *ip {
                proof {
                    assert(self.exact_ips@[i as int] == *ip);
                }
                return true;
            }
            i = i + 1;
        }
        let mut k: usize = 0;
        while k < self.networks.len()
            invariant
                k <= self.networks@.len(),
                !self.exact_ips@.contains(*ip),
                forall|j: int| 0 <= j < k ==> !net_contains(#[trigger] self.networks@[j], *ip),
            decreases self.networks@.len() - k,
        {
            if network_contains(&self.networks[k], ip) {
                return true;
            }
            k = k + 1;
        }
        false
    }

    /// Whether a client at `ip` is let through: a whitelist lets matching
    /// addresses in, a blacklist keeps them out.
    pub fn is_allowed(&self, ip: &IpAddress) -> (b: bool)
        ensures
            b == match self.mode_spec() {
                IpFilterMode::Whitelist => ip_matches_spec(self.exact_spec(), self.networks_spec(), *ip),
                IpFilterMode::Blacklist => !ip_matches_spec(self.exact_spec(), self.networks_spec(), *ip),
            },
    {
        let matched = self.ip_matches(ip);
        match self.mode {
            IpFilterMode::Whitelist => matched,
            IpFilterMode::Blacklist => !matched,
        }
    }
}


/// An IPv4 network of prefix length `p` (0 < p <= 32) holds exactly the
/// addresses that share its first `p` bits: those in the same aligned block
/// of 2^(32-p) consecutive addresses as the network's own address.
pub proof fn law_v4_network_is_aligned_block(a: u32, p: u8, x: u32)
    requires
        0 < p <= 32,
    ensures
        net_contains(IpNetwork { addr: IpAddress::V4(a), prefix_len: p }, IpAddress::V4(x)) <==> a as nat
            / pow2((32 - p) as nat) == x as nat / pow2((32 - p) as nat),
{
    let k: u32 = (32 - p) as u32;
    lemma_u32_shr_is_div(a, k);
    lemma_u32_shr_is_div(x, k);
}

/// An IPv6 network of prefix length `p` (0 < p <= 128) holds exactly the
/// addresses that share its first `p` bits: those in the same aligned block
/// of 2^(128-p) consecutive addresses as the network's own address.
pub proof fn law_v6_network_is_aligned_block(a: u128, p: u8, x: u128)
    requires
        0 < p <= 128,
    ensures
        net_contains(IpNetwork { addr: IpAddress::V6(a), prefix_len: p }, IpAddress::V6(x)) <==> a as nat
            / pow2((128 - p) as nat) == x as nat / pow2((128 - p) as nat),
{
    let k: u128 = (128 - p) as u128;
    lemma_u128_shr_is_div(a, k);
    lemma_u128_shr_is_div(x, k);
}

/// A network holds its own address, and never an address of the other
/// family.
pub proof fn law_network_holds_own_family_only(net: IpNetwork, x: IpAddress)
    ensures
        net.prefix_len <= 128 && (net.addr is V4 ==> net.prefix_len <= 32) ==> net_contains(net, net.addr),
        (net.addr is V4) != (x is V4) ==> !net_contains(net, x),
{
}

} // verus!
