//! Subnets, and the choice of one egress address per listener.

use rand::rngs::ThreadRng;
use vstd::prelude::*;

verus! {

/// The thread-local random number generator of the `rand` crate. Nothing is
/// known of its state.
#[verifier::external_type_specification]
#[verifier::external_body]
pub struct ExThreadRng(rand::rngs::ThreadRng);

/// What `<cidr::Ipv6Cidr as FromStr>::from_str` makes of a literal: the
/// octets of the network's first address and its prefix length, or nothing
/// where the literal is turned down.
pub uninterp spec fn cidr_literal(s: Seq<char>) -> Option<(Seq<u8>, u8)>;

/// Parses an IPv6 network with `str::parse::<cidr::Ipv6Cidr>` and reads the
/// result with `first_address` and `network_length`. Believed, not proved:
/// the outcome is the one named by `cidr_literal`, and an accepted network
/// has a prefix of at most 128 bits (the crate's constructors refuse a
/// longer one, and a literal without `/` gets exactly 128).
#[verifier::external_body]
fn parse_ipv6_cidr(s: &str) -> (r: Option<([u8; 16], u8)>)
    ensures
        match r {
            Some(p) => cidr_literal(s@) == Some((p.0@, p.1)) && p.1 <= 128,
            None => cidr_literal(s@) is None,
        },
{
    match s.parse::<cidr::Ipv6Cidr>() {
        Ok(c) => Some((c.first_address().octets(), c.network_length())),
        Err(_) => None,
    }
}

/// Draws one octet with `rand::Rng::gen` on the thread-local generator.
/// Nothing is claimed of the octet.
#[verifier::external_body]
fn draw_octet(rng: &mut ThreadRng) -> (r: u8) {
    rand::Rng::gen(rng)
}

/// Number of bits in an IPv6 address.
pub const ADDRESS_BITS: u8 = 128;

/// Bit `k` of an octet, counted from the most significant one.
pub open spec fn bit_of(b: u8, k: u8) -> bool {
    b & (0x80u8 >> k) != 0u8
}

/// Bit `i` of an address, counted from the front of the first octet.
pub open spec fn bit_at(a: Seq<u8>, i: int) -> bool {
    bit_of(a[i / 8], (i % 8) as u8)
}

/// Two addresses agree on their first `n` bits.
pub open spec fn same_prefix(a: Seq<u8>, b: Seq<u8>, n: int) -> bool {
    forall|i: int| 0 <= i < n ==> bit_at(a, i) == bit_at(b, i)
}

/// How many leading bits of octet `j` belong to a prefix of `n` bits.
pub open spec fn kept_bits(n: int, j: int) -> int {
    if n <= 8 * j {
        0
    } else if n >= 8 * j + 8 {
        8
    } else {
        n - 8 * j
    }
}

/// Octet whose leading `keep` bits are set and whose other bits are clear.
pub open spec fn prefix_mask(keep: u8) -> u8 {
    if keep == 0 {
        0u8
    } else {
        0xFFu8 << ((8u8 - keep) as u8)
    }
}

/// The leading `keep` bits of `net` followed by the remaining bits of `noise`.
pub open spec fn blend(net: u8, noise: u8, keep: u8) -> u8 {
    (net & prefix_mask(keep)) | (noise & !prefix_mask(keep))
}

/// Each bit of a blended octet comes from `net` inside the kept part and from
/// `noise` outside it.
pub proof fn lemma_blend_bits(net: u8, noise: u8, keep: u8, k: u8)
    requires
        keep <= 8,
        k < 8,
    ensures
        bit_of(blend(net, noise, keep), k) == (if k < keep {
            bit_of(net, k)
        } else {
            bit_of(noise, k)
        }),
{
    let m = prefix_mask(keep);
    let r = blend(net, noise, keep);
    assert((r & (0x80u8 >> k) != 0u8) == (if k < keep {
        net & (0x80u8 >> k) != 0u8
    } else {
        noise & (0x80u8 >> k) != 0u8
    })) by (bit_vector)
        requires
            keep <= 8,
            k < 8,
            m == (if keep == 0 {
                0u8
            } else {
                0xFFu8 << ((8u8 - keep) as u8)
            }),
            r == (net & m) | (noise & !m),
    ;
}

fn blend_octet(net: u8, noise: u8, keep: u8) -> (r: u8)
    requires
        keep <= 8,
    ensures
        r == blend(net, noise, keep),
{
    let mask: u8 = if keep == 0 {
        0u8
    } else {
        0xFFu8 << (8u8 - keep)
    };
    (net & mask) | (noise & !mask)
}

fn kept_in_octet(prefix_len: u8, j: usize) -> (keep: u8)
    requires
        prefix_len <= 128,
        j < 16,
    ensures
        keep == kept_bits(prefix_len as int, j as int),
{
    let start: usize = 8 * j;
    let n: usize = prefix_len as usize;
    if n <= start {
        0
    } else if n >= start + 8 {
        8
    } else {
        (n - start) as u8
    }
}

/// Why a configuration value was turned down.
#[derive(Clone, Copy, Debug, PartialEq, Eq, Structural)]
pub enum ConfigError {
    /// The subnet is not an IPv6 network in CIDR notation, or its prefix is
    /// longer than an address.
    InvalidSubnet,
}

/// What a subnet stands for: the octets of its first address and the number
/// of leading bits that every address in it shares.
pub struct SubnetModel {
    pub network: Seq<u8>,
    pub prefix_len: int,
}

/// An IPv6 network: its first address and its prefix length.
#[derive(Clone, Copy, Debug)]
pub struct Subnet {
    octets: [u8; 16],
    prefix_len: u8,
}

impl View for Subnet {
    type V = SubnetModel;

    closed spec fn view(&self) -> SubnetModel {
        SubnetModel { network: self.octets@, prefix_len: self.prefix_len as int }
    }
}

impl Subnet {
    /// A prefix never has more bits than an address.
    #[verifier::type_invariant]
    closed spec fn wf(&self) -> bool {
        self.prefix_len <= 128
    }

    /// The subnet with the given first address and prefix length, unless the
    /// prefix is longer than 128 bits.
    pub fn from_parts(octets: [u8; 16], prefix_len: u8) -> (r: Result<Subnet, ConfigError>)
        ensures
            prefix_len <= 128 ==> r.is_ok() && r.unwrap()@ == (SubnetModel {
                network: octets@,
                prefix_len: prefix_len as int,
            }),
            prefix_len > 128 ==> r == Err::<Subnet, ConfigError>(ConfigError::InvalidSubnet),
    {
        if prefix_len > ADDRESS_BITS {
            Err(ConfigError::InvalidSubnet)
        } else {
            Ok(Subnet { octets, prefix_len })
        }
    }

    /// The subnet written as `s` in CIDR notation, as the `cidr` crate reads
    /// IPv6 networks; any other text is an invalid subnet.
    pub fn parse(s: &str) -> (r: Result<Subnet, ConfigError>)
        ensures
            match cidr_literal(s@) {
                Some(p) => r.is_ok() && r.unwrap()@ == (SubnetModel {
                    network: p.0,
                    prefix_len: p.1 as int,
                }),
                None => r == Err::<Subnet, ConfigError>(ConfigError::InvalidSubnet),
            },
    {
        match parse_ipv6_cidr(s) {
            Some((octets, prefix_len)) => Subnet::from_parts(octets, prefix_len),
            None => Err(ConfigError::InvalidSubnet),
        }
    }

    /// The first address of the network.
    pub fn network(&self) -> (r: [u8; 16])
        ensures
            r@ == self@.network,
    {
        self.octets
    }

    /// The number of leading bits shared by all addresses of the network.
    pub fn prefix_len(&self) -> (r: u8)
        ensures
            r == self@.prefix_len,
            r <= 128,
    {
        proof {
            use_type_invariant(self);
        }
        self.prefix_len
    }
}

/// The address that takes its first `prefix_len` bits from the subnet and
/// all later bits from `noise`.
pub fn fill_host_bits(subnet: &Subnet, noise: &[u8; 16]) -> (r: [u8; 16])
    ensures
        forall|i: int|
            0 <= i < 128 ==> #[trigger] bit_at(r@, i) == (if i < subnet@.prefix_len {
                bit_at(subnet@.network, i)
            } else {
                bit_at(noise@, i)
            }),
        same_prefix(r@, subnet@.network, subnet@.prefix_len),
{
    let network = subnet.network();
    let prefix_len = subnet.prefix_len();
    let mut out: [u8; 16] = network;
    let mut j: usize = 0;
    while j < 16
        invariant
            j <= 16,
            prefix_len <= 128,
            forall|q: int|
                0 <= q < j ==> #[trigger] out@[q] == blend(
                    network@[q],
                    noise@[q],
                    kept_bits(prefix_len as int, q) as u8,
                ),
        decreases 16 - j,
    {
        let keep = kept_in_octet(prefix_len, j);
        out[j] = blend_octet(network[j], noise[j], keep);
        j += 1;
    }
    proof {
        assert forall|i: int| 0 <= i < 128 implies #[trigger] bit_at(out@, i) == (if i
            < prefix_len as int {
            bit_at(network@, i)
        } else {
            bit_at(noise@, i)
        }) by {
            let q = i / 8;
            let k = (i % 8) as u8;
            let keep = kept_bits(prefix_len as int, q) as u8;
            lemma_blend_bits(network@[q], noise@[q], keep, k);
            assert(out@[q] == blend(network@[q], noise@[q], keep));
            assert((k < keep) == (i < prefix_len as int));
        }
    }
    out
}

/// A fresh address inside the subnet: its network bits are the subnet's, its
/// host bits are drawn at random, one octet at a time from the first octet
/// that holds a host bit.
pub fn generate_ipv6(subnet: &Subnet, rng: &mut ThreadRng) -> (r: [u8; 16])
    ensures
        same_prefix(r@, subnet@.network, subnet@.prefix_len),
{
    let mut noise: [u8; 16] = subnet.network();
    let mut j: usize = (subnet.prefix_len() / 8) as usize;
    while j < 16
        decreases 16 - j,
    {
        noise[j] = draw_octet(rng);
        j += 1;
    }
    fill_host_bits(subnet, &noise)
}

/// An IPv4 or IPv6 host address, as octets in network order.
#[derive(Clone, Copy, Debug, PartialEq, Eq)]
pub enum HostAddress {
    V4([u8; 4]),
    V6([u8; 16]),
}

/// Where a listener accepts its clients.
#[derive(Clone, Copy, Debug, PartialEq, Eq)]
pub struct BindAddress {
    pub ip: HostAddress,
    pub port: u16,
}

/// What a listener is started with and keeps for its lifetime: where it
/// listens, the address its outbound connections come from, and the prefix
/// length of the subnet that address was taken from.
#[derive(Clone, Copy, Debug, PartialEq, Eq)]
pub struct ListenerConfig {
    pub bind: BindAddress,
    pub egress: [u8; 16],
    pub prefix_len: u8,
}

/// One listener configuration per bind address, in the same order, each
/// with an egress address of its own inside the subnet.
pub fn assign_addresses(subnet: &Subnet, binds: &Vec<BindAddress>, rng: &mut ThreadRng) -> (r: Vec<
    ListenerConfig,
>)
    ensures
        r@.len() == binds@.len(),
        forall|i: int|
            0 <= i < r@.len() ==> {
                &&& (#[trigger] r@[i]).bind == binds@[i]
                &&& r@[i].prefix_len == subnet@.prefix_len
                &&& same_prefix(r@[i].egress@, subnet@.network, subnet@.prefix_len)
            },
{
    let mut configs: Vec<ListenerConfig> = Vec::new();
    let mut i: usize = 0;
    while i < binds.len()
        invariant
            i <= binds@.len(),
            configs@.len() == i,
            forall|q: int|
                0 <= q < i ==> {
                    &&& (#[trigger] configs@[q]).bind == binds@[q]
                    &&& configs@[q].prefix_len == subnet@.prefix_len
                    &&& same_prefix(configs@[q].egress@, subnet@.network, subnet@.prefix_len)
                },
        decreases binds@.len() - i,
    {
        let egress = generate_ipv6(subnet, rng);
        configs.push(ListenerConfig { bind: binds[i], egress, prefix_len: subnet.prefix_len() });
        i += 1;
    }
    configs
}

} // verus!
