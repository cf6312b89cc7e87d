//! Attributing new connections to their sources, with a bounded number of
//! labels.
use std::collections::hash_map::DefaultHasher;
use std::hash::Hasher;
use vstd::prelude::*;
use vstd::std_specs::hash::*;

use crate::net::{IpAddr, SocketAddr};
use crate::text;

verus! {

/// The number of labels. Sources share them, so that no traffic makes more.
pub const PER_SOURCE_BUCKETS: usize = 256;

/// The part of an address that its label depends on: 24 bits of an IPv4
/// address, 48 bits of an IPv6 address, followed by zeros.
pub open spec fn masked_octets(ip: IpAddr) -> Seq<u8> {
    match ip {
        IpAddr::V4(bits) => seq![
            (bits as int / 0x100_0000 % 256) as u8,
            (bits as int / 0x1_0000 % 256) as u8,
            (bits as int / 0x100 % 256) as u8,
            0u8,
        ],
        IpAddr::V6(bits) => seq![
            (bits as int / 0x100_0000_0000_0000_0000_0000_0000_0000 % 256) as u8,
            (bits as int / 0x1_0000_0000_0000_0000_0000_0000_0000 % 256) as u8,
            (bits as int / 0x100_0000_0000_0000_0000_0000_0000 % 256) as u8,
            (bits as int / 0x1_0000_0000_0000_0000_0000_0000 % 256) as u8,
            (bits as int / 0x100_0000_0000_0000_0000_0000 % 256) as u8,
            (bits as int / 0x1_0000_0000_0000_0000_0000 % 256) as u8,
            0u8,
            0u8,
            0u8,
            0u8,
            0u8,
            0u8,
            0u8,
            0u8,
            0u8,
            0u8,
        ],
    }
}

/// The label with number `i`.
pub open spec fn bucket_label(i: int) -> Seq<char> {
    "client.connect.per_source.bucket_"@ + text::three_digits_text(i)
}

/// The number of the label of an address.
pub open spec fn bucket_of(ip: IpAddr) -> int {
    DefaultHasher::spec_finish(seq![masked_octets(ip)]) as int % 256
}

fn masked_bytes(ip: IpAddr) -> (bytes: Vec<u8>)
    ensures
        bytes@ == masked_octets(ip),
{
    match ip {
        IpAddr::V4(bits) => {
            let bytes: Vec<u8> = vec![
                (bits / 0x100_0000 % 256) as u8,
                (bits / 0x1_0000 % 256) as u8,
                (bits / 0x100 % 256) as u8,
                0u8,
            ];
            assert(bytes@ =~= masked_octets(ip));
            bytes
        },
        IpAddr::V6(bits) => {
            let bytes: Vec<u8> = vec![
                (bits / 0x100_0000_0000_0000_0000_0000_0000_0000 % 256) as u8,
                (bits / 0x1_0000_0000_0000_0000_0000_0000_0000 % 256) as u8,
                (bits / 0x100_0000_0000_0000_0000_0000_0000 % 256) as u8,
                (bits / 0x1_0000_0000_0000_0000_0000_0000 % 256) as u8,
                (bits / 0x100_0000_0000_0000_0000_0000 % 256) as u8,
                (bits / 0x1_0000_0000_0000_0000_0000 % 256) as u8,
                0u8,
                0u8,
                0u8,
                0u8,
                0u8,
                0u8,
                0u8,
                0u8,
                0u8,
                0u8,
            ];
            assert(bytes@ =~= masked_octets(ip));
            bytes
        },
    }
}

/// The label with number `i`.
fn bucket_key(i: u64) -> (key: String)
    requires
        i < 256,
    ensures
        key@ == bucket_label(i as int),
{
    text::concat2("client.connect.per_source.bucket_", text::three_digits(i).as_str())
}

/// All labels, in the order of their numbers.
pub fn per_source_bucket_keys() -> (keys: Vec<String>)
    ensures
        keys@.len() == PER_SOURCE_BUCKETS,
        forall|i: int| 0 <= i < keys@.len() ==> (#[trigger] keys@[i])@ == bucket_label(i),
{
    let mut keys: Vec<String> = Vec::new();
    while keys.len() < PER_SOURCE_BUCKETS
        invariant
            keys@.len() <= PER_SOURCE_BUCKETS,
            forall|i: int| 0 <= i < keys@.len() ==> (#[trigger] keys@[i])@ == bucket_label(i),
        decreases PER_SOURCE_BUCKETS - keys@.len(),
    {
        let key = bucket_key(keys.len() as u64);
        keys.push(key);
    }
    keys
}

/// The label of a peer: that of the hash of its masked address.
pub fn per_source_bucket(peer: &SocketAddr) -> (key: String)
    ensures
        key@ == bucket_label(bucket_of(peer.ip())),
{
    let bytes = masked_bytes(peer.ip());
    let mut hasher = DefaultHasher::new();
    hasher.write(bytes.as_slice());
    assert(hasher@ =~= seq![masked_octets(peer.ip())]);
    bucket_key(hasher.finish() % 256)
}

/// Every label is one of a bounded number.
pub proof fn law_labels_are_bounded(ip: IpAddr)
    ensures
        0 <= bucket_of(ip) < PER_SOURCE_BUCKETS,
{
}

/// Two IPv4 addresses that share their first 24 bits share their label.
pub proof fn law_ipv4_subnet_shares_a_label(a: u32, b: u32)
    requires
        a / 0x100 == b / 0x100,
    ensures
        bucket_of(IpAddr::V4(a)) == bucket_of(IpAddr::V4(b)),
{
    assert(a / 0x1_0000 == b / 0x1_0000);
    assert(a / 0x100_0000 == b / 0x100_0000);
    assert(masked_octets(IpAddr::V4(a)) =~= masked_octets(IpAddr::V4(b)));
}

/// Two IPv6 addresses that share their first 48 bits share their label.
pub proof fn law_ipv6_subnet_shares_a_label(a: u128, b: u128)
    requires
        a / 0x1_0000_0000_0000_0000_0000 == b / 0x1_0000_0000_0000_0000_0000,
    ensures
        bucket_of(IpAddr::V6(a)) == bucket_of(IpAddr::V6(b)),
{
    assert(a / 0x100_0000_0000_0000_0000_0000 == b / 0x100_0000_0000_0000_0000_0000);
    assert(a / 0x1_0000_0000_0000_0000_0000_0000 == b / 0x1_0000_0000_0000_0000_0000_0000);
    assert(a / 0x100_0000_0000_0000_0000_0000_0000 == b / 0x100_0000_0000_0000_0000_0000_0000);
    assert(a / 0x1_0000_0000_0000_0000_0000_0000_0000 == b / 0x1_0000_0000_0000_0000_0000_0000_0000);
    assert(a / 0x100_0000_0000_0000_0000_0000_0000_0000 == b
        / 0x100_0000_0000_0000_0000_0000_0000_0000);
    assert(masked_octets(IpAddr::V6(a)) =~= masked_octets(IpAddr::V6(b)));
}

/// The label of a source tells nothing of it but a number below 256, which has
/// three digits and is told by its subnet alone: the first three bytes of an
/// IPv4 address, or the first six of an IPv6 address.
pub proof fn law_a_label_is_told_by_the_subnet(ip: IpAddr)
    ensures
        bucket_label(bucket_of(ip)) == "client.connect.per_source.bucket_"@
            + text::three_digits_text(bucket_of(ip)),
        ip matches IpAddr::V4(bits) ==> masked_octets(ip) == seq![
            (bits / 0x100_0000 % 256) as u8,
            (bits / 0x1_0000 % 256) as u8,
            (bits / 0x100 % 256) as u8,
            0u8,
        ],
        ip matches IpAddr::V6(bits) ==> {
            let m = masked_octets(ip);
            &&& m.len() == 16
            &&& m[0] == bits / 0x100_0000_0000_0000_0000_0000_0000_0000 % 256
            &&& m[1] == bits / 0x1_0000_0000_0000_0000_0000_0000_0000 % 256
            &&& m[2] == bits / 0x100_0000_0000_0000_0000_0000_0000 % 256
            &&& m[3] == bits / 0x1_0000_0000_0000_0000_0000_0000 % 256
            &&& m[4] == bits / 0x100_0000_0000_0000_0000_0000 % 256
            &&& m[5] == bits / 0x1_0000_0000_0000_0000_0000 % 256
            &&& forall|i: int| 6 <= i < 16 ==> #[trigger] m[i] == 0
        },
{
}

} // verus!
