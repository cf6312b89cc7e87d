use sozu_lib::net::SocketAddr;
use sozu_lib::telemetry::{per_source_bucket, per_source_bucket_keys, PER_SOURCE_BUCKETS};

fn v6(ip: u128, port: u16) -> SocketAddr {
    SocketAddr::V6 {
        ip,
        port,
        flowinfo: 0,
        scope_id: 0,
    }
}

#[test]
fn per_source_bucket_collapses_ipv4_slash24() {
    let a = SocketAddr::v4(203, 0, 113, 5, 1234);
    let b = SocketAddr::v4(203, 0, 113, 250, 9999);
    assert_eq!(
        per_source_bucket(&a),
        per_source_bucket(&b),
        "addresses in the same /24 must land in the same bucket"
    );
}

#[test]
fn per_source_bucket_collapses_ipv6_slash48() {
    // [2001:db8:1234::1]:443 and [2001:db8:1234:abcd::ffff]:8443
    let a = v6(0x2001_0db8_1234_0000_0000_0000_0000_0001, 443);
    let b = v6(0x2001_0db8_1234_abcd_0000_0000_0000_ffff, 8443);
    assert_eq!(
        per_source_bucket(&a),
        per_source_bucket(&b),
        "addresses in the same /48 must land in the same bucket"
    );
}

#[test]
fn per_source_bucket_keys_are_bounded() {
    let keys = per_source_bucket_keys();
    assert_eq!(keys.len(), PER_SOURCE_BUCKETS);
    for (i, key) in keys.iter().enumerate() {
        let expected = format!("client.connect.per_source.bucket_{i:03}");
        assert_eq!(*key, expected.as_str());
    }
}

#[test]
fn per_source_bucket_distributes_distinct_subnets() {
    let mut hits = std::collections::HashSet::new();
    for i in 0..200u8 {
        let addr = SocketAddr::v4(10, 0, i, 42, 80);
        hits.insert(per_source_bucket(&addr));
    }
    assert!(
        hits.len() >= 100,
        "expected at least 100 distinct buckets across 200 /24s, got {}",
        hits.len()
    );
}

#[test]
fn every_bucket_is_one_of_the_keys() {
    let keys = per_source_bucket_keys();
    for i in 0..50u8 {
        let key = per_source_bucket(&SocketAddr::v4(i, 3, i, 1, 80));
        assert!(keys.contains(&key));
    }
}
