//! The IP grammar: addresses, networks and containment, plus version and
//! decimal ordering.
use unleash_api_client::ipaddr::{ip_text, net_contains, parse_cidr, parse_ip};
use unleash_api_client::numdec::num_cmp;
use unleash_api_client::vercmp::{version_cmp, Version};

#[test]
fn test_parse_ipv4() {
    let ip = parse_ip("10.20.30.40").unwrap();
    assert!(ip.v4);
    assert_eq!(ip.bits, (10u128 << 24) | (20 << 16) | (30 << 8) | 40);
    assert!(parse_ip("10.20.30").is_none());
    assert!(parse_ip("10.20.30.256").is_none());
    assert!(parse_ip("10.020.30.40").is_none());
    assert!(parse_ip("").is_none());
}

#[test]
fn test_parse_ipv6() {
    let ip = parse_ip("2222:FF:0:1234::FDEC").unwrap();
    assert!(!ip.v4);
    assert_eq!(
        ip.bits,
        (0x2222u128 << 112) | (0xFF << 96) | (0x1234 << 64) | 0xFDEC
    );
    assert!(parse_ip("::").is_some());
    assert!(parse_ip("::1").is_some());
    assert!(parse_ip("1::2::3").is_none());
    assert!(parse_ip(":::").is_none());
    let mapped = parse_ip("::ffff:1.2.3.4").unwrap();
    assert_eq!(mapped.bits, (0xffffu128 << 32) | (1 << 24) | (2 << 16) | (3 << 8) | 4);
}

#[test]
fn test_cidr_containment() {
    let net = parse_cidr("10.0.0.0/8").unwrap();
    assert!(net_contains(&net, &parse_ip("10.20.30.40").unwrap()));
    assert!(!net_contains(&net, &parse_ip("1.2.3.4").unwrap()));
    // a bare address is a full-length prefix
    let host = parse_cidr("2.3.4.5").unwrap();
    assert_eq!(host.prefix, 32);
    assert!(net_contains(&host, &parse_ip("2.3.4.5").unwrap()));
    assert!(!net_contains(&host, &parse_ip("2.3.4.4").unwrap()));
    // families never mix
    let v6net = parse_cidr("2222:FF:0:1234::/64").unwrap();
    assert!(net_contains(&v6net, &parse_ip("2222:FF:0:1234::FDEC").unwrap()));
    assert!(!net_contains(&v6net, &parse_ip("10.0.0.1").unwrap()));
    // an out-of-range prefix is rejected
    assert!(parse_cidr("1.2.3.4/33").is_none());
    assert!(parse_cidr("::1/129").is_none());
}

#[test]
fn test_ip_text() {
    assert_eq!(ip_text(&parse_ip("10.20.30.40").unwrap()), "10.20.30.40");
    assert_eq!(
        ip_text(&parse_ip("2222:FF:0:1234::FDEC").unwrap()),
        "2222:ff:0:1234::fdec"
    );
    assert_eq!(ip_text(&parse_ip("::").unwrap()), "::");
    assert_eq!(ip_text(&parse_ip("::1").unwrap()), "::1");
    assert_eq!(ip_text(&parse_ip("1::").unwrap()), "1::");
    // a lone zero group is not compressed
    assert_eq!(
        ip_text(&parse_ip("1:0:2:3:4:5:6:7").unwrap()),
        "1:0:2:3:4:5:6:7"
    );
    // the leftmost of two equally long runs wins
    assert_eq!(
        ip_text(&parse_ip("1:0:0:2:3:0:0:4").unwrap()),
        "1::2:3:0:0:4"
    );
}

#[test]
fn test_version_precedence() {
    let a = Version::parse("1.0.0-alpha.1").unwrap();
    let b = Version::parse("1.0.0-beta.1").unwrap();
    let c = Version::parse("1.0.0-beta.10").unwrap();
    let rel = Version::parse("1.0.0").unwrap();
    assert_eq!(version_cmp(&a, &b), -1);
    assert_eq!(version_cmp(&b, &c), -1);
    assert_eq!(version_cmp(&c, &rel), -1);
    assert_eq!(version_cmp(&rel, &rel), 0);
    assert!(Version::parse("not-a-version").is_none());
}

#[test]
fn test_num_cmp() {
    assert_eq!(num_cmp("30", "30"), Some(0));
    assert_eq!(num_cmp("29", "30"), Some(-1));
    assert_eq!(num_cmp("31", "30"), Some(1));
    assert_eq!(num_cmp("2.5", "2.50"), Some(0));
    assert_eq!(num_cmp("-1", "1"), Some(-1));
    assert_eq!(num_cmp("1e3", "999"), Some(1));
    assert_eq!(num_cmp("inf", "1e300"), Some(1));
    assert_eq!(num_cmp("nan", "1"), None);
    assert_eq!(num_cmp("pickle", "1"), None);
}
