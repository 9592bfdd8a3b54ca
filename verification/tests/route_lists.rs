use chnroutes::error::Error;
use chnroutes::net::{IpAddress, IpNetwork};
use chnroutes::source::{apnic, chnroutes2};

fn net(text: &str) -> IpNetwork {
    IpNetwork::parse(text).unwrap()
}

#[test]
fn chnroutes2_test_parse_ip_data() {
    let content = "\
#########################################
# Sukka's Optimized CHNRoutes
# Size: 3
#########################################
1.1.8.0/24
1.12.0.0/14

1.24.0.0/13
2400:da00::/32
invalid
";

    let results = chnroutes2::parse_ip_data(content);

    assert_eq!(results.len(), 3);
    assert_eq!(results[0], net("1.1.8.0/24"));
    assert_eq!(results[1], net("1.12.0.0/14"));
    assert_eq!(results[2], net("1.24.0.0/13"));
}

#[test]
fn test_parse_cidr() {
    assert_eq!(chnroutes2::parse_cidr("1.1.8.0/24"), Some(net("1.1.8.0/24")));
    assert_eq!(chnroutes2::parse_cidr("2400:da00::/32"), None);
    assert_eq!(chnroutes2::parse_cidr("not-a-cidr"), None);
}

#[test]
fn chnroutes2_lines_are_trimmed() {
    let results = chnroutes2::parse_ip_data("  1.1.8.0/24  \r\n\t# note\n  \n");
    assert_eq!(results, vec![net("1.1.8.0/24")]);
    assert!(chnroutes2::parse_ip_data("").is_empty());
}

#[test]
fn test_parse_ipv4_record() {
    assert_eq!(apnic::parse_ipv4_record("1.0.1.0", "256"), Some(net("1.0.1.0/24")));
    assert_eq!(apnic::parse_ipv4_record("1.0.2.0", "512"), Some(net("1.0.2.0/23")));
}

#[test]
fn test_parse_ipv4_record_invalid_count() {
    assert_eq!(apnic::parse_ipv4_record("1.0.1.0", "255"), None);
    assert_eq!(apnic::parse_ipv4_record("1.0.1.0", "0"), None);
}

#[test]
fn ipv4_record_bounds() {
    assert_eq!(apnic::parse_ipv4_record("0.0.0.0", "2147483648"), Some(net("0.0.0.0/1")));
    assert_eq!(apnic::parse_ipv4_record("1.2.3.4", "1"), Some(net("1.2.3.4/32")));
    assert_eq!(apnic::parse_ipv4_record("1.0.1.0", "4294967296"), None);
    assert_eq!(apnic::parse_ipv4_record("1.0.1", "256"), None);
}

#[test]
fn test_parse_ipv6_record() {
    assert_eq!(apnic::parse_ipv6_record("2400:da00::", "32"), Some(net("2400:da00::/32")));
}

#[test]
fn ipv6_record_bounds() {
    assert_eq!(apnic::parse_ipv6_record("2400:da00::", "129"), None);
    assert_eq!(apnic::parse_ipv6_record("2400:da00::", "128"), Some(net("2400:da00::/128")));
    assert_eq!(apnic::parse_ipv6_record("1.2.3.4", "24"), Some(net("1.2.3.4/24")));
}

#[test]
fn apnic_test_parse_ip_data() {
    let content = "\
apnic|CN|ipv4|1.0.1.0|256|20110101|allocated
apnic|CN|ipv4|1.0.2.0|512|20110101|allocated
apnic|CN|ipv6|2400:da00::|32|20110101|allocated
apnic|US|ipv4|1.1.1.0|256|20110101|allocated
invalid
";

    let results = apnic::parse_ip_data(content);

    assert_eq!(results.len(), 3);
    assert_eq!(results[0], net("1.0.1.0/24"));
    assert_eq!(results[1], net("1.0.2.0/23"));
    assert_eq!(results[2], net("2400:da00::/32"));
}

#[test]
fn apnic_other_records_are_skipped() {
    let content = "apnic|CN|asn|4134|1|20110101|allocated\nripe|CN|ipv4|1.0.1.0|256\napnic|CN|ipv4|1.0.1.0|256";
    assert_eq!(apnic::parse_ip_data(content), vec![net("1.0.1.0/24")]);
}

#[test]
fn addresses_parse_as_std_does() {
    assert_eq!(IpAddress::parse("1.2.3.4"), Some(IpAddress::V4(0x0102_0304)));
    assert_eq!(IpAddress::parse("::1"), Some(IpAddress::V6(1)));
    assert_eq!(IpAddress::parse("1.2.3.4/32"), None);
    assert_eq!(net("1.0.1.0/24"), IpNetwork::V4 { addr: 0x0100_0100, prefix: 24 });
    assert_eq!(net("10.1.2.3/8").to_text(), "10.1.2.3/8");
    assert_eq!(IpNetwork::parse("1.0.1.0/40"), None);
}

#[test]
fn snapshot_decodes_to_the_same_networks() {
    let content = "apnic|CN|ipv4|1.0.1.0|256|20110101|allocated\napnic|CN|ipv6|2400:da00::|32|20110101|allocated\n";
    let compressed = zstd::stream::encode_all(content.as_bytes(), 0).unwrap();
    assert_eq!(apnic::parse_snapshot(&compressed), Ok(vec![net("1.0.1.0/24"), net("2400:da00::/32")]));
    assert!(matches!(apnic::parse_snapshot(b"not zstd"), Err(Error::IOError(_))));
    let not_text = zstd::stream::encode_all(&[0xffu8, 0xfe][..], 0).unwrap();
    assert!(matches!(apnic::parse_snapshot(&not_text), Err(Error::Utf8Error(_))));
}
