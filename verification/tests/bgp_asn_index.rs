use chnroutes::source::bgp_asn::{build_asn_index, merge_with_whois, BgpAsnRecord};
use chnroutes::source::bgp_whois::BgpAsnWhois;

fn record(asn: &str, name: &str, class: &str) -> BgpAsnRecord {
    BgpAsnRecord { asn: asn.to_string(), name: name.to_string(), class: class.to_string() }
}

#[test]
fn test_asn_number() {
    assert_eq!(record("AS4134", "China Telecom", "Eyeball").asn_number(), Some(4134));
}

#[test]
fn test_lowercase_asn_number() {
    assert_eq!(record("as9808", "China Mobile", "Eyeball").asn_number(), Some(9808));
}

#[test]
fn test_invalid_asn_number() {
    assert_eq!(record("invalid", "Unknown", "Unknown").asn_number(), None);
}

#[test]
fn asn_number_edge_cases() {
    assert_eq!(record("AS", "x", "y").asn_number(), None);
    assert_eq!(record("As4134", "x", "y").asn_number(), None);
    assert_eq!(record("AS+7", "x", "y").asn_number(), Some(7));
    assert_eq!(record("AS4294967295", "x", "y").asn_number(), Some(4294967295));
    assert_eq!(record("AS4294967296", "x", "y").asn_number(), None);
    assert_eq!(record("AS 1", "x", "y").asn_number(), None);
}

#[test]
fn test_build_asn_index() {
    let records = vec![record("AS4134", "China Telecom", "Eyeball"), record("AS9808", "China Mobile", "Eyeball")];

    let index = build_asn_index(&records);

    assert_eq!(index.len(), 2);
    assert_eq!(index.get(&4134).unwrap().name, "China Telecom");
    assert_eq!(index.get(&9808).unwrap().name, "China Mobile");
}

#[test]
fn later_record_wins_and_unnumbered_records_are_left_out() {
    let records = vec![
        record("AS1", "first", "a"),
        record("bogus", "none", "b"),
        record("as1", "second", "c"),
    ];
    let index = build_asn_index(&records);
    assert_eq!(index.len(), 1);
    assert_eq!(index.get(&1).unwrap().name, "second");
}

#[test]
fn test_merge_with_whois() {
    let record = record("AS4134", "China Telecom", "Eyeball");
    let whois = BgpAsnWhois {
        asn: 4134,
        country: "CN".to_string(),
        registry: "APNIC".to_string(),
        name: "CHINANET".to_string(),
    };

    let evidence = merge_with_whois(&record, &whois);

    assert_eq!(evidence.asn, 4134);
    assert_eq!(evidence.country, "CN");
    assert_eq!(evidence.network_class, "Eyeball");
}
