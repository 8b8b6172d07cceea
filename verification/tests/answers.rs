use webinfo::dns::{cname_field, merge_address_answers, make_nameserver};
use webinfo::IpAddress;

#[test]
fn merged_addresses_keep_answer_order() {
    let v4 = vec![IpAddress::V4(1), IpAddress::V4(2)];
    let v6 = vec![IpAddress::V6(3)];
    let merged = merge_address_answers(Some(v4.clone()), Some(v6.clone())).unwrap();
    assert_eq!(merged, vec![IpAddress::V4(1), IpAddress::V4(2), IpAddress::V6(3)]);
    let only_v6 = merge_address_answers(None, Some(v6.clone())).unwrap();
    assert_eq!(only_v6, vec![IpAddress::V6(3)]);
    assert!(merge_address_answers(None, None).is_none());
    assert!(merge_address_answers(Some(Vec::new()), Some(Vec::new())).is_none());
}

#[test]
fn cname_answer_is_absent_instead_of_empty() {
    assert!(cname_field(Vec::new()).is_none());
    let chain = vec!["a.example.net.".to_string(), "b.example.net.".to_string()];
    assert_eq!(cname_field(chain.clone()).unwrap(), chain);
}

#[test]
fn nameserver_record_attributes_its_addresses() {
    let map = ip2asn::Builder::new()
        .with_source("9.9.9.0\t9.9.9.255\t19281\tUS\tQUAD9".as_bytes())
        .unwrap()
        .build()
        .unwrap();
    let names = vec!["ns1.example.org.".to_string()];
    let ns_ip = IpAddress::V4(0x0909_0909);
    let ns = make_nameserver(names.clone(), vec![ns_ip], &map);
    assert_eq!(ns.names, names);
    assert_eq!(ns.ips.unwrap(), vec![ns_ip]);
    let asn = ns.asn.unwrap();
    assert_eq!(asn.len(), 1);
    assert_eq!(asn[0].asn, 19281);
    // With no addresses resolved, both fields stay absent.
    let empty = make_nameserver(names.clone(), Vec::new(), &map);
    assert_eq!(empty.names, names);
    assert!(empty.ips.is_none());
    assert!(empty.asn.is_none());
}
