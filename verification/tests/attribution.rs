use webinfo::asn::{lookup_ip, Asn};
use webinfo::ip::IpNet;
use webinfo::IpAddress;

fn table(data: &str) -> ip2asn::IpAsnMap {
    ip2asn::Builder::new()
        .with_source(data.as_bytes())
        .unwrap()
        .build()
        .unwrap()
}

const TWO_BLOCKS_ONE_AS: &str = "1.0.0.0\t1.0.0.255\t13335\tAU\tCLOUDFLARENET\n\
8.8.8.0\t8.8.8.255\t13335\tAU\tCLOUDFLARENET\n\
9.9.9.0\t9.9.9.255\t19281\tUS\tQUAD9";

fn nets_of(a: &Asn) -> Vec<IpNet> {
    a.network.clone()
}

#[test]
fn same_ip_twice_yields_same_single_entry() {
    let map = table(TWO_BLOCKS_ONE_AS);
    let ip = IpAddress::V4(0x0100_0001); // 1.0.0.1
    let once = lookup_ip(&vec![ip], &map).unwrap();
    let twice = lookup_ip(&vec![ip, ip], &map).unwrap();
    assert_eq!(once.len(), 1);
    assert_eq!(twice.len(), 1);
    assert_eq!(once[0].asn, twice[0].asn);
    assert_eq!(once[0].organization, twice[0].organization);
    assert_eq!(once[0].country_code, twice[0].country_code);
    assert_eq!(nets_of(&once[0]), nets_of(&twice[0]));
    assert_eq!(once[0].network.len(), 1);
}

#[test]
fn two_ips_same_as_number_share_one_entry() {
    let map = table(TWO_BLOCKS_ONE_AS);
    let a = IpAddress::V4(0x0100_0001); // 1.0.0.1 -> 1.0.0.0/24
    let b = IpAddress::V4(0x0808_0808); // 8.8.8.8 -> 8.8.8.0/24
    let result = lookup_ip(&vec![a, b], &map).unwrap();
    assert_eq!(result.len(), 1);
    let entry = &result[0];
    assert_eq!(entry.asn, 13335);
    assert_eq!(entry.organization, "CLOUDFLARENET");
    assert_eq!(entry.country_code, "AU");
    let nets = nets_of(entry);
    assert_eq!(nets.len(), 2);
    assert!(nets.contains(&IpNet { base: IpAddress::V4(0x0100_0000), prefix: 24 }));
    assert!(nets.contains(&IpNet { base: IpAddress::V4(0x0808_0800), prefix: 24 }));
}

#[test]
fn distinct_as_numbers_stay_distinct_entries() {
    let map = table(TWO_BLOCKS_ONE_AS);
    let ips = vec![
        IpAddress::V4(0x0100_0001), // AS13335
        IpAddress::V4(0x0909_0909), // AS19281
        IpAddress::V4(0x0808_0808), // AS13335 again
    ];
    let result = lookup_ip(&ips, &map).unwrap();
    // Two distinct AS numbers across the inputs: exactly two entries.
    assert_eq!(result.len(), 2);
    let mut asns: Vec<u32> = result.iter().map(|a| a.asn).collect();
    asns.sort();
    assert_eq!(asns, vec![13335, 19281]);
}

#[test]
fn unmatched_addresses_yield_nothing() {
    let map = table(TWO_BLOCKS_ONE_AS);
    assert!(lookup_ip(&vec![], &map).is_none());
    assert!(lookup_ip(&vec![IpAddress::V4(0x7f00_0001)], &map).is_none());
}

#[test]
fn from_ip_single_match() {
    let map = table(TWO_BLOCKS_ONE_AS);
    let hit = Asn::from_ip(&IpAddress::V4(0x0909_0909), &map).unwrap();
    assert_eq!(hit.asn, 19281);
    assert_eq!(hit.organization, "QUAD9");
    assert_eq!(hit.country_code, "US");
    assert_eq!(hit.network, vec![IpNet { base: IpAddress::V4(0x0909_0900), prefix: 24 }]);
    assert!(Asn::from_ip(&IpAddress::V4(0x7f00_0001), &map).is_none());
}
