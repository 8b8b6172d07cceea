use webinfo::model::{OriginRecord, RecordError};
use webinfo::pipeline::{complete, parse_all, DnsAnswers};
use webinfo::IpAddress;

fn e2e_row(origin: &str) -> OriginRecord {
    OriginRecord {
        origin: origin.to_string(),
        popularity: 1000,
        date: "2025-08-28".to_string(),
        country: "FR".to_string(),
    }
}

fn e2e_table() -> ip2asn::IpAsnMap {
    ip2asn::Builder::new()
        .with_source("212.27.48.0\t212.27.48.255\t12322\tFR\tPROXAD".as_bytes())
        .unwrap()
        .build()
        .unwrap()
}

fn e2e_issuer_cert() -> Vec<u8> {
    vec![
        48, 130, 1, 211, 48, 130, 1, 121, 160, 3, 2, 1, 2, 2, 20, 17,
        108, 27, 24, 24, 76, 190, 232, 72, 30, 143, 125, 253, 91, 79, 246, 32,
        237, 97, 218, 48, 10, 6, 8, 42, 134, 72, 206, 61, 4, 3, 2, 48,
        63, 49, 11, 48, 9, 6, 3, 85, 4, 6, 19, 2, 66, 69, 49, 25,
        48, 23, 6, 3, 85, 4, 10, 12, 16, 69, 120, 97, 109, 112, 108, 101,
        32, 84, 101, 115, 116, 32, 79, 114, 103, 49, 21, 48, 19, 6, 3, 85,
        4, 3, 12, 12, 116, 101, 115, 116, 46, 101, 120, 97, 109, 112, 108, 101,
        48, 30, 23, 13, 50, 54, 49, 48, 49, 49, 49, 55, 51, 54, 52, 57,
        90, 23, 13, 50, 55, 49, 48, 49, 49, 49, 55, 51, 54, 52, 57, 90,
        48, 63, 49, 11, 48, 9, 6, 3, 85, 4, 6, 19, 2, 66, 69, 49,
        25, 48, 23, 6, 3, 85, 4, 10, 12, 16, 69, 120, 97, 109, 112, 108,
        101, 32, 84, 101, 115, 116, 32, 79, 114, 103, 49, 21, 48, 19, 6, 3,
        85, 4, 3, 12, 12, 116, 101, 115, 116, 46, 101, 120, 97, 109, 112, 108,
        101, 48, 89, 48, 19, 6, 7, 42, 134, 72, 206, 61, 2, 1, 6, 8,
        42, 134, 72, 206, 61, 3, 1, 7, 3, 66, 0, 4, 108, 18, 236, 78,
        88, 74, 86, 131, 113, 18, 250, 46, 134, 183, 45, 118, 48, 170, 46, 158,
        154, 79, 233, 108, 16, 163, 200, 187, 222, 120, 217, 111, 16, 194, 134, 21,
        222, 19, 251, 231, 235, 145, 172, 123, 219, 63, 37, 200, 78, 241, 230, 255,
        178, 234, 255, 195, 98, 34, 59, 225, 81, 133, 106, 78, 163, 83, 48, 81,
        48, 29, 6, 3, 85, 29, 14, 4, 22, 4, 20, 23, 132, 96, 107, 101,
        84, 55, 15, 203, 52, 221, 59, 82, 10, 66, 218, 1, 22, 120, 165, 48,
        31, 6, 3, 85, 29, 35, 4, 24, 48, 22, 128, 20, 23, 132, 96, 107,
        101, 84, 55, 15, 203, 52, 221, 59, 82, 10, 66, 218, 1, 22, 120, 165,
        48, 15, 6, 3, 85, 29, 19, 1, 1, 255, 4, 5, 48, 3, 1, 1,
        255, 48, 10, 6, 8, 42, 134, 72, 206, 61, 4, 3, 2, 3, 72, 0,
        48, 69, 2, 33, 0, 147, 154, 150, 145, 124, 175, 157, 178, 115, 184, 179,
        188, 214, 100, 79, 118, 177, 44, 17, 137, 208, 45, 255, 226, 191, 132, 61,
        168, 69, 13, 90, 62, 2, 32, 111, 226, 121, 210, 8, 135, 130, 126, 18,
        63, 14, 32, 49, 79, 144, 26, 26, 228, 130, 206, 99, 98, 127, 169, 224,
        185, 175, 109, 97, 185, 241, 171,
    ]
}

#[test]
fn batch_with_bad_record_still_completes() {
    let map = e2e_table();
    let records = vec![e2e_row("https://www.free.fr"), e2e_row("https://www.example.toto")];
    let outcomes = parse_all(records);
    // Every input row produced exactly one outcome.
    assert_eq!(outcomes.len(), 2);
    let mut results = outcomes.into_iter();
    let good = results.next().unwrap().unwrap();
    let bad = results.next().unwrap();
    assert_eq!(bad.unwrap_err(), RecordError::InvalidHostname);

    let host_ip = IpAddress::V4((212 << 24) | (27 << 16) | (48 << 8) | 10);
    let ns_ip = IpAddress::V4((212 << 24) | (27 << 16) | (48 << 8) | 20);
    let dns = DnsAnswers {
        ip: Some(vec![host_ip]),
        cname: Some(vec!["www.free.fr.cdn.example.".to_string()]),
        ns: Some((vec!["ns0.proxad.net.".to_string()], vec![ns_ip])),
    };
    let info = complete(good, dns, Some(&map), None);
    assert_eq!(info.origin.origin, "https://www.free.fr");
    assert_eq!(info.records.hostname, "www.free.fr");
    assert_eq!(info.records.domain, Some("free.fr".to_string()));
    assert!(info.records.ip.is_some());
    assert!(!info.records.ip.as_ref().unwrap().is_empty());
    let asn = info.records.asn.as_ref().unwrap();
    assert_eq!(asn.len(), 1);
    assert_eq!(asn[0].asn, 12322);
    assert_eq!(asn[0].organization, "PROXAD");
    let ns = info.records.ns.as_ref().unwrap();
    assert_eq!(ns.names, vec!["ns0.proxad.net.".to_string()]);
    assert!(ns.ips.is_some());
    assert_eq!(ns.asn.as_ref().unwrap()[0].asn, 12322);
    assert!(info.records.tls.is_none());
}

#[test]
fn probed_record_carries_issuer_organization() {
    let map = e2e_table();
    let outcomes = parse_all(vec![e2e_row("https://www.free.fr")]);
    let pending = outcomes.into_iter().next().unwrap().unwrap();
    let host_ip = IpAddress::V4((212 << 24) | (27 << 16) | (48 << 8) | 10);
    let dns = DnsAnswers { ip: Some(vec![host_ip]), cname: None, ns: None };
    let info = complete(pending, dns, Some(&map), Some(vec![e2e_issuer_cert()]));
    let tls = info.records.tls.as_ref().unwrap();
    assert_eq!(tls.organization(), "Example Test Org");
    assert_eq!(tls.country(), Some("BE"));
}

#[test]
fn record_without_table_keeps_raw_answers() {
    let outcomes = parse_all(vec![e2e_row("https://www.example.com")]);
    let pending = outcomes.into_iter().next().unwrap().unwrap();
    let ip = IpAddress::V4(0x5db8_d822);
    let dns = DnsAnswers { ip: Some(vec![ip]), cname: None, ns: Some((vec!["a.iana-servers.net.".to_string()], vec![ip])) };
    let info = complete(pending, dns, None, None);
    assert_eq!(info.records.hostname, "www.example.com");
    assert_eq!(info.records.ip.unwrap(), vec![ip]);
    assert!(info.records.asn.is_none());
    assert!(info.records.ns.is_none());
    assert!(info.records.tls.is_none());
}
