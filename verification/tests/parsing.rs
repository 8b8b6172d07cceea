use webinfo::domain::{extract_domain, extract_hostname};
use webinfo::model::{OriginRecord, RecordError};
use webinfo::pipeline::begin;
use webinfo::utils::{parse_ip_list, resolver_ips};
use webinfo::IpAddress;

#[test]
fn test_extract_hostname() {
    let origin = OriginRecord {
        origin: "https://www.example.com".to_string(),
        popularity: 100,
        date: "2023-10-01".to_string(),
        country: "US".to_string(),
    };
    let pending = begin(origin).unwrap();
    assert_eq!(pending.hostname, "www.example.com");
}

#[test]
fn test_extract_hostname_invalid() {
    let origin = OriginRecord {
        origin: "https://www.example.toto".to_string(),
        popularity: 100,
        date: "2023-10-01".to_string(),
        country: "US".to_string(),
    };
    let result = begin(origin);
    assert!(result.is_err());
}

#[test]
fn test_extract_domain() {
    let urls = [
        "www.example.co.uk",
        "carrd.co",
        "phpmyadmin.hosting.ovh.net",
        "s3.amazonaws.com",
        "senpai-stream.cam",
    ];
    let expected_domains = [
        "example.co.uk",
        "carrd.co",
        "ovh.net",
        "amazonaws.com",
        "senpai-stream.cam",
    ];
    for (url, expected) in urls.iter().zip(expected_domains.iter()) {
        let domain = extract_domain(url);
        assert!(domain.is_some());
        assert_eq!(domain.unwrap(), expected.to_string());
    }
}

#[test]
fn test_extract_domain_invalid() {
    let bad_urls = ["invalid_domain", "https://www.example.toto"];
    for url in bad_urls {
        let domain = extract_domain(url);
        assert!(domain.is_none());
    }
}

#[test]
fn hostname_ignores_path_and_query() {
    let hostname = extract_hostname("https://www.example.com/path?q=1");
    assert_eq!(hostname.unwrap(), "www.example.com");
}

#[test]
fn hostname_error_kinds() {
    // A well-formed URL whose host carries an unrecognized top-level suffix.
    assert_eq!(
        extract_hostname("https://www.example.toto"),
        Err(RecordError::InvalidHostname)
    );
    // A recognized suffix on a string that is not an absolute URL.
    assert_eq!(extract_hostname("www.example.com"), Err(RecordError::InvalidUrl));
}

#[test]
fn test_parse_ip_list() {
    let ip_list = "1.1.1.1, 8.8.8.8, 8.8.4.4";
    let parsed_ips = parse_ip_list(ip_list);
    assert_eq!(parsed_ips.len(), 3);
    assert_eq!(parsed_ips[0], IpAddress::V4(0x0101_0101));
    assert_eq!(parsed_ips[1], IpAddress::V4(0x0808_0808));
    assert_eq!(parsed_ips[2], IpAddress::V4(0x0808_0404));
}

#[test]
fn test_parse_ip_list_with_error() {
    let ip_list = "1.1.";
    let parsed_ips = parse_ip_list(ip_list);
    assert_eq!(parsed_ips.len(), 0);
}

#[test]
fn parse_ip_list_mixed_families() {
    let parsed = parse_ip_list("::1, 127.0.0.1");
    assert_eq!(parsed.len(), 2);
    assert_eq!(parsed[0], IpAddress::V6(1));
    assert_eq!(parsed[1], IpAddress::V4(0x7f00_0001));
}

#[test]
fn resolver_ips_prefers_custom_servers() {
    let ips = resolver_ips(Some("9.9.9.9".to_string()));
    assert_eq!(ips.len(), 1);
    assert_eq!(ips[0], IpAddress::V4(0x0909_0909));
}

#[test]
fn resolver_ips_falls_back_to_default() {
    // No custom list, and a custom list with nothing parseable, both fall
    // back to the well-known public resolver.
    let default_ip = IpAddress::V4(0x0101_0101);
    let ips = resolver_ips(None);
    assert_eq!(ips.len(), 1);
    assert_eq!(ips[0], default_ip);
    let ips = resolver_ips(Some("not-an-ip, 300.300.300.300".to_string()));
    assert_eq!(ips.len(), 1);
    assert_eq!(ips[0], default_ip);
}
