//! Assembly of DNS answers into record fields.
//!
//! The queries themselves are asynchronous network calls made at the
//! boundary; what they answer comes back here as plain values, and the
//! merging and wrapping decided from those answers is verified.

use vstd::prelude::*;

use crate::asn::{lookups, spec_attribute, Asn};
use crate::ip::IpAddress;
use ip2asn::IpAsnMap;

verus! {

/// The name-server answer for a domain: the NS host names, the addresses
/// those hosts resolved to (absent instead of empty), and the ASN
/// attribution of those addresses.
#[derive(Debug)]
pub struct NameServer {
    pub names: Vec<String>,
    pub ips: Option<Vec<IpAddress>>,
    pub asn: Option<Vec<Asn>>,
}

/// The union of the A and AAAA answers, in answer order, absent when both
/// queries failed or answered nothing.
pub fn merge_address_answers(v4: Option<Vec<IpAddress>>, v6: Option<Vec<IpAddress>>) -> (r: Option<
    Vec<IpAddress>,
>)
    ensures
        ({
            let all = (match v4 {
                Some(a) => a@,
                None => Seq::<IpAddress>::empty(),
            }) + (match v6 {
                Some(b) => b@,
                None => Seq::<IpAddress>::empty(),
            });
            match r {
                Some(v) => v@ == all && all.len() > 0,
                None => all.len() == 0,
            }
        }),
{
    let mut ip: Vec<IpAddress> = Vec::new();
    match v4 {
        Some(mut a) => ip.append(&mut a),
        None => {},
    }
    match v6 {
        Some(mut b) => ip.append(&mut b),
        None => {},
    }
    if ip.len() == 0 {
        None
    } else {
        Some(ip)
    }
}

/// The CNAME answer wrapped as a record field: absent instead of empty.
pub fn cname_field(names: Vec<String>) -> (r: Option<Vec<String>>)
    ensures
        match r {
            Some(v) => v@ == names@ && names@.len() > 0,
            None => names@.len() == 0,
        },
{
    if names.len() == 0 {
        None
    } else {
        Some(names)
    }
}

/// The name-server record for a domain, from the NS answer and the
/// addresses its hosts resolved to: the host names as answered, the
/// addresses absent instead of empty, and the addresses attributed to AS
/// numbers over the table.
pub fn make_nameserver(names: Vec<String>, ns_ips: Vec<IpAddress>, table: &IpAsnMap) -> (r:
    NameServer)
    ensures
        r.names@ == names@,
        match r.ips {
            Some(v) => v@ == ns_ips@ && ns_ips@.len() > 0,
            None => ns_ips@.len() == 0,
        },
        ({
            let agg = spec_attribute(lookups(*table, ns_ips@));
            match r.asn {
                Some(v) => agg.len() > 0 && v@.map_values(|a: Asn| a@) == agg,
                None => agg.len() == 0,
            }
        }),
{
    let asn = crate::asn::lookup_ip(&ns_ips, table);
    let ips = if ns_ips.len() == 0 {
        None
    } else {
        Some(ns_ips)
    };
    NameServer { names, ips, asn }
}

} // verus!
