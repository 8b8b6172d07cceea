//! The per-record enrichment pipeline, as decisions over plain values.
//!
//! The stages run in the order parse → resolve → attribute → probe →
//! assemble. Parsing and everything decided from lookup answers stand here;
//! the network calls between the stages are boundary work, and what they
//! answer comes back as plain values. A record either finishes as one
//! `IpInfo` or as one `RecordError`; a failure of one record never touches
//! a sibling record.

use vstd::prelude::*;

use crate::asn::{lookups, spec_attribute, Asn};
use crate::dns::make_nameserver;
use crate::domain::{extract_domain, extract_hostname, spec_extract_domain, spec_extract_hostname};
use crate::ip::IpAddress;
use crate::model::{IpInfo, IpInfoRecord, OriginRecord, RecordError};
use crate::tls::{spec_from_der, CertificateIssuerInfo};
use ip2asn::IpAsnMap;

verus! {

/// Whether a string carries the HTTPS scheme.
pub open spec fn is_https(s: Seq<char>) -> bool {
    s.len() >= 8 && s.subrange(0, 8) == "https://"@
}

/// Relies on str::starts_with with a literal pattern.
#[verifier::external_body]
fn starts_with_https(s: &str) -> (r: bool)
    ensures
        r == is_https(s@),
{
    s.starts_with("https://")
}

/// A record after the parse stage: hostname extracted, registrable domain
/// possibly extracted, lookups not yet run.
#[derive(Debug)]
pub struct PendingRecord {
    pub origin: OriginRecord,
    pub hostname: String,
    pub domain: Option<String>,
}

/// What the resolver answered for one record, handed back from the
/// boundary: the merged A/AAAA addresses, the CNAME chain, and for the
/// domain's name servers their host names with the addresses those
/// resolved to. A failed or skipped query is an absent field.
#[derive(Debug)]
pub struct DnsAnswers {
    pub ip: Option<Vec<IpAddress>>,
    pub cname: Option<Vec<String>>,
    pub ns: Option<(Vec<String>, Vec<IpAddress>)>,
}

/// The parse stage as a value, for every origin: hostname extraction
/// decides success, and on success domain extraction of the hostname is
/// attempted, its failure only leaving the domain absent.
pub open spec fn spec_begin(origin: Seq<char>) -> Result<
    (Seq<char>, Option<Seq<char>>),
    RecordError,
> {
    match spec_extract_hostname(origin) {
        Err(e) => Err(e),
        Ok(h) => Ok((h, spec_extract_domain(h))),
    }
}

/// How one parse outcome relates to its input row: the outcome is a
/// function of that row's origin alone.
pub open spec fn begin_matches(origin: OriginRecord, r: Result<PendingRecord, RecordError>) -> bool {
    match r {
        Ok(p) => spec_begin(origin.origin@) matches Ok(hd) && p.origin == origin && p.hostname@
            == hd.0 && (p.domain is Some <==> hd.1 is Some) && (p.domain matches Some(d) ==> hd.1
            == Some(d@)),
        Err(e) => spec_begin(origin.origin@) == Err::<(Seq<char>, Option<Seq<char>>), RecordError>(
            e,
        ),
    }
}

/// The parse stage: extract the hostname — an unrecognized suffix or an
/// unparseable URL aborts the record — then the registrable domain, whose
/// absence only degrades the record.
pub fn begin(origin: OriginRecord) -> (r: Result<PendingRecord, RecordError>)
    ensures
        begin_matches(origin, r),
{
    let hostname = match extract_hostname(origin.origin.as_str()) {
        Ok(h) => h,
        Err(e) => {
            return Err(e);
        },
    };
    let domain = extract_domain(hostname.as_str());
    Ok(PendingRecord { origin, hostname, domain })
}

/// Whether the probe stage runs for a record: only when probing is
/// enabled, the origin's scheme is HTTPS, and at least one address was
/// resolved.
pub fn should_probe(tls_enabled: bool, origin: &str, ip: &Option<Vec<IpAddress>>) -> (r: bool)
    ensures
        r == (tls_enabled && is_https(origin@) && (ip matches Some(v) && v@.len() > 0)),
{
    tls_enabled && starts_with_https(origin) && (match ip {
        Some(v) => v.len() > 0,
        None => false,
    })
}

/// The attribute and assemble stages: attribute the resolved addresses
/// over the table when both are there, build the name-server record when a
/// domain, a table and an NS answer are all there, extract the issuer from
/// the probed chain when one was probed, and freeze everything into the
/// final record.
pub fn complete(
    pending: PendingRecord,
    dns: DnsAnswers,
    table: Option<&IpAsnMap>,
    peer_chain: Option<Vec<Vec<u8>>>,
) -> (r: IpInfo)
    ensures
        r.origin == pending.origin,
        r.records.hostname == pending.hostname,
        r.records.domain == pending.domain,
        r.records.cname == dns.cname,
        r.records.ip == dns.ip,
        ({
            let agg = match (table, dns.ip) {
                (Some(t), Some(v)) => spec_attribute(lookups(*t, v@)),
                _ => Seq::empty(),
            };
            match r.records.asn {
                Some(v) => agg.len() > 0 && v@.map_values(|a: Asn| a@) == agg,
                None => agg.len() == 0,
            }
        }),
        match (pending.domain, table, dns.ns) {
            (Some(_), Some(t), Some(ans)) => r.records.ns matches Some(n) && n.names@ == ans.0@
                && (match n.ips {
                Some(v) => v@ == ans.1@ && ans.1@.len() > 0,
                None => ans.1@.len() == 0,
            }) && ({
                let agg = spec_attribute(lookups(*t, ans.1@));
                match n.asn {
                    Some(v) => agg.len() > 0 && v@.map_values(|a: Asn| a@) == agg,
                    None => agg.len() == 0,
                }
            }),
            _ => r.records.ns is None,
        },
        match peer_chain {
            None => r.records.tls is None,
            Some(certs) => {
                let model = spec_from_der(certs@.map_values(|c: Vec<u8>| c@));
                match r.records.tls {
                    Some(info) => model matches Ok(m) && info@ == m,
                    None => model is Err,
                }
            },
        },
{
    let PendingRecord { origin, hostname, domain } = pending;
    let asn = match (table, &dns.ip) {
        (Some(t), Some(v)) => crate::asn::lookup_ip(v, t),
        _ => None,
    };
    let ns = if domain.is_some() {
        match (table, dns.ns) {
            (Some(t), Some(ans)) => Some(make_nameserver(ans.0, ans.1, t)),
            _ => None,
        }
    } else {
        None
    };
    let tls = match peer_chain {
        None => None,
        Some(certs) => match CertificateIssuerInfo::from_der(&certs) {
            Ok(info) => Some(info),
            Err(_) => None,
        },
    };
    IpInfo {
        origin,
        records: IpInfoRecord { hostname, domain, cname: dns.cname, ns, ip: dns.ip, asn, tls },
    }
}

/// The parse stage over a whole batch: one outcome per input record, in
/// order, each the function of its own row alone — a row that fails to
/// parse contributes its error and keeps no sibling from being parsed.
pub fn parse_all(records: Vec<OriginRecord>) -> (r: Vec<Result<PendingRecord, RecordError>>)
    ensures
        r@.len() == records@.len(),
        forall|i: int|
            0 <= i < records@.len() ==> begin_matches(records@[i], #[trigger] r@[i]),
{
    let ghost all = records@;
    let mut rest = records;
    let mut out: Vec<Result<PendingRecord, RecordError>> = Vec::new();
    while rest.len() > 0
        invariant
            out@.len() + rest@.len() == all.len(),
            rest@ == all.skip(out@.len() as int),
            forall|i: int| 0 <= i < out@.len() ==> begin_matches(all[i], #[trigger] out@[i]),
        decreases rest.len(),
    {
        let ghost k = out@.len() as int;
        let rec = rest.remove(0);
        proof {
            assert(rec == all[k]);
            assert(rest@ =~= all.skip(k + 1));
        }
        let outcome = begin(rec);
        out.push(outcome);
    }
    proof {
        assert(out@.len() == all.len());
    }
    out
}

} // verus!
