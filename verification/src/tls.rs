//! The compute side of the TLS certificate probe: choosing the connect
//! address, the request sent after the handshake, and the extraction of the
//! issuer identity from the peer's certificate chain.
//!
//! Opening the connection and running the handshake are boundary work; the
//! chain they produce comes back as plain DER bytes, and everything decided
//! from those bytes is verified here, with the X.509 parse itself named by
//! `issuer_of`.

use vstd::prelude::*;

use crate::ip::IpAddress;
use crate::model::TlsError;
use x509_parser::asn1_rs::FromDer;
use x509_parser::certificate::X509Certificate;

verus! {

/// The issuer identity of the root-most certificate: organization and
/// country, the country possibly absent.
#[derive(Debug, Clone)]
pub struct CertificateIssuerInfo {
    organization: String,
    country: Option<String>,
}

impl View for CertificateIssuerInfo {
    type V = (Seq<char>, Option<Seq<char>>);

    closed spec fn view(&self) -> Self::V {
        (
            self.organization@,
            match self.country {
                Some(c) => Some(c@),
                None => None,
            },
        )
    }
}

/// What certificate parsing extracts from DER bytes: nothing when the bytes
/// do not parse as an X.509 certificate; otherwise the last organization
/// attribute and the last country attribute of the issuer distinguished
/// name that are held in a directly-readable string form, either possibly
/// absent.
pub uninterp spec fn issuer_of(der: Seq<u8>) -> Option<(Option<Seq<char>>, Option<Seq<char>>)>;

/// Relies on x509_parser's X509Certificate::from_der, the issuer-name
/// attribute iterators of X509Name, and AttributeTypeAndValue::as_str,
/// which answers an error — never aborts — on an attribute whose value is
/// not a directly-readable string. All are functions of the DER bytes
/// alone.
#[verifier::external_body]
fn parse_issuer(der: &Vec<u8>) -> (r: Option<(Option<String>, Option<String>)>)
    ensures
        r is Some <==> issuer_of(der@) is Some,
        r matches Some(p) ==> issuer_of(der@) matches Some(q) && (p.0 is Some <==> q.0 is Some)
            && (p.0 matches Some(o) ==> q.0 == Some(o@)) && (p.1 is Some <==> q.1 is Some) && (
        p.1 matches Some(c) ==> q.1 == Some(c@)),
{
    match X509Certificate::from_der(der.as_slice()) {
        Ok((_, cert)) => {
            let issuer = cert.issuer();
            let org = issuer.iter_organization().filter_map(|v| v.as_str().ok()).last();
            let country = issuer.iter_country().filter_map(|v| v.as_str().ok()).last();
            Some((org.map(|s| s.to_string()), country.map(|s| s.to_string())))
        },
        Err(_) => None,
    }
}

/// What issuer extraction owes for every chain: the chain must be
/// non-empty, its last (root-most) certificate must parse, and the issuer
/// must carry an organization; the country stays optional.
pub open spec fn spec_from_der(certs: Seq<Seq<u8>>) -> Result<
    (Seq<char>, Option<Seq<char>>),
    TlsError,
> {
    if certs.len() == 0 {
        Err(TlsError::MissingPeerCertificates)
    } else {
        match issuer_of(certs.last()) {
            None => Err(TlsError::CertificateParseFailure),
            Some(p) => match p.0 {
                None => Err(TlsError::MissingIssuerOrganization),
                Some(org) => Ok((org, p.1)),
            },
        }
    }
}

impl CertificateIssuerInfo {
    /// The organization of the issuer.
    pub fn organization(&self) -> (r: &str)
        ensures
            r@ == self@.0,
    {
        self.organization.as_str()
    }

    /// The country of the issuer, when its distinguished name carries one.
    pub fn country(&self) -> (r: Option<&str>)
        ensures
            r is Some <==> self@.1 is Some,
            r matches Some(c) ==> self@.1 == Some(c@),
    {
        match &self.country {
            Some(c) => Some(c.as_str()),
            None => None,
        }
    }

    /// The issuer identity read from a peer chain of DER certificates,
    /// taking the last certificate of the chain — the one closest to the
    /// root — as the issuer source.
    pub fn from_der(certs: &Vec<Vec<u8>>) -> (r: Result<CertificateIssuerInfo, TlsError>)
        ensures
            ({
                let model = spec_from_der(certs@.map_values(|c: Vec<u8>| c@));
                match r {
                    Ok(info) => model matches Ok(m) && info@ == m,
                    Err(e) => model == Err::<(Seq<char>, Option<Seq<char>>), TlsError>(e),
                }
            }),
    {
        let ghost dv = certs@.map_values(|c: Vec<u8>| c@);
        if certs.len() == 0 {
            return Err(TlsError::MissingPeerCertificates);
        }
        let root = &certs[certs.len() - 1];
        proof {
            assert(dv.last() == root@);
        }
        match parse_issuer(root) {
            None => Err(TlsError::CertificateParseFailure),
            Some((None, _)) => Err(TlsError::MissingIssuerOrganization),
            Some((Some(org), country)) => Ok(
                CertificateIssuerInfo { organization: org, country },
            ),
        }
    }
}

/// The first IPv4 address of the list, if the list has one.
pub open spec fn first_v4(ips: Seq<IpAddress>) -> Option<IpAddress>
    decreases ips.len(),
{
    if ips.len() == 0 {
        None
    } else if ips.first().spec_is_v4() {
        Some(ips.first())
    } else {
        first_v4(ips.drop_first())
    }
}

/// Where the probe connects: the first IPv4 address among the resolved
/// ones, else the first address of any family; nothing when no address was
/// resolved.
pub open spec fn spec_connect_ip(ips: Seq<IpAddress>) -> Option<IpAddress> {
    if ips.len() == 0 {
        None
    } else {
        match first_v4(ips) {
            Some(ip) => Some(ip),
            None => Some(ips.first()),
        }
    }
}

proof fn lemma_first_v4_found(s: Seq<IpAddress>, i: int)
    requires
        0 <= i < s.len(),
        forall|j: int| 0 <= j < i ==> !(#[trigger] s[j]).spec_is_v4(),
        s[i].spec_is_v4(),
    ensures
        first_v4(s) == Some(s[i]),
    decreases i,
{
    if i > 0 {
        assert(!s.first().spec_is_v4());
        assert(forall|j: int| 0 <= j < i - 1 ==> #[trigger] s.drop_first()[j] == s[j + 1]);
        lemma_first_v4_found(s.drop_first(), i - 1);
    }
}

proof fn lemma_first_v4_none(s: Seq<IpAddress>)
    requires
        forall|j: int| 0 <= j < s.len() ==> !(#[trigger] s[j]).spec_is_v4(),
    ensures
        first_v4(s) is None,
    decreases s.len(),
{
    if s.len() > 0 {
        assert(forall|j: int|
            0 <= j < s.len() - 1 ==> #[trigger] s.drop_first()[j] == s[j + 1]);
        lemma_first_v4_none(s.drop_first());
    }
}

/// The connect target among the resolved addresses: prefer the first IPv4
/// address, else take the first address of any family; with no address at
/// all the probe cannot run.
pub fn pick_connect_ip(ips: &Vec<IpAddress>) -> (r: Result<IpAddress, TlsError>)
    ensures
        match r {
            Ok(ip) => spec_connect_ip(ips@) == Some(ip),
            Err(e) => ips@.len() == 0 && e == TlsError::NoAddressAvailable,
        },
{
    if ips.len() == 0 {
        return Err(TlsError::NoAddressAvailable);
    }
    let mut i: usize = 0;
    while i < ips.len()
        invariant
            i <= ips.len(),
            forall|j: int| 0 <= j < i as int ==> !(#[trigger] ips@[j]).spec_is_v4(),
        decreases ips.len() - i,
    {
        if ips[i].is_v4() {
            proof {
                lemma_first_v4_found(ips@, i as int);
            }
            return Ok(ips[i]);
        }
        i += 1;
    }
    proof {
        lemma_first_v4_none(ips@);
    }
    Ok(ips[0])
}

/// The minimal HTTP request sent after the handshake to elicit a response;
/// the reply is discarded, only the certificate chain matters.
pub fn generate_request(host: &str) -> (r: String)
    ensures
        r@ == "GET / HTTP/1.1\r\nHost: "@ + host@
            + "\r\nUser-Agent: rustls-client\r\nConnection: close\r\nAccept: */*\r\n\r\n"@,
{
    let mut s = String::from_str("GET / HTTP/1.1\r\nHost: ");
    s.append(host);
    s.append("\r\nUser-Agent: rustls-client\r\nConnection: close\r\nAccept: */*\r\n\r\n");
    s
}

} // verus!
