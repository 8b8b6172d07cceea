//! Input rows, enriched records, and the record-level error kinds.

use vstd::prelude::*;

use crate::asn::Asn;
use crate::dns::NameServer;
use crate::ip::IpAddress;
use crate::tls::CertificateIssuerInfo;

verus! {

/// One immutable input row: an origin URL with its popularity-list metadata.
#[derive(Debug, Clone)]
pub struct OriginRecord {
    pub origin: String,
    pub popularity: u32,
    pub date: String,
    pub country: String,
}

impl View for OriginRecord {
    type V = (Seq<char>, u32, Seq<char>, Seq<char>);

    open spec fn view(&self) -> Self::V {
        (self.origin@, self.popularity, self.date@, self.country@)
    }
}

/// The enrichment found for one record, built stage by stage; a field stays
/// absent where a lookup failed, answered nothing, or was not attempted.
#[derive(Debug)]
pub struct IpInfoRecord {
    pub hostname: String,
    pub domain: Option<String>,
    pub cname: Option<Vec<String>>,
    pub ns: Option<NameServer>,
    pub ip: Option<Vec<IpAddress>>,
    pub asn: Option<Vec<Asn>>,
    pub tls: Option<CertificateIssuerInfo>,
}

/// One finished enrichment: the input row together with what was found for
/// it.
#[derive(Debug)]
pub struct IpInfo {
    pub origin: OriginRecord,
    pub records: IpInfoRecord,
}

/// The failures that abort a whole record: the origin cannot be parsed at
/// the first pipeline stage, or the record's overall deadline passed. Every
/// other failure only degrades a field to absent.
#[derive(Clone, Copy, PartialEq, Eq, Structural, Debug)]
pub enum RecordError {
    InvalidHostname,
    InvalidUrl,
    PipelineTimeout,
}

/// The failures of the certificate probe; each is absorbed as an absent
/// `tls` field, never as a record error.
#[derive(Clone, Copy, PartialEq, Eq, Structural, Debug)]
pub enum TlsError {
    NoAddressAvailable,
    MissingPeerCertificates,
    CertificateParseFailure,
    MissingIssuerOrganization,
}

} // verus!
