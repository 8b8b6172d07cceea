//! Domain parsing: the hostname of an origin URL and its registrable domain
//! under public-suffix rules.
//!
//! URL parsing and the public-suffix match themselves are done by the url
//! and publicsuffix2 crates; their answers are named by `url_host`,
//! `strict_suffix` and `psl_parts`, and everything decided from those
//! answers is verified here.

use vstd::prelude::*;

use crate::model::RecordError;
use publicsuffix2::{List, MatchOpts, TypeFilter};
use url::Url;

verus! {

/// The public suffix recognized at the end of a string under strict
/// matching against the bundled public-suffix list, if any.
pub uninterp spec fn strict_suffix(s: Seq<char>) -> Option<Seq<char>>;

/// Relies on publicsuffix2::List::tld over the list bundled with the crate,
/// with strict matching: the recognized suffix is a function of the input
/// string alone.
#[verifier::external_body]
fn psl_strict_tld(s: &str) -> (r: Option<String>)
    ensures
        r is Some <==> strict_suffix(s@) is Some,
        r matches Some(t) ==> strict_suffix(s@) == Some(t@),
{
    let opts = MatchOpts { strict: true, ..MatchOpts::default() };
    List::default().tld(s, opts).map(|t| t.into_owned())
}

/// What URL parsing makes of a string: nothing when the string is not a
/// well-formed URL; otherwise the host part, which a well-formed URL may
/// still lack.
pub uninterp spec fn url_host(s: Seq<char>) -> Option<Option<Seq<char>>>;

/// Relies on url::Url::parse and url::Url::host_str: both are functions of
/// the input string alone.
#[verifier::external_body]
fn parse_url_host(s: &str) -> (r: Option<Option<String>>)
    ensures
        r is Some <==> url_host(s@) is Some,
        r matches Some(h) ==> url_host(s@) matches Some(h2) && (h is Some <==> h2 is Some) && (
        h matches Some(x) ==> h2 == Some(x@)),
{
    match Url::parse(s) {
        Ok(u) => Some(u.host_str().map(|h| h.to_string())),
        Err(_) => None,
    }
}

/// The split of a host under ICANN-only public-suffix rules: nothing when
/// no suffix matches; otherwise the second-level label and the registrable
/// domain, either of which the split may leave absent.
pub uninterp spec fn psl_parts(host: Seq<char>) -> Option<(Option<Seq<char>>, Option<Seq<char>>)>;

/// Relies on publicsuffix2::List::split over the bundled list with
/// ICANN-only rules: the parts are a function of the host string alone.
#[verifier::external_body]
fn psl_split(host: &str) -> (r: Option<(Option<String>, Option<String>)>)
    ensures
        r is Some <==> psl_parts(host@) is Some,
        r matches Some(p) ==> psl_parts(host@) matches Some(q) && (p.0 is Some <==> q.0 is Some)
            && (p.1 is Some <==> q.1 is Some) && (p.0 matches Some(l) ==> q.0 == Some(l@)) && (
        p.1 matches Some(d) ==> q.1 == Some(d@)),
{
    let opts = MatchOpts { types: TypeFilter::Icann, ..MatchOpts::default() };
    List::default().split(host, opts).map(
        |p| (p.sll.map(|v| v.into_owned()), p.sld.map(|v| v.into_owned())),
    )
}

/// What hostname extraction owes for every origin string: the origin must
/// parse as a URL with a host part — else the URL is invalid — and that
/// host must end in a suffix the public-suffix list knows — else the
/// hostname is invalid; the hostname is the host part.
pub open spec fn spec_extract_hostname(origin: Seq<char>) -> Result<Seq<char>, RecordError> {
    match url_host(origin) {
        None => Err(RecordError::InvalidUrl),
        Some(None) => Err(RecordError::InvalidUrl),
        Some(Some(h)) => if strict_suffix(h) is None {
            Err(RecordError::InvalidHostname)
        } else {
            Ok(h)
        },
    }
}

/// The normalized hostname of an origin URL: the host component, with no
/// scheme and no path, accepted only when the origin carries a recognized
/// public suffix.
pub fn extract_hostname(origin: &str) -> (r: Result<String, RecordError>)
    ensures
        match r {
            Ok(h) => spec_extract_hostname(origin@) == Ok::<Seq<char>, RecordError>(h@),
            Err(e) => spec_extract_hostname(origin@) == Err::<Seq<char>, RecordError>(e),
        },
{
    match parse_url_host(origin) {
        None => Err(RecordError::InvalidUrl),
        Some(None) => Err(RecordError::InvalidUrl),
        Some(Some(h)) => {
            if psl_strict_tld(h.as_str()).is_none() {
                Err(RecordError::InvalidHostname)
            } else {
                Ok(h)
            }
        },
    }
}

/// What domain extraction owes for every hostname: the registrable domain
/// of the split, present only when the split succeeded and found a
/// second-level label next to the suffix.
pub open spec fn spec_extract_domain(host: Seq<char>) -> Option<Seq<char>> {
    match psl_parts(host) {
        None => None,
        Some(p) => if p.0 is None {
            None
        } else {
            p.1
        },
    }
}

/// The registrable domain of a hostname under ICANN public-suffix rules
/// (second-level label plus public suffix), absent when the hostname does
/// not split into a label and a recognized suffix.
pub fn extract_domain(hostname: &str) -> (r: Option<String>)
    ensures
        r is Some <==> spec_extract_domain(hostname@) is Some,
        r matches Some(d) ==> spec_extract_domain(hostname@) == Some(d@),
{
    match psl_split(hostname) {
        None => None,
        Some(p) => {
            if p.0.is_none() {
                None
            } else {
                p.1
            }
        },
    }
}

} // verus!
