//! Batch partitioning for the bounded-concurrency dispatcher.
//!
//! The dispatcher launches one pipeline per record of a chunk and waits for
//! the whole chunk before starting the next one, so the chunk size is the
//! concurrency cap. `chunked` builds that partition; `lemma_chunked_complete`
//! states that the partition keeps every record exactly once, in order, which
//! is what makes the dispatcher emit exactly one outcome per input record.

use vstd::prelude::*;

use crate::ip::IpAddress;

verus! {

/// The split of a string on commas: each piece runs to the next comma, no
/// comma is kept and nothing is dropped, so there is one piece more than
/// there are commas; a string without a comma is one piece.
pub open spec fn split_commas(s: Seq<char>) -> Seq<Seq<char>>
    decreases s.len(),
{
    if s.len() == 0 {
        seq![s]
    } else if s.first() == ',' {
        seq![Seq::<char>::empty()] + split_commas(s.drop_first())
    } else {
        let rest = split_commas(s.drop_first());
        seq![seq![s.first()] + rest.first()] + rest.drop_first()
    }
}

/// Relies on str::split with a ',' pattern: the pieces between the commas,
/// in order, with nothing dropped.
#[verifier::external_body]
fn split_on_commas(s: &str) -> (r: Vec<String>)
    ensures
        r@.map_values(|p: String| p@) == split_commas(s@),
{
    s.split(',').map(|p| p.to_string()).collect()
}

/// The IP address that the standard parser reads from a string after
/// trimming surrounding whitespace, if the string holds one.
pub uninterp spec fn ip_of(s: Seq<char>) -> Option<IpAddress>;

/// Relies on str::trim and the standard address parser of core::net: both
/// are functions of the string alone.
#[verifier::external_body]
fn parse_ip(s: &str) -> (r: Option<IpAddress>)
    ensures
        r == ip_of(s@),
{
    match s.trim().parse::<core::net::IpAddr>() {
        Ok(core::net::IpAddr::V4(a)) => Some(IpAddress::V4(u32::from(a))),
        Ok(core::net::IpAddr::V6(a)) => Some(IpAddress::V6(u128::from(a))),
        Err(_) => None,
    }
}

/// The addresses parsed from a list of pieces, in order, with the
/// unparseable pieces skipped.
pub open spec fn parsed_ips(pieces: Seq<Seq<char>>) -> Seq<IpAddress>
    decreases pieces.len(),
{
    if pieces.len() == 0 {
        Seq::empty()
    } else {
        let rest = parsed_ips(pieces.drop_first());
        match ip_of(pieces.first()) {
            Some(ip) => seq![ip] + rest,
            None => rest,
        }
    }
}

proof fn lemma_parsed_ips_snoc(ps: Seq<Seq<char>>, p: Seq<char>)
    ensures
        parsed_ips(ps.push(p)) == parsed_ips(ps) + (match ip_of(p) {
            Some(ip) => seq![ip],
            None => Seq::<IpAddress>::empty(),
        }),
    decreases ps.len(),
{
    let tail = match ip_of(p) {
        Some(ip) => seq![ip],
        None => Seq::<IpAddress>::empty(),
    };
    if ps.len() == 0 {
        assert(ps.push(p).first() == p);
        assert(ps.push(p).drop_first() =~= Seq::<Seq<char>>::empty());
        assert(parsed_ips(ps.push(p).drop_first()) == Seq::<IpAddress>::empty());
        assert(parsed_ips(ps.push(p)) =~= tail);
        assert(parsed_ips(ps) + tail =~= tail);
    } else {
        assert(ps.push(p).first() == ps.first());
        assert(ps.push(p).drop_first() =~= ps.drop_first().push(p));
        lemma_parsed_ips_snoc(ps.drop_first(), p);
        match ip_of(ps.first()) {
            Some(ip) => {
                assert(seq![ip] + (parsed_ips(ps.drop_first()) + tail) =~= (seq![ip] + parsed_ips(
                    ps.drop_first(),
                )) + tail);
            },
            None => {},
        }
    }
}

/// The addresses of a comma-separated list, in order, whitespace around
/// each entry ignored and unparseable entries skipped.
pub fn parse_ip_list(ip_list: &str) -> (r: Vec<IpAddress>)
    ensures
        r@ == parsed_ips(split_commas(ip_list@)),
{
    let pieces = split_on_commas(ip_list);
    let ghost ps = split_commas(ip_list@);
    let mut out: Vec<IpAddress> = Vec::new();
    let mut i: usize = 0;
    proof {
        assert(ps.take(0) =~= Seq::<Seq<char>>::empty());
    }
    while i < pieces.len()
        invariant
            i <= pieces.len(),
            pieces@.map_values(|p: String| p@) == ps,
            out@ == parsed_ips(ps.take(i as int)),
        decreases pieces.len() - i,
    {
        proof {
            assert(ps[i as int] == pieces@[i as int]@);
            assert(ps.take(i as int + 1) =~= ps.take(i as int).push(ps[i as int]));
            lemma_parsed_ips_snoc(ps.take(i as int), ps[i as int]);
        }
        match parse_ip(pieces[i].as_str()) {
            Some(ip) => {
                out.push(ip);
                proof {
                    assert(out@ =~= parsed_ips(ps.take(i as int + 1)));
                }
            },
            None => {
                proof {
                    assert(out@ =~= parsed_ips(ps.take(i as int + 1)));
                }
            },
        }
        i += 1;
    }
    proof {
        assert(ps.take(pieces@.len() as int) =~= ps);
    }
    out
}

/// The name servers a run resolves with: the parseable addresses of the
/// custom list when it yields at least one, else the well-known default
/// public recursive resolver.
pub fn resolver_ips(custom_dns: Option<String>) -> (r: Vec<IpAddress>)
    ensures
        ({
            let parsed = match custom_dns {
                Some(s) => parsed_ips(split_commas(s@)),
                None => Seq::<IpAddress>::empty(),
            };
            if parsed.len() > 0 {
                r@ == parsed
            } else {
                r@ == seq![IpAddress::V4(0x0101_0101u32)]
            }
        }),
{
    match custom_dns {
        Some(s) => {
            let ips = parse_ip_list(s.as_str());
            if ips.len() > 0 {
                ips
            } else {
                vec![IpAddress::V4(0x0101_0101)]
            }
        },
        None => vec![IpAddress::V4(0x0101_0101)],
    }
}

/// The partition of `s` into consecutive chunks of `k` elements, the last
/// chunk possibly shorter. A chunk size of zero yields no chunks at all.
pub open spec fn spec_chunked<A>(s: Seq<A>, k: nat) -> Seq<Seq<A>>
    decreases s.len(),
{
    if k == 0 || s.len() == 0 {
        Seq::empty()
    } else if s.len() <= k {
        seq![s]
    } else {
        seq![s.take(k as int)].add(spec_chunked(s.skip(k as int), k))
    }
}

/// Break a list into chunks of `chunk_size` items; the last chunk may be
/// smaller. With a chunk size of zero no chunks are produced.
pub fn chunked<A>(items: Vec<A>, chunk_size: usize) -> (r: Vec<Vec<A>>)
    ensures
        r@.map_values(|c: Vec<A>| c@) == spec_chunked(items@, chunk_size as nat),
{
    let ghost all = items@;
    let mut rest = items;
    let mut r: Vec<Vec<A>> = Vec::new();
    if chunk_size == 0 {
        assert(r@.map_values(|c: Vec<A>| c@) =~= spec_chunked(all, 0));
        return r;
    }
    while rest.len() > 0
        invariant
            chunk_size > 0,
            spec_chunked(all, chunk_size as nat) == r@.map_values(|c: Vec<A>| c@)
                + spec_chunked(rest@, chunk_size as nat),
        decreases rest.len(),
    {
        let ghost before = rest@;
        let at = if chunk_size < rest.len() {
            chunk_size
        } else {
            rest.len()
        };
        let tail = rest.split_off(at);
        r.push(rest);
        rest = tail;
        proof {
            assert(before.take(at as int) =~= before.subrange(0, at as int));
            assert(before.skip(at as int) =~= before.subrange(at as int, before.len() as int));
            if before.len() <= chunk_size {
                assert(before.take(at as int) =~= before);
                assert(spec_chunked(before, chunk_size as nat) =~= seq![before]);
            }
            assert(r@.map_values(|c: Vec<A>| c@) =~= r@.subrange(0, r@.len() - 1).map_values(
                |c: Vec<A>| c@,
            ).push(before.take(at as int)));
            assert(spec_chunked(all, chunk_size as nat) =~= r@.map_values(|c: Vec<A>| c@)
                + spec_chunked(rest@, chunk_size as nat));
        }
    }
    proof {
        assert(spec_chunked(rest@, chunk_size as nat) =~= Seq::<Seq<A>>::empty());
        assert(spec_chunked(all, chunk_size as nat) =~= r@.map_values(|c: Vec<A>| c@));
    }
    r
}

/// Completeness of the dispatcher's partition: with any chunk size of at
/// least one, concatenating the chunks gives back the input exactly, so over
/// a run of the whole batch every record is handed to exactly one pipeline;
/// none is dropped and none is duplicated.
pub proof fn lemma_chunked_complete<A>(s: Seq<A>, k: nat)
    requires
        k >= 1,
    ensures
        spec_chunked(s, k).flatten() == s,
    decreases s.len(),
{
    if s.len() == 0 {
        assert(spec_chunked(s, k) =~= Seq::<Seq<A>>::empty());
        assert(spec_chunked(s, k).flatten() =~= s);
    } else if s.len() <= k {
        assert(spec_chunked(s, k) =~= seq![s]);
        spec_chunked(s, k).lemma_flatten_one_element();
        assert(spec_chunked(s, k).flatten() =~= s);
    } else {
        let head = s.take(k as int);
        let rest = spec_chunked(s.skip(k as int), k);
        lemma_chunked_complete(s.skip(k as int), k);
        let whole = seq![head].add(rest);
        assert(whole.first() == head);
        assert(whole.drop_first() =~= rest);
        assert(whole.flatten() == head.add(rest.flatten()));
        assert(head.add(s.skip(k as int)) =~= s);
        assert(spec_chunked(s, k).flatten() =~= s);
    }
}

} // verus!
